//! What callers can rely on of the operations themselves: their results in terms of what they are
//! given.
use vstd::prelude::*;

use crate::bytes::{dictionary_less, is_letter, upper_byte};
use crate::env::{
    entry_views, exactly_these_variables_are_blocked, lemma_map_of, lower_starts_with,
    sanitize_env_vars, EnvEntry, EnvMap,
};
use crate::error::{ErrorView, IoFailure, IoFailureKind, SandboxError};
use crate::laws::{
    covers, lemma_entry_of_rule, lemma_rule_of_entry, pruning_covers_what_it_drops, rules_give,
    same_key_means_same_components,
};
use crate::linux::mounts::{
    after_steps, c_path, covered_paths_show_what_they_should, mount_steps, placeholder_name,
    scratch_name, uncovered, MountStep,
};
use crate::linux::namespace::{mapping_failure, MappingStep};
use crate::linux::overlays::ReadWriteOverlayKind;
use crate::linux::process::{close_is_settled, descriptor_range, descriptors_to_close, ErrnoTable};
use crate::macos::{
    build_sbpl_profile, every_denied_path_is_closed, every_exception_to_the_default_is_written,
    escaped, escaping_can_be_undone, plan_macos_run, profile_lines, quote_sbpl_string,
    sandbox_exec_path, unescaped,
};
use crate::manager::{
    canonical_form, probe_views, sanitize_policy_for_execution, PathProbe, PreparedExecution, ProbeView, SandboxCommandRequest, SandboxManager,
};
use crate::outcomes::{
    accepted_policies_enforce_every_rule, asks_below_a_denial, every_rule_is_enforced, found_rules,
    granted_access, is_unusable, policies_are_refused_exactly,
    refused_requests_are_explained, requests_are_accepted_exactly, rules_are_refused_exactly,
};
use crate::output::SandboxExecOutput;
use crate::overlay::{
    access_for_priority, collapse_rules, explicit_priority, is_first_reopening, overlay_rules,
    path_access_label, prune_same_access_descendants, reject_reopened_descendants_under_deny,
    reopening_error, reopens, rules_or_error,
};
use crate::path::{
    components, display_text, is_below, is_same_or_descendant, path_key, path_views, same_path,
    strip_windows_verbatim_prefix, style_with_separator, PathStyle, SandboxPath,
};
use crate::path_policy::{
    dedupe_paths, deduped_keys_are_distinct, deduping_loses_no_key, text_key, PathKeyMode,
    PathPolicy,
};
use crate::path_shape::{
    below, directories_hold_what_is_below, is_plain_windows_name, is_unix_name,
    verbatim_drives_become_plain,
};
use crate::policy::{
    coarse_shape, listed_paths_are_those_of_the_rules, SandboxCoarseNetworkPolicy,
    permission_views, PermissionView, SandboxDefaultAccess, SandboxNetworkPolicy, SandboxPathAccess,
    SandboxPathPermission, SandboxPolicy,
};
use crate::rule_order::prefixes_agree;
use crate::runner::{finished_output, missing_pipe};
use crate::text::{char_numbers, decimal, has_text, is_blank, join, lower, occurs_at, texts};

verus! {

/// The rule at a place of a policy.
pub open spec fn rule_at(
    policy: SandboxPolicy,
    i: int,
    path: Seq<u8>,
    access: SandboxPathAccess,
) -> bool {
    0 <= i < policy.path_permissions@.len() && policy.path_permissions@[i].path@ == path
        && policy.path_permissions@[i].access == access
}

/// A list holds a path.
pub open spec fn lists_path(paths: Seq<SandboxPath>, path: Seq<u8>) -> bool {
    exists|k: int| 0 <= k < paths.len() && (#[trigger] paths[k])@ == path
}

/// A list holds a path exactly where its value does.
pub proof fn lemma_lists_path(paths: Seq<SandboxPath>, path: Seq<u8>)
    ensures
        lists_path(paths, path) <==> path_views(paths).contains(path),
{
    let v = path_views(paths);
    if lists_path(paths, path) {
        let k = choose|k: int| 0 <= k < paths.len() && (#[trigger] paths[k])@ == path;
        assert(v[k] == path);
    }
    if v.contains(path) {
        let k = choose|k: int| 0 <= k < v.len() && v[k] == path;
        assert(paths[k]@ == path);
    }
}

/// A policy lists as denied exactly the paths of its rules that deny.
pub proof fn denied_paths_are_listed(policy: &SandboxPolicy, r: Vec<SandboxPath>, path: Seq<u8>)
    requires
        call_ensures(SandboxPolicy::denied_paths, (policy,), r),
    ensures
        lists_path(r@, path) <==> exists|i: int| #[trigger]
            rule_at(*policy, i, path, SandboxPathAccess::Deny),
{
    lemma_listed(*policy, r@, path, set![SandboxPathAccess::Deny]);
}

/// A policy lists as read-only exactly the paths of its read-only rules.
pub proof fn read_only_paths_are_listed(policy: &SandboxPolicy, r: Vec<SandboxPath>, path: Seq<u8>)
    requires
        call_ensures(SandboxPolicy::read_only_paths, (policy,), r),
    ensures
        lists_path(r@, path) <==> exists|i: int| #[trigger]
            rule_at(*policy, i, path, SandboxPathAccess::ReadOnly),
{
    lemma_listed(*policy, r@, path, set![SandboxPathAccess::ReadOnly]);
}

/// A policy lists as writable exactly the paths of its writable rules, under both names.
pub proof fn writable_paths_are_listed(
    policy: &SandboxPolicy,
    r: Vec<SandboxPath>,
    s: Vec<SandboxPath>,
    path: Seq<u8>,
)
    requires
        call_ensures(SandboxPolicy::read_write_paths, (policy,), r),
        call_ensures(SandboxPolicy::writable_paths, (policy,), s),
    ensures
        lists_path(r@, path) <==> exists|i: int| #[trigger]
            rule_at(*policy, i, path, SandboxPathAccess::ReadWrite),
        lists_path(s@, path) <==> exists|i: int| #[trigger]
            rule_at(*policy, i, path, SandboxPathAccess::ReadWrite),
{
    lemma_listed(*policy, r@, path, set![SandboxPathAccess::ReadWrite]);
    lemma_listed(*policy, s@, path, set![SandboxPathAccess::ReadWrite]);
}

/// A policy lists as readable exactly the paths of its rules that do not deny.
pub proof fn readable_paths_are_listed(policy: &SandboxPolicy, r: Vec<SandboxPath>, path: Seq<u8>)
    requires
        call_ensures(SandboxPolicy::readable_paths, (policy,), r),
    ensures
        lists_path(r@, path) <==> exists|i: int|
            0 <= i < policy.path_permissions@.len() && (
            #[trigger] policy.path_permissions@[i]).path@ == path
                && policy.path_permissions@[i].access != SandboxPathAccess::Deny,
{
    let wanted = set![SandboxPathAccess::ReadOnly, SandboxPathAccess::ReadWrite];
    let rules = policy@.path_permissions;
    lemma_lists_path(r@, path);
    listed_paths_are_those_of_the_rules(rules, wanted, path);
    if lists_path(r@, path) {
        let i = choose|i: int|
            0 <= i < rules.len() && (#[trigger] rules[i]).path == path && wanted.contains(
                rules[i].access,
            );
        assert(policy.path_permissions@[i].path@ == path);
    }
    if exists|i: int|
        0 <= i < policy.path_permissions@.len() && (#[trigger] policy.path_permissions@[i]).path@
            == path && policy.path_permissions@[i].access != SandboxPathAccess::Deny {
        let i = choose|i: int|
            0 <= i < policy.path_permissions@.len() && (
            #[trigger] policy.path_permissions@[i]).path@ == path
                && policy.path_permissions@[i].access != SandboxPathAccess::Deny;
        assert(rules[i].path == path && wanted.contains(rules[i].access));
    }
}

proof fn lemma_listed(
    policy: SandboxPolicy,
    r: Seq<SandboxPath>,
    path: Seq<u8>,
    wanted: Set<SandboxPathAccess>,
)
    requires
        path_views(r) == crate::policy::paths_with(policy@.path_permissions, wanted),
        wanted == set![SandboxPathAccess::Deny] || wanted == set![SandboxPathAccess::ReadOnly]
            || wanted == set![SandboxPathAccess::ReadWrite],
    ensures
        forall|access: SandboxPathAccess|
            wanted == set![access] ==> (lists_path(r, path) <==> exists|i: int| #[trigger]
                rule_at(policy, i, path, access)),
{
    let rules = policy@.path_permissions;
    lemma_lists_path(r, path);
    listed_paths_are_those_of_the_rules(rules, wanted, path);
    assert forall|access: SandboxPathAccess| wanted == set![access] implies (lists_path(r, path)
        <==> exists|i: int| #[trigger] rule_at(policy, i, path, access)) by {
        if lists_path(r, path) {
            let i = choose|i: int|
                0 <= i < rules.len() && (#[trigger] rules[i]).path == path && wanted.contains(
                    rules[i].access,
                );
            assert(rules[i].access == access);
            assert(rule_at(policy, i, path, access));
        }
        if exists|i: int| #[trigger] rule_at(policy, i, path, access) {
            let i = choose|i: int| #[trigger] rule_at(policy, i, path, access);
            assert(rules[i].path == path && wanted.contains(rules[i].access));
        }
    }
}

/// What a network policy allows as a whole: a network where one of the two address families is
/// allowed, connections out into it where connecting is, and connections from it where all of
/// binding, listening and accepting are.
pub proof fn networks_are_allowed_by_their_parts(
    p: SandboxNetworkPolicy,
    any: bool,
    inbound: bool,
    outbound: bool,
)
    requires
        call_ensures(SandboxNetworkPolicy::allows_ip_network, (p,), any),
        call_ensures(SandboxNetworkPolicy::allows_inbound_ip, (p,), inbound),
        call_ensures(SandboxNetworkPolicy::allows_outbound_ip, (p,), outbound),
    ensures
        any <==> p.allow_ipv4 || p.allow_ipv6,
        outbound <==> (p.allow_ipv4 || p.allow_ipv6) && p.allow_connect,
        inbound <==> (p.allow_ipv4 || p.allow_ipv6) && p.allow_bind && p.allow_listen
            && p.allow_accept,
{
}

/// The three policies that can be asked for by name.
pub proof fn named_networks_are_as_named(
    disabled: SandboxNetworkPolicy,
    outbound: SandboxNetworkPolicy,
    both: SandboxNetworkPolicy,
)
    requires
        call_ensures(SandboxNetworkPolicy::disabled, (), disabled),
        call_ensures(SandboxNetworkPolicy::outbound_only, (), outbound),
        call_ensures(SandboxNetworkPolicy::bidirectional, (), both),
    ensures
        disabled.allow_unix && !disabled.allow_ipv4 && !disabled.allow_ipv6
            && !disabled.allow_connect && !disabled.allow_bind && !disabled.allow_listen
            && !disabled.allow_accept,
        outbound.allow_unix && outbound.allow_ipv4 && outbound.allow_ipv6 && outbound.allow_connect
            && !outbound.allow_bind && !outbound.allow_listen && !outbound.allow_accept,
        both.allow_unix && both.allow_ipv4 && both.allow_ipv6 && both.allow_connect
            && both.allow_bind && both.allow_listen && both.allow_accept,
{
}

/// A coarse shape is found exactly for the policies that can be asked for by name, and is that name.
pub proof fn shapes_are_found_exactly(
    p: SandboxNetworkPolicy,
    r: Option<SandboxCoarseNetworkPolicy>,
)
    requires
        call_ensures(SandboxNetworkPolicy::coarse_policy, (p,), r),
    ensures
        ({
            let open = p.allow_unix && p.allow_ipv4 && p.allow_ipv6 && p.allow_connect;
            let closed = p.allow_unix && !p.allow_ipv4 && !p.allow_ipv6 && !p.allow_connect;
            let inbound = p.allow_bind && p.allow_listen && p.allow_accept;
            let none = !p.allow_bind && !p.allow_listen && !p.allow_accept;
            &&& r == Some(SandboxCoarseNetworkPolicy::Disabled) <==> closed && none
            &&& r == Some(SandboxCoarseNetworkPolicy::OutboundOnly) <==> open && none
            &&& r == Some(SandboxCoarseNetworkPolicy::Bidirectional) <==> open && inbound
        }),
{
}

/// What is enforced of an accepted policy, and when one is refused: if a rule has an empty path, if
/// a path was missing or could not be resolved, be it of a file or of a directory, or if a rule asks
/// for more than the default below a denied path.
pub proof fn policies_are_sanitized(
    style: PathStyle,
    policy: &SandboxPolicy,
    probes: &Vec<PathProbe>,
    r: Result<SandboxPolicy, SandboxError>,
    q: Seq<u8>,
)
    requires
        call_ensures(sanitize_policy_for_execution, (style, policy, probes), r),
        probes.len() == policy.path_permissions.len(),
        style == PathStyle::Unix || prefixes_agree(
            style,
            found_rules(style, policy@.path_permissions, probe_views(probes@)),
        ),
    ensures
        ({
            let views = probe_views(probes@);
            let rules = found_rules(style, policy@.path_permissions, views);
            let deny = SandboxPathAccess::Deny;
            let other = granted_access(policy.default_access);
            &&& r is Err <==> {
                ||| exists|i: int| #[trigger] is_unusable(policy@.path_permissions, views, i)
                ||| exists|i: int, j: int| #[trigger]
                    asks_below_a_denial(style, policy.default_access, rules, i, j)
            }
            &&& r matches Ok(p) ==> {
                let out = p@.path_permissions;
                &&& p.default_access == policy.default_access
                &&& p.network_policy == policy.network_policy
                &&& covers(style, out, deny, q) <==> covers(style, rules, deny, q)
                &&& !covers(style, rules, deny, q) ==> (covers(style, out, other, q) <==> covers(
                    style,
                    rules,
                    other,
                    q,
                ))
            }
        }),
{
    let views = probe_views(probes@);
    policies_are_refused_exactly(style, *policy, views, r);
    if r is Ok {
        accepted_policies_enforce_every_rule(style, *policy, views, r->Ok_0, q);
    }
}

/// A run is prepared exactly where both its request and its policy are accepted. A request that is
/// refused is answered as such, whatever the policy is.
pub proof fn runs_are_prepared_exactly(
    manager: &SandboxManager,
    style: PathStyle,
    request: &SandboxCommandRequest,
    policy: &SandboxPolicy,
    cwd: &PathProbe,
    probes: &Vec<PathProbe>,
    r: Result<PreparedExecution, SandboxError>,
    q: Seq<u8>,
    name: Seq<char>,
)
    requires
        call_ensures(SandboxManager::execute, (manager, style, request, policy, cwd, probes), r),
        probes.len() == policy.path_permissions.len(),
        style == PathStyle::Unix || prefixes_agree(
            style,
            found_rules(style, policy@.path_permissions, probe_views(probes@)),
        ),
    ensures
        ({
            let views = probe_views(probes@);
            let rules = found_rules(style, policy@.path_permissions, views);
            let deny = SandboxPathAccess::Deny;
            let other = granted_access(policy.default_access);
            let in_dir = cwd@ matches ProbeView::Resolved(_, is_dir) && is_dir;
            &&& r is Ok <==> {
                &&& request@.command.len() > 0 && !is_blank(request@.command[0]) && in_dir
                &&& forall|i: int| !#[trigger] is_unusable(policy@.path_permissions, views, i)
                &&& forall|i: int, j: int|
                    !#[trigger] asks_below_a_denial(style, policy.default_access, rules, i, j)
            }
            &&& request@.command.len() == 0 ==> r is Err && r->Err_0@ == ErrorView::InvalidRequest(
                "command must contain at least one token"@,
            )
            &&& request@.command.len() > 0 && is_blank(request@.command[0]) ==> r is Err
                && r->Err_0@ == ErrorView::InvalidRequest("command executable must not be empty"@)
            &&& request@.command.len() > 0 && !is_blank(request@.command[0]) && cwd@ is Missing
                ==> r is Err && r->Err_0@ == ErrorView::InvalidRequest(
                "sandbox cwd"@ + " does not exist: "@ + display_text(style, request@.cwd),
            )
            &&& r matches Ok(p) ==> {
                let out = p.policy@.path_permissions;
                &&& p.request@.command == request@.command
                &&& p.request@.timeout_ms == request@.timeout_ms
                &&& p.request@.cwd == canonical_form(style, cwd@->Resolved_0)
                &&& p.request@.env.contains_key(name) <==> request@.env.contains_key(name)
                    && !crate::env::is_blocked_variable(name)
                &&& p.request@.env.contains_key(name) ==> p.request@.env[name] == request@.env[name]
                &&& p.policy.default_access == policy.default_access
                &&& p.policy.network_policy == policy.network_policy
                &&& covers(style, out, deny, q) <==> covers(style, rules, deny, q)
                &&& !covers(style, rules, deny, q) ==> (covers(style, out, other, q) <==> covers(
                    style,
                    rules,
                    other,
                    q,
                ))
            }
        }),
{
    let views = probe_views(probes@);
    requests_are_accepted_exactly(style, request@, cwd@, name);
    refused_requests_are_explained(style, request@, cwd@);
    if crate::manager::sanitized_request(style, request@, cwd@) is Ok {
        let p = match r {
            Ok(prepared) => Ok(prepared.policy),
            Err(e) => Err(e),
        };
        policies_are_refused_exactly(style, *policy, views, p);
        if p is Ok {
            accepted_policies_enforce_every_rule(style, *policy, views, p->Ok_0, q);
        }
    }
}

/// A request is valid exactly where it can be made ready to run.
pub proof fn valid_requests_can_run(
    request: &SandboxCommandRequest,
    style: PathStyle,
    cwd: &PathProbe,
    valid: Result<(), SandboxError>,
    ready: Result<SandboxCommandRequest, SandboxError>,
)
    requires
        call_ensures(SandboxCommandRequest::validate, (request, style, cwd), valid),
        call_ensures(SandboxCommandRequest::sanitized_for_execution, (request, style, cwd), ready),
    ensures
        valid is Ok <==> ready is Ok,
        valid is Ok <==> request@.command.len() > 0 && !is_blank(request@.command[0]) && (
        cwd@ matches ProbeView::Resolved(_, is_dir) && is_dir),
        valid is Err && ready is Err ==> valid->Err_0@ == ready->Err_0@,
        ready matches Ok(x) ==> x@.command == request@.command && x@.timeout_ms
            == request@.timeout_ms && x@.cwd == canonical_form(style, cwd@->Resolved_0),
{
    requests_are_accepted_exactly(style, request@, cwd@, Seq::empty());
}

/// An environment is passed on without the variables that change how programs are loaded or shells
/// start, and else as it is.
pub proof fn environments_are_sanitized(env: &EnvMap, r: EnvMap, name: Seq<char>)
    requires
        call_ensures(sanitize_env_vars, (env,), r),
    ensures
        ({
            let blocked = lower(name) == "bash_env"@ || lower(name) == "env"@ || lower_starts_with(
                name,
                "ld_"@,
            ) || lower_starts_with(name, "dyld_"@) || lower_starts_with(name, "bash_func_"@);
            &&& r@.contains_key(name) <==> env@.contains_key(name) && !blocked
            &&& r@.contains_key(name) ==> r@[name] == env@[name]
        }),
{
    exactly_these_variables_are_blocked(name);
}

/// A mount over a denied path, be it a file or a directory, leaves none of its contents to reach; one
/// over a read-only path leaves all of them. Nothing can be written through either.
pub proof fn mounts_cover_their_path(
    kind: ReadWriteOverlayKind,
    is_dir: bool,
    r: Vec<MountStep>,
    flags: u64,
)
    requires
        call_ensures(mount_steps, (kind, is_dir), r),
    ensures
        ({
            let v = after_steps(uncovered(), r@);
            &&& v.own_contents <==> kind == ReadWriteOverlayKind::ReadOnly
            &&& !v.writable
            &&& v.recursive == is_dir
            &&& !v.placeholder
        }),
        kind == ReadWriteOverlayKind::Deny ==> !r@.contains(MountStep::BindSelf(flags)),
        kind == ReadWriteOverlayKind::ReadOnly ==> !r@.contains(MountStep::BindPlaceholder(flags)),
{
    covered_paths_show_what_they_should(kind, is_dir);
}

/// The names of what a run makes to cover paths tell apart what is a directory and what is a file.
pub proof fn placeholders_are_named(pid: u32, index: usize, scratch: String, d: String, f: String)
    requires
        call_ensures(scratch_name, (pid,), scratch),
        call_ensures(placeholder_name, (true, index), d),
        call_ensures(placeholder_name, (false, index), f),
    ensures
        scratch@ == "procwarden-linux-overlay-"@ + decimal(pid as nat),
        d@ == "deny-dir-"@ + decimal(index as nat),
        f@ == "deny-file-"@ + decimal(index as nat),
{
}

/// A path can be handed to the system exactly where it holds no zero byte, and is handed on as it
/// is.
pub proof fn zero_bytes_are_refused(path: &SandboxPath, r: Result<SandboxPath, IoFailure>)
    requires
        call_ensures(c_path, (path,), r),
    ensures
        r is Err <==> path@.contains(0u8),
        r matches Ok(p) ==> p@ == path@,
        r matches Err(e) ==> e.kind == IoFailureKind::InvalidInput,
{
}

/// Every step of mapping a user that fails is reported behind its name, except that a system
/// without the file for groups needs none.
pub proof fn mapping_failures_are_reported(
    step: MappingStep,
    failure: &IoFailure,
    r: Option<IoFailure>,
)
    requires
        call_ensures(mapping_failure, (step, failure), r),
    ensures
        r is None <==> step == MappingStep::WriteSetgroups && failure.kind
            == IoFailureKind::NotFound,
        r matches Some(e) ==> {
            let m = failure.message@;
            &&& e.kind == failure.kind
            &&& step == MappingStep::WriteSetgroups ==> e.message@
                == "writing /proc/self/setgroups failed: "@ + m
            &&& step == MappingStep::WriteUidMap ==> e.message@
                == "writing /proc/self/uid_map failed: "@ + m
            &&& step == MappingStep::WriteGidMap ==> e.message@
                == "writing /proc/self/gid_map failed: "@ + m
            &&& step == MappingStep::SetGroup ==> e.message@ == "setresgid(0,0,0) failed: "@ + m
            &&& step == MappingStep::SetUser ==> e.message@ == "setresuid(0,0,0) failed: "@ + m
        },
{
}

/// Every descriptor from three up to the limit is closed, but no more than a million of them; of a
/// list, every one above two is.
pub proof fn descriptors_are_closed(
    limit: Option<u64>,
    range: Vec<i32>,
    fds: &Vec<i32>,
    listed: Vec<i32>,
    fd: i32,
)
    requires
        call_ensures(descriptor_range, (limit,), range),
        call_ensures(descriptors_to_close, (fds,), listed),
    ensures
        range@.contains(fd) <==> 3 <= fd < 1024 * 1024 && (limit matches Some(n) ==> fd < n),
        listed@.contains(fd) <==> fds@.contains(fd) && fd > 2,
{
    if range@.contains(fd) {
        let i = choose|i: int| 0 <= i < range@.len() && range@[i] == fd;
        assert(range@[i] == i + 3);
    }
    if 3 <= fd < 1024 * 1024 && (limit matches Some(n) ==> fd < n) {
        assert(range@[fd - 3] == fd);
    }
    lemma_closed(fds@, fd);
}

proof fn lemma_closed(fds: Seq<i32>, fd: i32)
    ensures
        crate::linux::process::extra_descriptors(fds).contains(fd) <==> fds.contains(fd) && fd > 2,
    decreases fds.len(),
{
    if fds.len() > 0 {
        let f = fds.drop_last();
        let front = crate::linux::process::extra_descriptors(f);
        let all = crate::linux::process::extra_descriptors(fds);
        lemma_closed(f, fd);
        if all.contains(fd) {
            let i = choose|i: int| 0 <= i < all.len() && all[i] == fd;
            if i < front.len() {
                assert(front[i] == fd);
                let j = choose|j: int| 0 <= j < f.len() && f[j] == fd;
                assert(fds[j] == fd);
            } else {
                assert(fds[fds.len() - 1] == fd);
            }
        }
        if fds.contains(fd) && fd > 2 {
            let j = choose|j: int| 0 <= j < fds.len() && fds[j] == fd;
            if j < f.len() {
                assert(f[j] == fd);
                let i = choose|i: int| 0 <= i < front.len() && front[i] == fd;
                assert(all[i] == fd);
            } else {
                assert(all[all.len() - 1] == fd);
            }
        }
    }
}

/// Closing a descriptor that was not open is settled, and any other failure is not.
pub proof fn closed_descriptors_are_settled(raw: Option<i32>, errno: ErrnoTable, r: bool)
    requires
        call_ensures(close_is_settled, (raw, errno), r),
    ensures
        r <==> raw == Some(errno.ebadf),
{
}

/// Lines that are joined hold each of them.
pub proof fn lemma_joined_holds_line(lines: Seq<Seq<char>>, line: Seq<char>, sep: Seq<char>)
    requires
        lines.contains(line),
    ensures
        has_text(join(lines, sep), line),
    decreases lines.len(),
{
    let i = choose|i: int| 0 <= i < lines.len() && lines[i] == line;
    let all = join(lines, sep);
    if lines.len() == 1 {
        assert(all.subrange(0, line.len() as int) =~= line);
        assert(occurs_at(all, line, 0));
    } else if i == lines.len() - 1 {
        let at = all.len() - line.len();
        assert(all.subrange(at, at + line.len()) =~= line);
        assert(occurs_at(all, line, at));
    } else {
        let f = lines.drop_last();
        assert(f[i] == line);
        lemma_joined_holds_line(f, line, sep);
        let front = join(f, sep);
        let at = choose|at: int| occurs_at(front, line, at);
        assert(all.subrange(at, at + line.len()) =~= front.subrange(at, at + line.len()));
        assert(occurs_at(all, line, at));
    }
}

/// A profile is made exactly for the policies whose network has a shape, and holds for every rule
/// that denies a path the four lines that close it: to reading and to writing, itself and below.
pub proof fn profiles_close_every_denied_path(
    policy: &SandboxPolicy,
    r: Result<String, SandboxError>,
    i: int,
)
    requires
        call_ensures(build_sbpl_profile, (policy,), r),
    ensures
        r is Ok <==> coarse_shape(policy.network_policy) is Some,
        r matches Ok(text) ==> 0 <= i < policy.path_permissions@.len()
            && policy.path_permissions@[i].access == SandboxPathAccess::Deny ==> {
            let name = escaped(display_text(PathStyle::Unix, policy.path_permissions@[i].path@));
            &&& has_text(text@, "(deny file-read* (literal \""@ + name + "\"))"@)
            &&& has_text(text@, "(deny file-read* (subpath \""@ + name + "\"))"@)
            &&& has_text(text@, "(deny file-write* (literal \""@ + name + "\"))"@)
            &&& has_text(text@, "(deny file-write* (subpath \""@ + name + "\"))"@)
        },
{
    if r is Ok && 0 <= i < policy.path_permissions@.len() && policy.path_permissions@[i].access
        == SandboxPathAccess::Deny {
        let shape = coarse_shape(policy.network_policy)->0;
        let name = escaped(display_text(PathStyle::Unix, policy.path_permissions@[i].path@));
        let lines = profile_lines(policy@, shape);
        assert(policy@.path_permissions[i].path == policy.path_permissions@[i].path@);
        every_denied_path_is_closed(policy@, shape, i);
        lemma_joined_holds_line(lines, "(deny file-read* (literal \""@ + name + "\"))"@, "\n"@);
        lemma_joined_holds_line(lines, "(deny file-read* (subpath \""@ + name + "\"))"@, "\n"@);
        lemma_joined_holds_line(lines, "(deny file-write* (literal \""@ + name + "\"))"@, "\n"@);
        lemma_joined_holds_line(lines, "(deny file-write* (subpath \""@ + name + "\"))"@, "\n"@);
    }
}

/// A profile holds the lines that open every writable path below a read-only default, and those that
/// close every read-only path to writing below a writable one.
pub proof fn profiles_hold_every_exception(
    policy: &SandboxPolicy,
    r: Result<String, SandboxError>,
    i: int,
)
    requires
        call_ensures(build_sbpl_profile, (policy,), r),
        0 <= i < policy.path_permissions@.len(),
    ensures
        r matches Ok(text) ==> {
            let name = escaped(display_text(PathStyle::Unix, policy.path_permissions@[i].path@));
            let access = policy.path_permissions@[i].access;
            &&& access == SandboxPathAccess::ReadWrite && policy.default_access
                == SandboxDefaultAccess::ReadOnly ==> has_text(
                text@,
                "(allow file-write* (literal \""@ + name + "\"))"@,
            ) && has_text(text@, "(allow file-write* (subpath \""@ + name + "\"))"@)
            &&& access == SandboxPathAccess::ReadOnly && policy.default_access
                == SandboxDefaultAccess::ReadWrite ==> has_text(
                text@,
                "(deny file-write* (literal \""@ + name + "\"))"@,
            ) && has_text(text@, "(deny file-write* (subpath \""@ + name + "\"))"@)
        },
{
    if r is Ok {
        let shape = coarse_shape(policy.network_policy)->0;
        let name = escaped(display_text(PathStyle::Unix, policy.path_permissions@[i].path@));
        let lines = profile_lines(policy@, shape);
        assert(policy@.path_permissions[i].path == policy.path_permissions@[i].path@);
        every_exception_to_the_default_is_written(policy@, shape, i);
        let access = policy.path_permissions@[i].access;
        if access == SandboxPathAccess::ReadWrite && policy.default_access
            == SandboxDefaultAccess::ReadOnly {
            lemma_joined_holds_line(
                lines,
                "(allow file-write* (literal \""@ + name + "\"))"@,
                "\n"@,
            );
            lemma_joined_holds_line(
                lines,
                "(allow file-write* (subpath \""@ + name + "\"))"@,
                "\n"@,
            );
        }
        if access == SandboxPathAccess::ReadOnly && policy.default_access
            == SandboxDefaultAccess::ReadWrite {
            lemma_joined_holds_line(lines, "(deny file-write* (literal \""@ + name + "\"))"@, "\n"@);
            lemma_joined_holds_line(lines, "(deny file-write* (subpath \""@ + name + "\"))"@, "\n"@);
        }
    }
}

/// A run on macOS starts the sandbox program with the profile of its policy in front of the words of
/// its command, exactly where the program is there and the policy has a profile.
pub proof fn macos_runs_are_planned(
    command: &Vec<String>,
    policy: &SandboxPolicy,
    named: &Option<String>,
    is_file: bool,
    r: Result<Vec<String>, SandboxError>,
    profile: Result<String, SandboxError>,
)
    requires
        call_ensures(plan_macos_run, (command, policy, named, is_file), r),
        call_ensures(build_sbpl_profile, (policy,), profile),
    ensures
        r is Ok <==> is_file && profile is Ok,
        r matches Ok(argv) ==> {
            &&& argv@.len() == command@.len() + 4
            &&& argv@[1]@ == "-p"@ && argv@[2]@ == (profile->Ok_0)@ && argv@[3]@ == "--"@
            &&& forall|i: int|
                0 <= i < command@.len() ==> argv@[i + 4]@ == (#[trigger] command@[i])@
        },
{
    if r is Ok {
        let argv = r->Ok_0;
        let t = texts(argv@);
        assert(t.len() == argv@.len());
        assert(t[1] == argv@[1]@ && t[2] == argv@[2]@ && t[3] == argv@[3]@);
        assert forall|i: int| 0 <= i < command@.len() implies argv@[i + 4]@ == (
        #[trigger] command@[i])@ by {
            assert(t[i + 4] == argv@[i + 4]@);
            assert(texts(command@)[i] == command@[i]@);
        }
    }
}

/// A command that ended without an exit code is reported with -1, any other with its own code, and
/// one that was stopped at its limit with the code for that.
pub proof fn finished_commands_are_reported(
    code: Option<i32>,
    stdout: &[u8],
    stderr: &[u8],
    duration: core::time::Duration,
    timed_out: bool,
    r: SandboxExecOutput,
)
    requires
        call_ensures(finished_output, (code, stdout, stderr, duration, timed_out), r),
    ensures
        timed_out ==> r.exit_code == 124,
        !timed_out && code is Some ==> r.exit_code == code->0,
        !timed_out && code is None ==> r.exit_code == -1,
        r.timed_out == timed_out,
        r.duration == duration,
        r.aggregated_output@ == r.stdout@ + r.stderr@,
        r.degraded_mode_reason is None,
{
}

/// A pipe that is missing is named.
pub proof fn missing_pipes_are_named(out: IoFailure, err: IoFailure)
    requires
        call_ensures(missing_pipe, (true,), out),
        call_ensures(missing_pipe, (false,), err),
    ensures
        out.message@ == "child stdout pipe unavailable"@,
        err.message@ == "child stderr pipe unavailable"@,
{
}

/// What rules amount to: they are refused exactly where one asks for more than the default below a
/// path that another denies, and are else enforced on every path as they say.
pub proof fn rules_amount_to_what_they_say(
    style: PathStyle,
    default_access: SandboxDefaultAccess,
    rules: &Vec<SandboxPathPermission>,
    r: Result<Vec<SandboxPathPermission>, SandboxError>,
    q: Seq<u8>,
)
    requires
        call_ensures(overlay_rules, (style, default_access, rules), r),
        style == PathStyle::Unix || prefixes_agree(style, permission_views(rules@)),
    ensures
        ({
            let given = permission_views(rules@);
            let deny = SandboxPathAccess::Deny;
            let other = granted_access(default_access);
            &&& r is Err <==> exists|i: int, j: int| #[trigger]
                asks_below_a_denial(style, default_access, given, i, j)
            &&& r matches Err(e) ==> e@ is InvalidRequest
            &&& r matches Ok(out) ==> {
                let kept = permission_views(out@);
                &&& covers(style, kept, deny, q) <==> covers(style, given, deny, q)
                &&& !covers(style, given, deny, q) ==> (covers(style, kept, other, q) <==> covers(
                    style,
                    given,
                    other,
                    q,
                ))
            }
        }),
{
    let given = permission_views(rules@);
    rules_are_refused_exactly(style, default_access, given, rules_or_error(r));
    if r is Ok {
        every_rule_is_enforced(style, default_access, given, permission_views(r->Ok_0@), q);
    } else {
        let entries = choose|entries: Seq<crate::policy::PermissionView>| #[trigger]
            crate::overlay::overlay_result(
                style,
                default_access,
                given,
                entries,
                rules_or_error(r),
            );
        let (i, j) = choose|i: int, j: int| #[trigger]
            crate::overlay::is_first_reopening(style, entries, i, j) && r->Err_0@
                == crate::overlay::reopening_error(style, entries[i], entries[j]);
        assert(r->Err_0@ is InvalidRequest);
    }
}

/// A denial counts more than any other rule, and the access that is not the default's more than the
/// default's own; from what counts the access is found again.
pub proof fn denials_count_most(
    default_access: SandboxDefaultAccess,
    access: SandboxPathAccess,
    priority: u8,
    again: Option<SandboxPathAccess>,
)
    requires
        call_ensures(explicit_priority, (default_access, access), priority),
        call_ensures(access_for_priority, (default_access, priority), again),
    ensures
        priority == 2 <==> access == SandboxPathAccess::Deny,
        priority == 1 <==> access == granted_access(default_access),
        priority <= 2,
        priority > 0 ==> again == Some(access),
        priority == 0 ==> again is None,
{
}

/// The word for an access.
pub proof fn accesses_have_words(access: SandboxPathAccess, r: &'static str)
    requires
        call_ensures(path_access_label, (access,), r),
    ensures
        access == SandboxPathAccess::Deny ==> r@ == "deny"@,
        access == SandboxPathAccess::ReadOnly ==> r@ == "read_only"@,
        access == SandboxPathAccess::ReadWrite ==> r@ == "read_write"@,
{
}

/// A path in a directory is found to be below it, and the directory not to be below the path.
pub proof fn descendants_are_found(
    dir: &SandboxPath,
    path: &SandboxPath,
    name: Seq<u8>,
    down: bool,
    up: bool,
    itself: bool,
)
    requires
        call_ensures(is_same_or_descendant, (PathStyle::Unix, path, dir), down),
        call_ensures(is_same_or_descendant, (PathStyle::Unix, dir, path), up),
        call_ensures(is_same_or_descendant, (PathStyle::Unix, dir, dir), itself),
        dir@.len() > 0,
        is_unix_name(name),
        path@ == below(dir@, 0x2f, name),
    ensures
        down,
        !up,
        itself,
{
    directories_hold_what_is_below(dir@, name, name);
    crate::laws::every_path_is_below_itself(PathStyle::Unix, dir@);
}

/// Below a directory there is nothing whose first differing name is another one.
pub proof fn siblings_are_no_descendants(
    a: &SandboxPath,
    b: &SandboxPath,
    dir: Seq<u8>,
    x: Seq<u8>,
    y: Seq<u8>,
    r: bool,
)
    requires
        call_ensures(is_same_or_descendant, (PathStyle::Unix, a, b), r),
        dir.len() > 0,
        is_unix_name(x),
        is_unix_name(y),
        a@ == below(dir, 0x2f, x),
        b@ == below(dir, 0x2f, y),
    ensures
        r <==> x == y,
{
    directories_hold_what_is_below(dir, x, y);
}

/// Verbatim paths on a drive lose their prefix, and other paths that are not verbatim stay as they
/// are.
pub proof fn verbatim_prefixes_are_stripped(
    path: &SandboxPath,
    r: SandboxPath,
    letter: u8,
    names: Seq<Seq<u8>>,
)
    requires
        call_ensures(strip_windows_verbatim_prefix, (path,), r),
        is_letter(letter),
        names.len() > 0,
        forall|i: int| 0 <= i < names.len() ==> is_plain_windows_name(#[trigger] names[i]),
    ensures
        path@ == seq![0x5cu8, 0x5cu8, 0x3fu8, 0x5cu8, letter, 0x3au8, 0x5cu8] + join(
            names,
            seq![0x5cu8],
        ) ==> r@ == seq![upper_byte(letter), 0x3au8, 0x5cu8] + join(names, seq![0x5cu8]),
        !(path@.len() >= 4 && path@[0] == 0x5c && path@[1] == 0x5c && path@[2] == 0x3f && path@[3]
            == 0x5c) ==> r@ == path@,
{
    verbatim_drives_become_plain(letter, names);
}

/// A list without repetitions holds each key once, and every key of the list that it was made of.
pub proof fn repetitions_are_dropped(
    paths: &Vec<SandboxPath>,
    mode: PathKeyMode,
    r: Vec<SandboxPath>,
    i: int,
    j: int,
    k: int,
)
    requires
        call_ensures(dedupe_paths, (paths, mode), r),
    ensures
        0 <= i < j < r@.len() ==> text_key(mode, r@[i]@) != text_key(mode, r@[j]@),
        0 <= k < paths@.len() ==> exists|n: int|
            0 <= n < r@.len() && text_key(mode, (#[trigger] r@[n])@) == text_key(mode, paths@[k]@),
{
    let v = path_views(paths@);
    let w = path_views(r@);
    if 0 <= i < j < r@.len() {
        assert(w[i] == r@[i]@ && w[j] == r@[j]@);
        deduped_keys_are_distinct(mode, v, i, j);
    }
    if 0 <= k < paths@.len() {
        assert(v[k] == paths@[k]@);
        deduping_loses_no_key(mode, v, k);
        let n = choose|n: int|
            0 <= n < w.len() && text_key(mode, #[trigger] w[n]) == text_key(mode, v[k]);
        assert(w[n] == r@[n]@);
    }
}

/// A variable is found in an environment exactly where it is there, with its value.
pub proof fn variables_are_found(env: &EnvMap, key: &str, found: Option<String>, there: bool)
    requires
        call_ensures(EnvMap::get, (env, key), found),
        call_ensures(EnvMap::contains_key, (env, key), there),
    ensures
        found is Some <==> env@.contains_key(key@),
        there <==> env@.contains_key(key@),
        found matches Some(value) ==> value@ == env@[key@],
{
}

/// The entries of an environment are its variables, each once, in the order of their names.
pub proof fn entries_are_the_variables(
    env: &EnvMap,
    r: Vec<EnvEntry>,
    name: Seq<char>,
    i: int,
    j: int,
)
    requires
        call_ensures(EnvMap::entries, (env,), r),
    ensures
        0 <= i < j < r@.len() ==> dictionary_less(
            char_numbers(r@[i].key@),
            char_numbers(r@[j].key@),
        ),
        env@.contains_key(name) <==> exists|k: int|
            0 <= k < r@.len() && (#[trigger] r@[k]).key@ == name,
        forall|k: int|
            0 <= k < r@.len() && (#[trigger] r@[k]).key@ == name ==> r@[k].value@ == env@[name],
{
    let v = entry_views(r@);
    if 0 <= i < j < r@.len() {
        assert(v[i] == r@[i]@ && v[j] == r@[j]@);
    }
    lemma_map_of(v);
    if env@.contains_key(name) {
        let k = choose|k: int| 0 <= k < v.len() && (#[trigger] v[k]).0 == name;
        assert(v[k] == r@[k]@);
    }
    assert forall|k: int| 0 <= k < r@.len() && (#[trigger] r@[k]).key@ == name implies r@[k].value@
        == env@[name] && env@.contains_key(name) by {
        assert(v[k] == r@[k]@);
    }
}

/// A report of texts is one of those texts, and says why a run was degraded where it was.
pub proof fn reports_hold_their_texts(
    exit_code: i32,
    stdout: String,
    stderr: String,
    duration: core::time::Duration,
    timed_out: bool,
    r: SandboxExecOutput,
    reason: Option<String>,
    s: SandboxExecOutput,
)
    requires
        call_ensures(
            SandboxExecOutput::from_text_output,
            (exit_code, stdout, stderr, duration, timed_out),
            r,
        ),
        call_ensures(SandboxExecOutput::with_degraded_mode_reason, (r, reason), s),
    ensures
        r.stdout@ == stdout@ && r.stderr@ == stderr@,
        r.aggregated_output@ == stdout@ + stderr@,
        timed_out ==> r.exit_code == 124,
        !timed_out ==> r.exit_code == exit_code,
        s.degraded_mode_reason == reason,
        s.exit_code == r.exit_code && s.stdout == r.stdout && s.stderr == r.stderr && s.timed_out
            == r.timed_out && s.duration == r.duration && s.aggregated_output
            == r.aggregated_output,
{
}

/// The message of an error says what sort it is of, and ends with what went wrong.
pub proof fn messages_say_what_went_wrong(error: &SandboxError, r: String)
    requires
        call_ensures(SandboxError::message, (error,), r),
    ensures
        match error@ {
            ErrorView::InvalidRequest(m) => r@ == "invalid sandbox request: "@ + m,
            ErrorView::Denied(m) => r@ == "sandbox denied execution: "@ + m,
            ErrorView::AuditFailed(m) => r@ == "sandbox audit failed: "@ + m,
            ErrorView::Unavailable(m) => r@ == "sandbox is unavailable on this platform: "@ + m,
            ErrorView::Windows(m) => r@ == "windows sandbox error: "@ + m,
            ErrorView::Io(_, _, m) => r@ == "io error: "@ + m,
        },
{
}

/// Everything can be written exactly where the default says so, and the network is open exactly in
/// the shapes that have one.
pub proof fn defaults_are_told(
    policy: &SandboxPolicy,
    writable: bool,
    shape: SandboxCoarseNetworkPolicy,
    network: bool,
    exempt: bool,
)
    requires
        call_ensures(SandboxPolicy::default_write_access, (policy,), writable),
        call_ensures(SandboxCoarseNetworkPolicy::allows_ip_network, (shape,), network),
        call_ensures(SandboxCoarseNetworkPolicy::allows_loopback_exemption, (shape,), exempt),
    ensures
        writable <==> policy.default_access == SandboxDefaultAccess::ReadWrite,
        network <==> shape != SandboxCoarseNetworkPolicy::Disabled,
        exempt <==> shape != SandboxCoarseNetworkPolicy::Disabled,
{
}

/// A rule that is made for a path has that path, and the access that it is named after.
pub proof fn rules_are_made_as_named(
    path: SandboxPath,
    deny: SandboxPathPermission,
    read_only: SandboxPathPermission,
    read_write: SandboxPathPermission,
)
    requires
        call_ensures(SandboxPathPermission::deny::<SandboxPath>, (path,), deny),
        call_ensures(SandboxPathPermission::read_only::<SandboxPath>, (path,), read_only),
        call_ensures(SandboxPathPermission::read_write::<SandboxPath>, (path,), read_write),
    ensures
        deny.path@ == path@ && deny.access == SandboxPathAccess::Deny,
        read_only.path@ == path@ && read_only.access == SandboxPathAccess::ReadOnly,
        read_write.path@ == path@ && read_write.access == SandboxPathAccess::ReadWrite,
{
}

/// Pruning drops only what another entry with the same access covers, and leaves nothing that an
/// earlier one covers.
pub proof fn only_covered_entries_are_pruned(
    style: PathStyle,
    entries: &Vec<SandboxPathPermission>,
    out: Vec<SandboxPathPermission>,
    k: int,
)
    requires
        call_ensures(prune_same_access_descendants, (style, entries), out),
        0 <= k < entries@.len(),
    ensures
        exists|i: int|
            0 <= i < out@.len() && (#[trigger] out@[i]).access == entries@[k].access && is_below(
                style,
                entries@[k].path@,
                out@[i].path@,
            ),
        out@.len() <= entries@.len(),
{
    let e = permission_views(entries@);
    let o = permission_views(out@);
    assert(e[k] == entries@[k]@);
    pruning_covers_what_it_drops(style, e, k);
    lemma_pruned_is_not_longer(style, e);
    let i = choose|i: int|
        0 <= i < o.len() && (#[trigger] o[i]).access == e[k].access && is_below(
            style,
            e[k].path,
            o[i].path,
        );
    assert(o[i] == out@[i]@);
}

proof fn lemma_pruned_is_not_longer(style: PathStyle, e: Seq<PermissionView>)
    ensures
        crate::overlay::pruned(style, e).len() <= e.len(),
    decreases e.len(),
{
    if e.len() > 0 {
        lemma_pruned_is_not_longer(style, e.drop_last());
    }
}

/// Entries are refused exactly where one that does not deny lies below another one that does.
pub proof fn reopened_entries_are_refused(
    style: PathStyle,
    entries: &Vec<SandboxPathPermission>,
    r: Result<(), SandboxError>,
)
    requires
        call_ensures(reject_reopened_descendants_under_deny, (style, entries), r),
    ensures
        r is Err <==> exists|i: int, j: int|
            0 <= i < entries@.len() && 0 <= j < entries@.len() && (#[trigger] entries@[i]).access
                != SandboxPathAccess::Deny && (#[trigger] entries@[j]).access
                == SandboxPathAccess::Deny && path_key(style, entries@[i].path@) != path_key(
                style,
                entries@[j].path@,
            ) && is_below(style, entries@[i].path@, entries@[j].path@),
        r matches Err(e) ==> e@ is InvalidRequest,
{
    let v = permission_views(entries@);
    assert forall|i: int| 0 <= i < v.len() implies v[i] == (#[trigger] entries@[i])@ by {}
    if r is Err {
        let (i, j) = choose|i: int, j: int| #[trigger]
            is_first_reopening(style, v, i, j) && r->Err_0@ == reopening_error(style, v[i], v[j]);
        assert(reopens(style, v, i, j));
        assert(entries@[i].access != SandboxPathAccess::Deny);
        assert(entries@[j].access == SandboxPathAccess::Deny);
    }
    if exists|i: int, j: int|
        0 <= i < entries@.len() && 0 <= j < entries@.len() && (#[trigger] entries@[i]).access
            != SandboxPathAccess::Deny && (#[trigger] entries@[j]).access
            == SandboxPathAccess::Deny && path_key(style, entries@[i].path@) != path_key(
            style,
            entries@[j].path@,
        ) && is_below(style, entries@[i].path@, entries@[j].path@) {
        let (i, j) = choose|i: int, j: int|
            0 <= i < entries@.len() && 0 <= j < entries@.len() && (#[trigger] entries@[i]).access
                != SandboxPathAccess::Deny && (#[trigger] entries@[j]).access
                == SandboxPathAccess::Deny && path_key(style, entries@[i].path@) != path_key(
                style,
                entries@[j].path@,
            ) && is_below(style, entries@[i].path@, entries@[j].path@);
        assert(reopens(style, v, i, j));
    }
}

/// Collapsed rules hold one entry for each path that is denied or given the other access, with
/// denial before that access; rules that repeat the default leave none.
pub proof fn rules_collapse_by_path(
    style: PathStyle,
    default_access: SandboxDefaultAccess,
    rules: &Vec<SandboxPathPermission>,
    out: Vec<SandboxPathPermission>,
    i: int,
)
    requires
        call_ensures(collapse_rules, (style, default_access, rules), out),
        0 <= i < rules@.len(),
    ensures
        rules@[i].access == SandboxPathAccess::Deny ==> exists|k: int|
            0 <= k < out@.len() && (#[trigger] out@[k]).access == SandboxPathAccess::Deny
                && path_key(style, out@[k].path@) == path_key(style, rules@[i].path@),
        rules@[i].access == granted_access(default_access) ==> exists|k: int|
            0 <= k < out@.len() && path_key(style, (#[trigger] out@[k]).path@) == path_key(
                style,
                rules@[i].path@,
            ),
        forall|k: int|
            0 <= k < out@.len() ==> (#[trigger] out@[k]).access == SandboxPathAccess::Deny
                || out@[k].access == granted_access(default_access),
{
    let given = permission_views(rules@);
    let entries = permission_views(out@);
    assert(given[i] == rules@[i]@);
    assert forall|k: int| 0 <= k < out@.len() implies (#[trigger] out@[k]).access
        == SandboxPathAccess::Deny || out@[k].access == granted_access(default_access) by {
        assert(entries[k] == out@[k]@);
        lemma_rule_of_entry(style, default_access, given, entries, k);
    }
    let key = path_key(style, given[i].path);
    crate::overlay::lemma_first_rule_exists(style, given, i);
    let f = choose|f: int| #[trigger]
        crate::overlay::is_first_rule(style, given, f) && f <= i && path_key(style, given[f].path)
            == path_key(style, given[i].path);
    if rules@[i].access == SandboxPathAccess::Deny {
        assert(crate::overlay::grants(style, given, key, SandboxPathAccess::Deny));
        assert(rules_give(style, default_access, given, f, SandboxPathAccess::Deny));
        lemma_entry_of_rule(style, default_access, given, entries, f, SandboxPathAccess::Deny);
        let k = choose|k: int|
            0 <= k < entries.len() && #[trigger] entries[k] == (PermissionView {
                path: given[f].path,
                access: SandboxPathAccess::Deny,
            });
        assert(entries[k] == out@[k]@);
    }
    if rules@[i].access == granted_access(default_access) {
        let access = if crate::overlay::grants(style, given, key, SandboxPathAccess::Deny) {
            SandboxPathAccess::Deny
        } else {
            granted_access(default_access)
        };
        assert(crate::overlay::grants(style, given, key, granted_access(default_access)));
        assert(rules_give(style, default_access, given, f, access));
        lemma_entry_of_rule(style, default_access, given, entries, f, access);
        let k = choose|k: int|
            0 <= k < entries.len() && #[trigger] entries[k] == (PermissionView {
                path: given[f].path,
                access,
            });
        assert(entries[k] == out@[k]@);
    }
}

/// A path is quoted for a profile between quotation marks, and what stands between them is read back
/// as what the path shows.
pub proof fn profile_paths_are_read_back(path: &SandboxPath, r: String)
    requires
        call_ensures(quote_sbpl_string, (path,), r),
    ensures
        r@.len() >= 2 && r@[0] == '"' && r@.last() == '"',
        unescaped(r@.subrange(1, r@.len() - 1)) == display_text(PathStyle::Unix, path@),
{
    let name = display_text(PathStyle::Unix, path@);
    assert(r@.subrange(1, r@.len() - 1) =~= escaped(name));
    escaping_can_be_undone(name);
}

/// The sandbox program is the one that is named, unless its name is blank.
pub proof fn sandbox_programs_can_be_named(named: &Option<String>, r: String)
    requires
        call_ensures(sandbox_exec_path, (named,), r),
    ensures
        named matches Some(path) ==> (!is_blank(path@) ==> r@ == path@) && (is_blank(path@) ==> r@
            == "/usr/bin/sandbox-exec"@),
        named is None ==> r@ == "/usr/bin/sandbox-exec"@,
{
}

/// Paths are the same exactly where their components are, for one style.
pub proof fn same_paths_have_the_same_key(
    style: PathStyle,
    a: &SandboxPath,
    b: &SandboxPath,
    r: bool,
    itself: bool,
)
    requires
        call_ensures(same_path, (style, a, b), r),
        call_ensures(same_path, (style, a, a), itself),
    ensures
        itself,
        r ==> components(style, a@).len() == components(style, b@).len(),
        components(style, a@) == components(style, b@) ==> r,
{
    if r {
        same_key_means_same_components(style, a@, b@);
    }
}

/// The style of paths goes with the separator of the host.
pub proof fn backslashes_mean_windows(separator: char, r: PathStyle)
    requires
        call_ensures(style_with_separator, (separator,), r),
    ensures
        r == PathStyle::Windows <==> separator == '\\',
        r == PathStyle::Unix <==> separator != '\\',
{
}

/// A policy for paths counts their case or does not, and drops repetitions by that.
pub proof fn path_policies_drop_repetitions(
    exact: PathPolicy,
    insensitive: PathPolicy,
    paths: Vec<SandboxPath>,
    r: Vec<SandboxPath>,
    i: int,
    j: int,
)
    requires
        call_ensures(PathPolicy::exact, (), exact),
        call_ensures(PathPolicy::ascii_case_insensitive, (), insensitive),
        call_ensures(PathPolicy::normalize_paths, (insensitive, paths), r),
        0 <= i < j < r@.len(),
    ensures
        exact.key_mode == PathKeyMode::Exact,
        text_key(PathKeyMode::AsciiCaseInsensitive, r@[i]@) != text_key(
            PathKeyMode::AsciiCaseInsensitive,
            r@[j]@,
        ),
{
    let v = path_views(paths@);
    let w = path_views(r@);
    assert(w[i] == r@[i]@ && w[j] == r@[j]@);
    deduped_keys_are_distinct(PathKeyMode::AsciiCaseInsensitive, v, i, j);
}

/// A failure within something keeps its sort, and its message stands behind what it happened in.
pub proof fn failures_keep_their_sort(failure: &IoFailure, context: &str, r: IoFailure)
    requires
        call_ensures(IoFailure::within, (failure, context), r),
    ensures
        r.kind == failure.kind,
        r.message@ == context@ + failure.message@,
        r.raw_os_error is None,
{
}

} // verus!
