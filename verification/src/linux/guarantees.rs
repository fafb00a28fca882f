//! What callers can rely on of the operations for Linux themselves.
use vstd::prelude::*;

use crate::error::{IoFailure, IoFailureKind, SandboxError};
use crate::guarantees::{lemma_lists_path, lists_path};
use crate::linux::filter::{
    are_distinct, compile_network_filter, denial_views, filters_follow_the_permissions, is_denied,
    network_filter, only_full_permission_needs_no_filter, DeniedSyscall, FamilyTable, SyscallTable,
};
use crate::linux::mounts::{
    file_rule_views, file_rules_open_exactly_the_roots, read_only_ruleset, FileRuleset,
};
use crate::linux::namespace::{report_failure, NamespaceStep};
use crate::linux::overlays::{
    collect_deny_overlay_entries, collect_readwrite_overlay_entries, deeper_paths_are_mounted_first,
    denial_wins_over_read_only, has_overlay, lexically_normalize_path, missing_targets_are_refused,
    names_path, normalize_existing_overlay_paths, normalized_paths_are_plain,
    only_denied_paths_are_covered, overlay_probe_views, overlay_views, OverlayProbe, OverlayView,
    ReadWriteOverlayEntry, ReadWriteOverlayKind,
};
use crate::linux::plan::{
    every_denied_path_is_covered, every_read_only_path_is_covered, plan_linux_run,
    plans_need_their_targets, rule_paths, writable_rules_are_opened, LinuxNumbers, LinuxPlan,
};
use crate::linux::process::{descriptor_of_name, ErrnoTable};
use crate::path::{components, path_key, path_views, PathStyle, SandboxPath};
use crate::policy::{
    SandboxDefaultAccess, SandboxNetworkPolicy, SandboxPathAccess, SandboxPolicy,
};

verus! {

/// A filter denies exactly what the policy does not allow, and only a policy that allows everything
/// goes without one.
pub proof fn filters_deny_what_is_not_allowed(
    policy: SandboxNetworkPolicy,
    calls: SyscallTable,
    families: FamilyTable,
    r: Option<Vec<DeniedSyscall>>,
    args: Seq<u64>,
)
    requires
        call_ensures(network_filter, (policy, calls, families), r),
        are_distinct(calls),
    ensures
        r is None <==> policy.allow_unix && policy.allow_ipv4 && policy.allow_ipv6
            && policy.allow_connect && policy.allow_bind && policy.allow_listen
            && policy.allow_accept,
        r matches Some(v) ==> {
            let denies = |number: u32| is_denied(denial_views(v@), number, args);
            &&& denies(calls.connect) <==> !policy.allow_connect
            &&& denies(calls.bind) <==> !policy.allow_bind
            &&& denies(calls.listen) <==> !policy.allow_listen
            &&& denies(calls.accept) <==> !policy.allow_accept
            &&& denies(calls.accept4) <==> !policy.allow_accept
            &&& denies(calls.socket) <==> !(policy.allow_unix && args[0] == families.unix) && !(
            policy.allow_ipv4 && args[0] == families.inet) && !(policy.allow_ipv6 && args[0]
                == families.inet6)
            &&& denies(calls.socketpair) <==> denies(calls.socket)
            &&& denies(calls.sendto) <==> !policy.allow_ipv4 && !policy.allow_ipv6
                && !policy.allow_connect && !policy.allow_bind && !policy.allow_listen
                && !policy.allow_accept
            &&& denies(calls.ptrace) <==> denies(calls.sendto)
            &&& denies(calls.recvmsg) <==> denies(calls.sendto)
            &&& denies(calls.sendmsg) <==> denies(calls.sendto)
        },
{
    only_full_permission_needs_no_filter(policy, calls, families);
    filters_follow_the_permissions(policy, calls, families, calls.connect, args);
    filters_follow_the_permissions(policy, calls, families, calls.bind, args);
    filters_follow_the_permissions(policy, calls, families, calls.listen, args);
    filters_follow_the_permissions(policy, calls, families, calls.accept, args);
    filters_follow_the_permissions(policy, calls, families, calls.accept4, args);
    filters_follow_the_permissions(policy, calls, families, calls.socket, args);
    filters_follow_the_permissions(policy, calls, families, calls.socketpair, args);
    filters_follow_the_permissions(policy, calls, families, calls.sendto, args);
    filters_follow_the_permissions(policy, calls, families, calls.ptrace, args);
    filters_follow_the_permissions(policy, calls, families, calls.recvmsg, args);
    filters_follow_the_permissions(policy, calls, families, calls.sendmsg, args);
    let all = crate::linux::filter::all_calls(calls);
    assert(all[0] == calls.connect);
    assert(all[1] == calls.accept);
    assert(all[2] == calls.accept4);
    assert(all[3] == calls.bind);
    assert(all[4] == calls.listen);
    assert(all[5] == calls.socket);
    assert(all[6] == calls.socketpair);
    assert(all[7] == calls.getpeername);
    assert(all[8] == calls.getsockname);
    assert(all[9] == calls.shutdown);
    assert(all[10] == calls.sendto);
    assert(all[11] == calls.sendmsg);
    assert(all[12] == calls.sendmmsg);
    assert(all[13] == calls.recvmsg);
    assert(all[14] == calls.recvmmsg);
    assert(all[15] == calls.getsockopt);
    assert(all[16] == calls.setsockopt);
    assert(all[17] == calls.ptrace);
}

/// A filter can be had where none is needed or on the architectures that it is made for, and on no
/// other.
pub proof fn filters_need_an_architecture(
    policy: SandboxNetworkPolicy,
    calls: SyscallTable,
    families: FamilyTable,
    errno: u32,
    arch: &str,
    r: Result<Option<Vec<(u16, u8, u8, u32)>>, IoFailure>,
)
    requires
        call_ensures(compile_network_filter, (policy, calls, families, errno, arch), r),
    ensures
        ({
            let open = policy.allow_unix && policy.allow_ipv4 && policy.allow_ipv6
                && policy.allow_connect && policy.allow_bind && policy.allow_listen
                && policy.allow_accept;
            let known = arch@ == "x86_64"@ || arch@ == "aarch64"@;
            &&& r is Ok <==> open || known
            &&& r matches Ok(f) ==> (f is None <==> open)
            &&& r matches Err(e) ==> e.kind == IoFailureKind::Unsupported && e.message@
                == "unsupported architecture for seccomp sandbox"@
        }),
{
    only_full_permission_needs_no_filter(policy, calls, families);
}

/// The file rules below a read-only default let everything be read, and only the null device and
/// the given roots be written.
pub proof fn rulesets_open_exactly_the_roots(
    roots: &Vec<SandboxPath>,
    r: FileRuleset,
    path: Seq<u8>,
    rights: u64,
)
    requires
        call_ensures(read_only_ruleset, (roots,), r),
    ensures
        r.handled == 0xffff,
        (exists|k: int|
            0 <= k < r.rules@.len() && (#[trigger] r.rules@[k]).path@ == path && r.rules@[k].rights
                == rights) <==> {
            ||| path == vstd::utf8::encode_utf8("/"@) && rights == 1 + 4 + 8
            ||| path == vstd::utf8::encode_utf8("/dev/null"@) && rights == 0xffff
            ||| lists_path(roots@, path) && rights == 0xffff
        },
{
    let v = file_rule_views(r.rules@);
    lemma_lists_path(roots@, path);
    file_rules_open_exactly_the_roots(path_views(roots@), path, rights);
    if v.contains((path, rights)) {
        let k = choose|k: int| 0 <= k < v.len() && v[k] == (path, rights);
        assert(v[k] == r.rules@[k]@);
    }
    if exists|k: int|
        0 <= k < r.rules@.len() && (#[trigger] r.rules@[k]).path@ == path && r.rules@[k].rights
            == rights {
        let k = choose|k: int|
            0 <= k < r.rules@.len() && (#[trigger] r.rules@[k]).path@ == path && r.rules@[k].rights
                == rights;
        assert(v[k] == (path, rights));
    }
}

/// A list of overlays covers a path, as its key says.
pub open spec fn covers_as(
    overlays: Seq<ReadWriteOverlayEntry>,
    path: Seq<u8>,
    kind: ReadWriteOverlayKind,
) -> bool {
    exists|k: int|
        0 <= k < overlays.len() && (#[trigger] overlays[k]).kind == kind && path_key(
            PathStyle::Unix,
            overlays[k].path@,
        ) == path_key(PathStyle::Unix, path)
}

/// A list of paths names a path, as its key says.
pub open spec fn names(paths: Seq<SandboxPath>, path: Seq<u8>) -> bool {
    exists|k: int|
        0 <= k < paths.len() && path_key(PathStyle::Unix, (#[trigger] paths[k])@) == path_key(
            PathStyle::Unix,
            path,
        )
}

proof fn lemma_covers_as(
    overlays: Seq<ReadWriteOverlayEntry>,
    path: Seq<u8>,
    kind: ReadWriteOverlayKind,
)
    ensures
        covers_as(overlays, path, kind) <==> has_overlay(overlay_views(overlays), path, kind),
{
    let v = overlay_views(overlays);
    if covers_as(overlays, path, kind) {
        let k = choose|k: int|
            0 <= k < overlays.len() && (#[trigger] overlays[k]).kind == kind && path_key(
                PathStyle::Unix,
                overlays[k].path@,
            ) == path_key(PathStyle::Unix, path);
        assert(v[k] == overlays[k]@);
    }
    if has_overlay(v, path, kind) {
        let k = choose|k: int|
            0 <= k < v.len() && path_key(PathStyle::Unix, (#[trigger] v[k]).path) == path_key(
                PathStyle::Unix,
                path,
            ) && v[k].kind == kind;
        assert(v[k] == overlays[k]@);
    }
}

proof fn lemma_names(paths: Seq<SandboxPath>, path: Seq<u8>)
    ensures
        names(paths, path) <==> names_path(path_views(paths), path),
{
    let v = path_views(paths);
    if names(paths, path) {
        let k = choose|k: int|
            0 <= k < paths.len() && path_key(PathStyle::Unix, (#[trigger] paths[k])@) == path_key(
                PathStyle::Unix,
                path,
            );
        assert(v[k] == paths[k]@);
    }
    if names_path(v, path) {
        let k = choose|k: int|
            0 <= k < v.len() && path_key(PathStyle::Unix, #[trigger] v[k]) == path_key(
                PathStyle::Unix,
                path,
            );
        assert(v[k] == paths[k]@);
    }
}

/// Below a writable default the denied paths are denied, the other read-only paths are made
/// read-only, nothing else is covered, and what lies deeper is mounted first.
pub proof fn overlays_cover_the_listed_paths(
    read_only: &Vec<SandboxPath>,
    denied: &Vec<SandboxPath>,
    r: Vec<ReadWriteOverlayEntry>,
    path: Seq<u8>,
    i: int,
    j: int,
)
    requires
        call_ensures(collect_readwrite_overlay_entries, (read_only, denied), r),
    ensures
        covers_as(r@, path, ReadWriteOverlayKind::Deny) <==> names(denied@, path),
        covers_as(r@, path, ReadWriteOverlayKind::ReadOnly) <==> names(read_only@, path) && !names(
            denied@,
            path,
        ),
        0 <= i < j < r@.len() ==> components(PathStyle::Unix, r@[i].path@).len() >= components(
            PathStyle::Unix,
            r@[j].path@,
        ).len(),
{
    lemma_covers_as(r@, path, ReadWriteOverlayKind::Deny);
    lemma_covers_as(r@, path, ReadWriteOverlayKind::ReadOnly);
    lemma_names(denied@, path);
    lemma_names(read_only@, path);
    denial_wins_over_read_only(path_views(read_only@), path_views(denied@), path);
    if 0 <= i < j < r@.len() {
        let none = Seq::<OverlayView>::empty();
        let all = crate::linux::overlays::with_kinds(
            crate::linux::overlays::with_kinds(
                none,
                path_views(read_only@),
                ReadWriteOverlayKind::ReadOnly,
            ),
            path_views(denied@),
            ReadWriteOverlayKind::Deny,
        );
        let v = overlay_views(r@);
        assert(v[i] == r@[i]@ && v[j] == r@[j]@);
        deeper_paths_are_mounted_first(all, i, j);
    }
}

/// Below a read-only default the denied paths are denied, and nothing else is covered.
pub proof fn denials_cover_the_denied_paths(
    denied: &Vec<SandboxPath>,
    r: Vec<ReadWriteOverlayEntry>,
    path: Seq<u8>,
)
    requires
        call_ensures(collect_deny_overlay_entries, (denied,), r),
    ensures
        covers_as(r@, path, ReadWriteOverlayKind::Deny) <==> names(denied@, path),
        !covers_as(r@, path, ReadWriteOverlayKind::ReadOnly),
{
    lemma_covers_as(r@, path, ReadWriteOverlayKind::Deny);
    lemma_covers_as(r@, path, ReadWriteOverlayKind::ReadOnly);
    lemma_names(denied@, path);
    only_denied_paths_are_covered(path_views(denied@), path);
}

/// Overlay targets are accepted exactly where all of them exist, and are then what was resolved for
/// them.
pub proof fn targets_have_to_exist(
    paths: &Vec<SandboxPath>,
    label: &str,
    context: &str,
    probes: &Vec<OverlayProbe>,
    r: Result<Vec<SandboxPath>, SandboxError>,
)
    requires
        call_ensures(normalize_existing_overlay_paths, (paths, label, context, probes), r),
        paths.len() == probes.len(),
    ensures
        r is Ok <==> forall|i: int| 0 <= i < probes@.len() ==> (#[trigger] probes@[i]).exists,
        r matches Ok(targets) ==> targets@.len() == probes@.len() && forall|i: int|
            0 <= i < probes@.len() ==> targets@[i]@ == (#[trigger] probes@[i]).resolved@,
        r matches Err(e) ==> e@ is InvalidRequest,
{
    let v = overlay_probe_views(probes@);
    missing_targets_are_refused(path_views(paths@), label@, context@, v);
    assert forall|i: int| 0 <= i < probes@.len() implies v[i] == ((
    #[trigger] probes@[i]).resolved@, probes@[i].exists) by {}
    if r is Ok {
        let t = path_views(r->Ok_0@);
        assert(t.len() == r->Ok_0@.len());
        assert forall|i: int| 0 <= i < probes@.len() implies r->Ok_0@[i]@ == (
        #[trigger] probes@[i]).resolved@ by {
            assert(t[i] == v[i].0);
        }
        assert forall|i: int| 0 <= i < probes@.len() implies (#[trigger] probes@[i]).exists by {
            assert(v[i].1);
        }
    } else {
        let i = choose|i: int| 0 <= i < v.len() && !(#[trigger] v[i]).1;
        assert(!probes@[i].exists);
    }
}

/// A run on Linux is planned exactly where every path that it has to cover exists. Every denied path
/// is then covered by a denial; below a writable default every read-only path is covered, and below
/// a read-only one every writable rule is opened. Without every network permission the run is
/// filtered or fails.
pub proof fn linux_runs_are_planned(
    policy: &SandboxPolicy,
    read_only: &Vec<OverlayProbe>,
    denied: &Vec<OverlayProbe>,
    numbers: &LinuxNumbers,
    r: Result<LinuxPlan, SandboxError>,
    i: int,
)
    requires
        call_ensures(plan_linux_run, (policy, read_only, denied, numbers), r),
        read_only.len() == rule_paths(
            policy@.path_permissions,
            SandboxPathAccess::ReadOnly,
        ).len(),
        denied.len() == rule_paths(policy@.path_permissions, SandboxPathAccess::Deny).len(),
    ensures
        r is Ok <==> (forall|k: int| 0 <= k < denied@.len() ==> (#[trigger] denied@[k]).exists) && (
        policy.default_access == SandboxDefaultAccess::ReadWrite ==> forall|k: int|
            0 <= k < read_only@.len() ==> (#[trigger] read_only@[k]).exists),
        r matches Ok(plan) ==> {
            &&& 0 <= i < denied@.len() ==> covers_as(
                plan.overlays@,
                denied@[i].resolved@,
                ReadWriteOverlayKind::Deny,
            )
            &&& policy.default_access == SandboxDefaultAccess::ReadWrite && 0 <= i < read_only@.len()
                ==> covers_as(
                plan.overlays@,
                read_only@[i].resolved@,
                ReadWriteOverlayKind::Deny,
            ) || covers_as(
                plan.overlays@,
                read_only@[i].resolved@,
                ReadWriteOverlayKind::ReadOnly,
            )
            &&& plan.file_rules is Some <==> policy.default_access == SandboxDefaultAccess::ReadOnly
            &&& policy.default_access == SandboxDefaultAccess::ReadOnly && 0 <= i
                < policy.path_permissions@.len() && policy.path_permissions@[i].access
                == SandboxPathAccess::ReadWrite ==> exists|k: int|
                0 <= k < plan.file_rules->0.rules@.len() && (
                #[trigger] plan.file_rules->0.rules@[k]).path@ == policy.path_permissions@[i].path@
                    && plan.file_rules->0.rules@[k].rights == 0xffff
            &&& (plan.filter is Ok && plan.filter->Ok_0 is None) <==> policy.network_policy.allow_unix
                && policy.network_policy.allow_ipv4 && policy.network_policy.allow_ipv6
                && policy.network_policy.allow_connect && policy.network_policy.allow_bind
                && policy.network_policy.allow_listen && policy.network_policy.allow_accept
        },
{
    let ro = overlay_probe_views(read_only@);
    let d = overlay_probe_views(denied@);
    plans_need_their_targets(policy@, ro, d);
    only_full_permission_needs_no_filter(
        policy@.network_policy,
        numbers.calls,
        numbers.families,
    );
    assert forall|k: int| 0 <= k < denied@.len() implies d[k] == ((
    #[trigger] denied@[k]).resolved@, denied@[k].exists) by {}
    assert forall|k: int| 0 <= k < read_only@.len() implies ro[k] == ((
    #[trigger] read_only@[k]).resolved@, read_only@[k].exists) by {}
    if forall|k: int| 0 <= k < denied@.len() ==> (#[trigger] denied@[k]).exists {
        assert forall|k: int| 0 <= k < d.len() implies (#[trigger] d[k]).1 by {
            assert(denied@[k].exists);
        }
    }
    if forall|k: int| 0 <= k < read_only@.len() ==> (#[trigger] read_only@[k]).exists {
        assert forall|k: int| 0 <= k < ro.len() implies (#[trigger] ro[k]).1 by {
            assert(read_only@[k].exists);
        }
    }
    if r is Ok {
        let plan = r->Ok_0;
        let overlays = overlay_views(plan.overlays@);
        assert forall|k: int| 0 <= k < denied@.len() implies (#[trigger] denied@[k]).exists by {
            assert(d[k].1);
        }
        if policy.default_access == SandboxDefaultAccess::ReadWrite {
            assert forall|k: int| 0 <= k < read_only@.len() implies (
            #[trigger] read_only@[k]).exists by {
                assert(ro[k].1);
            }
        }
        if 0 <= i < denied@.len() {
            every_denied_path_is_covered(policy@, ro, d, overlays, i);
            lemma_covers_as(plan.overlays@, denied@[i].resolved@, ReadWriteOverlayKind::Deny);
        }
        if policy.default_access == SandboxDefaultAccess::ReadWrite && 0 <= i < read_only@.len() {
            every_read_only_path_is_covered(policy@, ro, d, overlays, i);
            lemma_covers_as(plan.overlays@, read_only@[i].resolved@, ReadWriteOverlayKind::Deny);
            lemma_covers_as(plan.overlays@, read_only@[i].resolved@, ReadWriteOverlayKind::ReadOnly);
        }
        if policy.default_access == SandboxDefaultAccess::ReadOnly && 0 <= i
            < policy.path_permissions@.len() && policy.path_permissions@[i].access
            == SandboxPathAccess::ReadWrite {
            assert(policy@.path_permissions[i] == policy.path_permissions@[i]@);
            writable_rules_are_opened(policy@, plan.file_rules->0, i);
        }
    }
}

/// A path whose dots are worked out holds none, and stays as it is where they are worked out again.
pub proof fn normalized_paths_stay(path: &SandboxPath, r: SandboxPath, s: SandboxPath)
    requires
        call_ensures(lexically_normalize_path, (path,), r),
        call_ensures(lexically_normalize_path, (&r,), s),
    ensures
        s@ == r@,
        forall|k: int|
            0 <= k < components(PathStyle::Unix, r@).len() ==> (#[trigger] components(
                PathStyle::Unix,
                r@,
            )[k]) is Normal || (k == 0 && components(PathStyle::Unix, r@)[k] is RootDir),
{
    normalized_paths_are_plain(path@);
}

/// A failure is reported as one of the sandbox where mounts were asked for and the system does not
/// offer them, and else as it is.
pub proof fn failures_are_reported(
    with_mounts: bool,
    error: SandboxError,
    errno: ErrnoTable,
    r: SandboxError,
)
    requires
        call_ensures(report_failure, (with_mounts, error, errno), r),
    ensures
        !with_mounts ==> r@ == error@,
        !(error is Io) ==> r@ == error@,
        with_mounts ==> (error matches SandboxError::Io(f) ==> (r@ is Unavailable <==> f.kind
            == IoFailureKind::PermissionDenied || f.kind == IoFailureKind::Unsupported
            || f.raw_os_error == Some(errno.eperm) || f.raw_os_error == Some(errno.eopnotsupp)
            || f.raw_os_error == Some(errno.einval) || f.raw_os_error == Some(errno.enosys))),
{
}

/// A namespace is had in the end only behind a mount tree that was made private, and a step that
/// succeeds never fails the attempt.
pub proof fn namespaces_end_private(
    step: NamespaceStep,
    report: Result<(), IoFailure>,
    errno: ErrnoTable,
    r: NamespaceStep,
)
    requires
        call_ensures(NamespaceStep::next, (step, report, errno), r),
        !(step is Done) && !(step is Failed),
    ensures
        r is Done <==> step is MakePrivate && report is Ok,
        report is Ok ==> !(r is Failed),
        r is UnshareUser <==> step is UnshareBoth && (report matches Err(e) && (e.raw_os_error
            == Some(errno.eperm) || e.raw_os_error == Some(errno.einval))),
{
}

/// A name of digits is the descriptor of that number.
pub proof fn digits_name_descriptors(name: &str, r: Option<i32>, n: nat)
    requires
        call_ensures(descriptor_of_name, (name,), r),
        name@ == crate::text::decimal(n),
    ensures
        n <= i32::MAX ==> r == Some(n as i32),
        n > i32::MAX ==> r is None,
{
    crate::linux::process::names_are_read_as_numbers(n, name@, 0);
}

} // verus!
