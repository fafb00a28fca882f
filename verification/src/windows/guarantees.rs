//! What callers can rely on of the operations for Windows themselves.
use vstd::prelude::*;

use crate::env::EnvMap;
use crate::error::{ErrorView, IoFailure, IoFailureKind, SandboxError};
use crate::guarantees::{lemma_joined_holds_line, lemma_lists_path, lists_path, rule_at};
use crate::path::{components, display_text, is_below, path_views, PathStyle, SandboxPath};
use crate::path_policy::{has_key, text_key, PathKeyMode};
use crate::policy::{
    has_rule, SandboxCoarseNetworkPolicy, SandboxDefaultAccess, SandboxPathAccess, SandboxPolicy,
};
use crate::text::{
    decimal, has_text, join, lower, occurs_at, same_ignoring_case, signed_decimal, texts, trim,
};
use crate::windows::access::{
    collect_acl_plan, command_argument_candidates, default_access_scope_paths,
    ensure_safe_allow_path, exactly_the_denied_paths_are_denied, filter_paths_not_under_roots,
    is_below_rule, is_candidate, is_path_argument, is_under, lemma_outside,
    materialize_path_candidate, plans_grant_what_the_rules_say,
    resolve_acl_conflicts, runtime_bootstrap_readonly_paths, scopes_hold_everything_a_run_touches,
    single_quoted_segments, writing_settles_conflicts, AclPlan, AllowProbe, CandidateProbe,
};
use crate::windows::acl::{
    access_steps, ace_request, entries_do_what_they_are_for, every_listed_path_is_written,
    following_call, AceCall, AceKind, AceRequest, AceStep,
};
use crate::windows::audit::{
    allows_writing, audit_goes_on, audit_outcome, audits_look_everywhere, gather_candidates,
};
use crate::windows::container::{
    capabilities_are_those_of_the_network, container_origin, exemption_kept, exemption_step,
    name_for, network_capabilities, register_binary_result, rule_names, ContainerOrigin,
    ExemptionStep, NamePurpose,
};
use crate::windows::elevated::{
    helper_action, launch_error, parse_ready_signal, serialize_acl_spec, signals_are_read,
    stop_action, tasks_name_every_path, unread_progress, unread_ready_signal, HelperAction,
    HelperPhase, HelperStatus, NetworkRuleMode, ReadySignal, StopAction,
};
use crate::windows::environment::{
    deny_stub_names, get_env_case_insensitive, has_variable, null_devices_are_renamed, offline_runs_find_their_settings,
    offline_table, pagers_are_named, prepare_env, with_null_device, with_pager,
};
use crate::windows::environment_block::{
    block_entries, block_of, blocks_are_written_variable_by_variable,
    environment_block_for_create_process, environment_has_one_block, lists, make_env_block,
    merge_required,
    optional_texts, required_variables_are_there, utf16,
};
use crate::windows::firewall::{
    after_filter_failure, block_layers, failed_elevation, following_filter_call, BlockLayer, FilterCall, FilterStep,
    WfpStatusError,
};
use crate::windows::plan::{
    setup_course, validate_policy_shape, wants_loopback_server, SetupCourse,
};
use crate::windows::process::{
    attribute_count, child_policy_outcome, executable_lookup, following_attribute, next_wait,
    process_start, reported_exit_code, wait_verdict, AttributeStep, AttributeStepView,
    ChildPolicyOutcome, ExecutableLookup, ProcessAttribute, ProcessStart, WaitVerdict,
};
use crate::windows::quoting::{
    command_line_can_be_read_back, join_command_line, quote_windows_arg, quoting_can_be_undone,
    read_arg, read_args,
};

verus! {

proof fn lemma_has_rule(policy: SandboxPolicy, path: Seq<u8>, access: SandboxPathAccess)
    ensures
        has_rule(policy@.path_permissions, access, path) <==> exists|i: int| #[trigger]
            rule_at(policy, i, path, access),
{
    let rules = policy@.path_permissions;
    if has_rule(rules, access, path) {
        let i = choose|i: int|
            0 <= i < rules.len() && (#[trigger] rules[i]).access == access && rules[i].path == path;
        assert(rule_at(policy, i, path, access));
    }
    if exists|i: int| #[trigger] rule_at(policy, i, path, access) {
        let i = choose|i: int| #[trigger] rule_at(policy, i, path, access);
        assert(rules[i].access == access && rules[i].path == path);
    }
}

/// A plan denies access to the path of every rule that denies it, whatever the default and the
/// scope are, and to no other path.
pub proof fn plans_deny_every_denied_path(
    policy: &SandboxPolicy,
    scope: &Vec<SandboxPath>,
    r: AclPlan,
    path: Seq<u8>,
)
    requires
        call_ensures(collect_acl_plan, (policy, scope), r),
    ensures
        lists_path(r.deny_access_paths@, path) <==> exists|i: int| #[trigger]
            rule_at(*policy, i, path, SandboxPathAccess::Deny),
{
    lemma_lists_path(r.deny_access_paths@, path);
    exactly_the_denied_paths_are_denied(policy@, path_views(scope@), path);
    lemma_has_rule(*policy, path, SandboxPathAccess::Deny);
}

/// A plan grants nothing at or below a denied path. Elsewhere it opens the writable rules, and the
/// scope as far as no read-only rule holds there: for writing below a writable default, and for
/// reading below a read-only one. Below a writable default the read-only rules can be read, and are
/// kept from being written.
pub proof fn plans_grant_as_the_policy_says(
    policy: &SandboxPolicy,
    scope: &Vec<SandboxPath>,
    r: AclPlan,
    path: Seq<u8>,
)
    requires
        call_ensures(collect_acl_plan, (policy, scope), r),
    ensures
        ({
            let rules = policy@.path_permissions;
            let denied = is_below_rule(rules, SandboxPathAccess::Deny, path);
            let closed = is_below_rule(rules, SandboxPathAccess::ReadOnly, path);
            let readable = has_rule(rules, SandboxPathAccess::ReadOnly, path) && !denied;
            let writable = has_rule(rules, SandboxPathAccess::ReadWrite, path) && !denied;
            let open = lists_path(scope@, path) && !denied && !closed;
            &&& policy.default_access == SandboxDefaultAccess::ReadOnly ==> {
                &&& lists_path(r.allow_readonly_paths@, path) <==> open
                &&& lists_path(r.allow_readwrite_paths@, path) <==> writable
                &&& !lists_path(r.deny_write_paths@, path)
            }
            &&& policy.default_access == SandboxDefaultAccess::ReadWrite ==> {
                &&& lists_path(r.allow_readonly_paths@, path) <==> readable
                &&& lists_path(r.allow_readwrite_paths@, path) <==> open || writable
                &&& lists_path(r.deny_write_paths@, path) <==> readable
            }
        }),
{
    lemma_lists_path(r.allow_readonly_paths@, path);
    lemma_lists_path(r.allow_readwrite_paths@, path);
    lemma_lists_path(r.deny_write_paths@, path);
    lemma_lists_path(scope@, path);
    plans_grant_what_the_rules_say(policy@, path_views(scope@), path);
}

/// Resolving the conflicts of a plan takes nothing from what it denies and lets be written.
pub proof fn conflicts_are_resolved_for_writing(plan: AclPlan, r: AclPlan, path: Seq<u8>)
    requires
        call_ensures(resolve_acl_conflicts, (plan,), r),
    ensures
        lists_path(r.deny_access_paths@, path) <==> lists_path(plan.deny_access_paths@, path),
        lists_path(r.allow_readwrite_paths@, path) <==> lists_path(
            plan.allow_readwrite_paths@,
            path,
        ),
        lists_path(r.allow_readonly_paths@, path) ==> lists_path(plan.allow_readonly_paths@, path),
        lists_path(r.deny_write_paths@, path) ==> lists_path(plan.deny_write_paths@, path),
        lists_path(plan.allow_readwrite_paths@, path) ==> !lists_path(r.allow_readonly_paths@, path)
            && !lists_path(r.deny_write_paths@, path),
{
    lemma_lists_path(r.deny_access_paths@, path);
    lemma_lists_path(r.allow_readwrite_paths@, path);
    lemma_lists_path(r.allow_readonly_paths@, path);
    lemma_lists_path(r.deny_write_paths@, path);
    lemma_lists_path(plan.deny_access_paths@, path);
    lemma_lists_path(plan.allow_readwrite_paths@, path);
    lemma_lists_path(plan.allow_readonly_paths@, path);
    lemma_lists_path(plan.deny_write_paths@, path);
    writing_settles_conflicts(plan@, path);
    if lists_path(plan.allow_readwrite_paths@, path) {
        let w = plan@.allow_readwrite;
        let k = choose|k: int| 0 <= k < w.len() && w[k] == path;
        assert(w[k] == path);
    }
}

/// Every path of a plan gets its entry in an access list.
pub proof fn every_path_gets_its_entry(plan: &AclPlan, r: Vec<AceStep>, path: Seq<u8>)
    requires
        call_ensures(access_steps, (plan,), r),
    ensures
        ({
            let made = |kind: AceKind|
                exists|k: int|
                    0 <= k < r@.len() && (#[trigger] r@[k]).path@ == path && r@[k].kind == kind;
            &&& lists_path(plan.deny_access_paths@, path) <==> made(AceKind::DenyAccess)
            &&& lists_path(plan.deny_write_paths@, path) <==> made(AceKind::DenyWrite)
            &&& lists_path(plan.allow_readonly_paths@, path) <==> made(AceKind::AllowReadOnly)
            &&& lists_path(plan.allow_readwrite_paths@, path) <==> made(AceKind::AllowReadWrite)
        }),
{
    lemma_lists_path(plan.deny_access_paths@, path);
    lemma_lists_path(plan.deny_write_paths@, path);
    lemma_lists_path(plan.allow_readonly_paths@, path);
    lemma_lists_path(plan.allow_readwrite_paths@, path);
    lemma_step_made(plan, r, path, AceKind::DenyAccess);
    lemma_step_made(plan, r, path, AceKind::DenyWrite);
    lemma_step_made(plan, r, path, AceKind::AllowReadOnly);
    lemma_step_made(plan, r, path, AceKind::AllowReadWrite);
}

proof fn lemma_step_made(plan: &AclPlan, r: Vec<AceStep>, path: Seq<u8>, kind: AceKind)
    requires
        call_ensures(access_steps, (plan,), r),
    ensures
        (exists|k: int|
            0 <= k < r@.len() && (#[trigger] r@[k]).path@ == path && r@[k].kind == kind) <==> {
            ||| kind == AceKind::DenyAccess && plan@.deny_access.contains(path)
            ||| kind == AceKind::DenyWrite && plan@.deny_write.contains(path)
            ||| kind == AceKind::AllowReadOnly && plan@.allow_readonly.contains(path)
            ||| kind == AceKind::AllowReadWrite && plan@.allow_readwrite.contains(path)
        },
{
    every_listed_path_is_written(plan@, path, kind);
    let v = crate::windows::acl::step_views(r@);
    if exists|k: int|
        0 <= k < r@.len() && (#[trigger] r@[k]).path@ == path && r@[k].kind == kind {
        let k = choose|k: int|
            0 <= k < r@.len() && (#[trigger] r@[k]).path@ == path && r@[k].kind == kind;
        assert(v[k] == (path, kind));
    }
    if v.contains((path, kind)) {
        let k = choose|k: int| 0 <= k < v.len() && v[k] == (path, kind);
        assert(v[k] == r@[k]@);
    }
}

/// An entry that denies a path takes the rights to read, write and run it; one that lets it be read
/// gives none of the rights to write.
pub proof fn entries_are_asked_for(denied: AceRequest, readable: AceRequest, closed: AceRequest)
    requires
        call_ensures(ace_request, (AceKind::DenyAccess,), denied),
        call_ensures(ace_request, (AceKind::AllowReadOnly,), readable),
        call_ensures(ace_request, (AceKind::DenyWrite,), closed),
    ensures
        denied.mode == 3 && denied.permissions & 0x1bf == 0x1bf && denied.inheritance == 3,
        readable.mode == 2 && readable.permissions & 0x116 == 0 && readable.permissions & 0xa9
            == 0xa9,
        closed.mode == 3 && closed.permissions & 0x116 == 0x116 && closed.permissions & 0x29 == 0,
{
    entries_do_what_they_are_for();
}

/// A list is read, changed and written, each only where the call before it succeeded.
pub proof fn failed_calls_stop_the_change(
    call: AceCall,
    code: u32,
    path: &SandboxPath,
    r: Result<Option<AceCall>, SandboxError>,
)
    requires
        call_ensures(following_call, (call, code, path), r),
    ensures
        r is Ok <==> code == 0,
        r matches Ok(next) ==> {
            &&& call == AceCall::ReadList ==> next == Some(AceCall::AddEntry)
            &&& call == AceCall::AddEntry ==> next == Some(AceCall::WriteList)
            &&& call == AceCall::WriteList ==> next is None
        },
        r matches Err(e) ==> e@ is Windows,
{
}

/// The audit goes on for four seconds and two thousand directories.
pub proof fn audits_end(elapsed_ns: u128, checked: usize, r: bool)
    requires
        call_ensures(audit_goes_on, (elapsed_ns, checked), r),
    ensures
        r <==> elapsed_ns <= 4 * 1_000_000_000 && checked <= 2000,
{
}

/// A directory can be written exactly where all of the rights to write are there.
pub proof fn all_write_rights_are_needed(mask: u32, some: bool, none: bool)
    requires
        call_ensures(allows_writing, (Some(mask),), some),
        call_ensures(allows_writing, (None,), none),
    ensures
        some <==> mask & 0x120116 == 0x120116,
        !none,
{
}

/// An audit passes exactly where it flags nothing.
pub proof fn findings_fail_the_audit(flagged: &Vec<SandboxPath>, r: Result<(), SandboxError>)
    requires
        call_ensures(audit_outcome, (flagged,), r),
    ensures
        r is Ok <==> flagged@.len() == 0,
        r matches Err(e) ==> e@ is AuditFailed,
{
}

/// A container is made where that succeeds, else derived from its name where that does, and else is
/// not to be had.
pub proof fn containers_are_made_or_derived(
    create: i32,
    derived: i32,
    r: Result<ContainerOrigin, SandboxError>,
)
    requires
        call_ensures(container_origin, (create, derived), r),
    ensures
        create >= 0 ==> r == Ok::<ContainerOrigin, SandboxError>(ContainerOrigin::Created),
        create < 0 && derived >= 0 ==> r == Ok::<ContainerOrigin, SandboxError>(
            ContainerOrigin::Derived,
        ),
        create < 0 && derived < 0 ==> r is Err,
{
}

/// What is registered, exempted and kept, by what the system answers.
pub proof fn answers_are_taken_as_they_are(
    code: i32,
    registered: Result<(), SandboxError>,
    listed: bool,
    step: ExemptionStep,
    kept: Result<(), SandboxError>,
)
    requires
        call_ensures(register_binary_result, (code,), registered),
        call_ensures(exemption_step, (listed,), step),
        call_ensures(exemption_kept, (listed,), kept),
    ensures
        registered is Ok <==> code >= 0,
        step == ExemptionStep::AlreadyThere <==> listed,
        step == ExemptionStep::Add <==> !listed,
        kept is Ok <==> listed,
{
}

/// The names of the two rules of a run differ in their ends alone.
pub proof fn rules_are_named_in_pairs(prefix: &str, r: (String, String))
    requires
        call_ensures(rule_names, (prefix,), r),
    ensures
        r.0@ == prefix@ + "-out"@,
        r.1@ == prefix@ + "-in"@,
{
}

/// A ready file that is not there yet, or cannot be read yet, means that the helper is still at
/// work; any other failure is one.
pub proof fn unread_signals_are_pending(
    failure: &IoFailure,
    in_use_counts: bool,
    r: Result<ReadySignal, SandboxError>,
)
    requires
        call_ensures(unread_ready_signal, (failure, in_use_counts), r),
    ensures
        r is Ok <==> failure.kind == IoFailureKind::NotFound || failure.kind
            == IoFailureKind::PermissionDenied || (in_use_counts && failure.raw_os_error == Some(
            32i32,
        )),
        r matches Ok(s) ==> s is Pending,
        r matches Err(e) ==> e@ == ErrorView::Io(
            failure.kind,
            failure.raw_os_error,
            failure.message@,
        ),
{
}

/// A signal is read from what the helper wrote.
pub proof fn helpers_signal_what_they_wrote(contents: &str, r: ReadySignal)
    requires
        call_ensures(parse_ready_signal, (contents,), r),
    ensures
        r is Pending <==> trim(contents@).len() == 0,
        r is Ready <==> lower(trim(contents@)) == "ok"@,
{
    signals_are_read(contents@, Seq::empty());
}

/// A helper that has ended is left alone, one that has not is ended, and waited for where that is
/// known.
pub proof fn helpers_are_stopped(ended: Option<bool>, r: StopAction)
    requires
        call_ensures(stop_action, (ended,), r),
    ensures
        r == StopAction::Nothing <==> ended == Some(true),
        r == StopAction::TerminateAndWait <==> ended == Some(false),
        r == StopAction::Terminate <==> ended is None,
{
}

/// A launch that the user cancelled is a denial, and any other failure is one of the system.
pub proof fn cancelled_launches_are_denials(code: i32, detail: &str, r: SandboxError)
    requires
        call_ensures(launch_error, (code, detail), r),
    ensures
        code == 1223 ==> r@ == ErrorView::Denied(
            "administrator elevation was cancelled by user"@,
        ),
        code != 1223 ==> r@ == ErrorView::Windows(
            "ShellExecuteExW(runas)"@ + " failed: "@ + signed_decimal(code as int) + " ("@ + detail@
                + ")"@,
        ),
{
}

/// A helper is waited for while it has said nothing, runs and has time left.
pub proof fn helpers_get_their_time(phase: HelperPhase, s: &HelperStatus, r: HelperAction)
    requires
        call_ensures(helper_action, (phase, s), r),
    ensures
        ({
            let limit: int = if phase == HelperPhase::LoopbackServer {
                5_000
            } else {
                20_000
            };
            &&& r is Proceed <==> s.signal is Ready
            &&& r is Sleep <==> s.signal is Pending && s.exit_code is None && s.elapsed_ms < limit
        }),
{
}

/// The helper takes over from a process that lacks rights, and only from one without those of an
/// administrator.
pub proof fn helpers_take_over(failure: &WfpStatusError, is_elevated: bool, r: Option<SandboxError>)
    requires
        call_ensures(after_filter_failure, (failure, is_elevated), r),
    ensures
        r is None <==> (failure.status == 5 || failure.status == 50) && !is_elevated,
        r matches Some(e) ==> (e@ is Denied <==> failure.status == 5),
{
}

/// Filters are installed for six layers, and a transaction ends well only behind its commit.
pub proof fn filters_are_installed_together(
    layers: Vec<BlockLayer>,
    layer: BlockLayer,
    call: FilterCall,
    status: u32,
    r: FilterStep,
)
    requires
        call_ensures(block_layers, (), layers),
        call_ensures(following_filter_call, (call, status), r),
    ensures
        layers@.len() == 6,
        layers@.contains(layer),
        r is Done <==> call == FilterCall::Commit && status == 0,
        r is AbortThenFail <==> call != FilterCall::Begin && status != 0,
        r is Fail <==> call == FilterCall::Begin && status != 0,
        call == FilterCall::Begin && status == 0 ==> r == FilterStep::Next(FilterCall::Add(0)),
        call == FilterCall::Add(5) && status == 0 ==> r == FilterStep::Next(FilterCall::Commit),
{
    crate::windows::firewall::every_layer_is_blocked_once(layer);
}

/// A process sets up a run by itself exactly where it has the rights of an administrator and the run
/// has no network, and then blocks the network. Either way every denied path stays denied.
pub proof fn courses_deny_every_denied_path(
    plan: AclPlan,
    bootstrap: &Vec<SandboxPath>,
    is_elevated: bool,
    network: SandboxCoarseNetworkPolicy,
    r: SetupCourse,
    path: Seq<u8>,
)
    requires
        call_ensures(setup_course, (plan, bootstrap, is_elevated, network), r),
    ensures
        r is Own <==> is_elevated && network == SandboxCoarseNetworkPolicy::Disabled,
        r matches SetupCourse::Own { plan: p, block_network } ==> block_network && (lists_path(
            p.deny_access_paths@,
            path,
        ) <==> lists_path(plan.deny_access_paths@, path)),
        r matches SetupCourse::Helper { plan: p, mode } ==> {
            &&& lists_path(p.deny_access_paths@, path) <==> lists_path(
                plan.deny_access_paths@,
                path,
            )
            &&& mode == NetworkRuleMode::BlockAll <==> network
                == SandboxCoarseNetworkPolicy::Disabled
            &&& mode == NetworkRuleMode::OutboundOnly <==> network
                == SandboxCoarseNetworkPolicy::OutboundOnly
            &&& mode == NetworkRuleMode::Bidirectional <==> network
                == SandboxCoarseNetworkPolicy::Bidirectional
        },
{
    lemma_lists_path(plan.deny_access_paths@, path);
    match r {
        SetupCourse::Own { plan: p, block_network: _ } => {
            lemma_lists_path(p.deny_access_paths@, path);
        },
        SetupCourse::Helper { plan: p, mode: _ } => {
            lemma_lists_path(p.deny_access_paths@, path);
        },
    }
}

/// A policy can be run exactly where its network has one of the three shapes, and only both
/// directions need a server on the loopback interface.
pub proof fn only_shaped_networks_run(
    policy: &SandboxPolicy,
    r: Result<SandboxCoarseNetworkPolicy, SandboxError>,
    mode: NetworkRuleMode,
    wanted: bool,
)
    requires
        call_ensures(validate_policy_shape, (policy,), r),
        call_ensures(wants_loopback_server, (mode,), wanted),
    ensures
        ({
            let p = policy.network_policy;
            let open = p.allow_unix && p.allow_ipv4 && p.allow_ipv6 && p.allow_connect;
            let closed = p.allow_unix && !p.allow_ipv4 && !p.allow_ipv6 && !p.allow_connect;
            let inbound = p.allow_bind && p.allow_listen && p.allow_accept;
            let none = !p.allow_bind && !p.allow_listen && !p.allow_accept;
            &&& r is Ok <==> closed && none || open && none || open && inbound
            &&& r matches Ok(s) ==> (s == SandboxCoarseNetworkPolicy::Disabled <==> closed)
            &&& r matches Ok(s) ==> (s == SandboxCoarseNetworkPolicy::Bidirectional <==> inbound)
            &&& r matches Err(e) ==> e@ is Unavailable
        }),
        wanted <==> mode == NetworkRuleMode::Bidirectional,
{
}

/// How long a process is waited for, what a wait means, and which exit code is reported.
pub proof fn processes_get_their_time(
    elapsed_ms: u128,
    timeout_ms: Option<u64>,
    wait: u32,
    wait_result: u32,
    verdict: WaitVerdict,
    timed_out: bool,
    raw: u32,
    code: i32,
)
    requires
        call_ensures(next_wait, (elapsed_ms, timeout_ms), wait),
        call_ensures(wait_verdict, (wait_result, elapsed_ms, timeout_ms), verdict),
        call_ensures(reported_exit_code, (timed_out, raw), code),
    ensures
        timeout_ms is None ==> wait == 0xffff_ffff,
        timeout_ms matches Some(limit) ==> {
            &&& elapsed_ms >= limit ==> wait == 0
            &&& elapsed_ms < limit && limit - elapsed_ms <= 0xffff_fffe ==> wait == limit - elapsed_ms
            &&& elapsed_ms < limit && limit - elapsed_ms > 0xffff_fffe ==> wait == 0xffff_fffe
        },
        verdict is Ended <==> wait_result != 258,
        verdict is TimedOut <==> wait_result == 258 && timeout_ms is Some && elapsed_ms
            >= timeout_ms->0,
        timed_out ==> code == 124,
        !timed_out ==> code == raw || code + 0x1_0000_0000 == raw,
{
}

/// A process without the ban on child processes has one attribute less, and goes without it only
/// where it is not to be had.
pub proof fn bans_are_kept_where_they_can(
    degraded: bool,
    count: u32,
    failure: &Option<(i32, String)>,
    r: ChildPolicyOutcome,
)
    requires
        call_ensures(attribute_count, (degraded,), count),
        call_ensures(child_policy_outcome, (failure,), r),
    ensures
        degraded ==> count == 2,
        !degraded ==> count == 3,
        r is Restricted <==> *failure is None,
        r is Degraded <==> *failure is Some && ((failure->0).0 == 5 || (failure->0).0 == 24 || (
        failure->0).0 == 50 || (failure->0).0 == 87),
{
}

/// A path that a command names is in scope itself where it exists, and else its nearest parent that
/// does.
pub proof fn named_paths_are_in_scope(probe: &CandidateProbe, r: Option<SandboxPath>)
    requires
        call_ensures(materialize_path_candidate, (probe,), r),
    ensures
        probe.exists ==> r is Some && r->0@ == probe.absolute@,
        !probe.exists ==> (r is Some <==> probe.existing_parent is Some) && (r is Some ==> r->0@
            == probe.existing_parent->0@),
{
}

/// A path is granted where it exists, and not where it is missing or cannot be resolved.
pub proof fn only_existing_paths_are_granted(
    path: &SandboxPath,
    probe: &AllowProbe,
    r: Result<SandboxPath, SandboxError>,
)
    requires
        call_ensures(ensure_safe_allow_path, (path, probe), r),
    ensures
        r is Ok <==> probe is Resolved,
        probe is Missing ==> r is Err && r->Err_0@ is InvalidRequest,
        probe is Failed ==> r is Err && r->Err_0@ is Io,
{
}

/// What a program needs to start: its directory, itself, and its parent where it has one; a script
/// and its parent too.
pub proof fn programs_can_read_what_they_start_with(
    cwd: &SandboxPath,
    executable: &SandboxPath,
    parent: &Option<SandboxPath>,
    script: &Option<SandboxPath>,
    script_parent: &Option<SandboxPath>,
    r: Vec<SandboxPath>,
)
    requires
        call_ensures(
            runtime_bootstrap_readonly_paths,
            (cwd, executable, parent, script, script_parent),
            r,
        ),
    ensures
        lists_path(r@, cwd@),
        lists_path(r@, executable@),
        *parent matches Some(p) ==> lists_path(r@, p@),
        *script matches Some(s) ==> lists_path(r@, s@),
        *script is Some ==> (*script_parent matches Some(p) ==> lists_path(r@, p@)),
{
    let v = path_views(r@);
    assert(v[0] == cwd@ && v[1] == executable@);
    lemma_lists_path(r@, cwd@);
    lemma_lists_path(r@, executable@);
    let n: int = if *parent is Some {
        3
    } else {
        2
    };
    if *parent is Some {
        assert(v[2] == parent->0@);
        lemma_lists_path(r@, parent->0@);
    }
    if *script is Some {
        assert(v[n] == script->0@);
        lemma_lists_path(r@, script->0@);
        if *script_parent is Some {
            assert(v[n + 1] == script_parent->0@);
            lemma_lists_path(r@, script_parent->0@);
        }
    }
}

/// An argument is a path exactly where it has more than one part or is absolute.
pub proof fn arguments_with_parts_are_paths(argument: &SandboxPath, is_absolute: bool, r: bool)
    requires
        call_ensures(is_path_argument, (argument, is_absolute), r),
    ensures
        is_absolute ==> r,
        !is_absolute ==> (r <==> components(PathStyle::Windows, argument@).len() > 1),
{
}

/// The environment of a run: null devices and pagers are set right in any case; without network the
/// settings of the table hold too, under each of their names, and everything else is as it was.
pub proof fn environments_are_prepared(
    env: &EnvMap,
    without_network: bool,
    stub_dir: &str,
    process_path: &Option<String>,
    process_pathext: &Option<String>,
    r: EnvMap,
    i: int,
    name: Seq<char>,
)
    requires
        call_ensures(
            prepare_env,
            (env, without_network, stub_dir, process_path, process_pathext),
            r,
        ),
        0 <= i < offline_table().len(),
    ensures
        without_network ==> {
            &&& r@.contains_key(offline_table()[i].0) && r@.contains_key(offline_table()[i].1)
            &&& same_ignoring_case(name, offline_table()[i].0) && r@.contains_key(name) ==> r@[name]
                == offline_table()[i].2
            &&& r@.contains_key("PATH"@) && r@.contains_key("PATHEXT"@)
        },
        !without_network ==> (env@.contains_key(name) ==> r@.contains_key(name)) && (
        env@.contains_key(name) && lower(trim(env@[name])) != "/dev/null"@ && lower(trim(env@[name]))
            != "\\\\dev\\null"@ ==> r@[name] == env@[name]) && (env@.contains_key(name) && lower(
            trim(env@[name]),
        ) == "/dev/null"@ ==> r@[name] == "NUL"@),
{
    let start = with_pager(with_null_device(env@));
    null_devices_are_renamed(env@, name);
    pagers_are_named(with_null_device(env@), name);
    if without_network {
        let path_of = crate::windows::environment::optional_text(*process_path);
        let ext_of = crate::windows::environment::optional_text(*process_pathext);
        let (path, pathext) = choose|path: Seq<char>, pathext: Seq<char>| #[trigger]
            crate::windows::environment::hardens(
                start,
                stub_dir@,
                path_of,
                ext_of,
                path,
                pathext,
                r@,
            );
        offline_runs_find_their_settings(
            start,
            stub_dir@,
            path_of,
            ext_of,
            path,
            pathext,
            r@,
            name,
            i,
        );
    }
}

/// A program is looked for at its path exactly where its name has a colon or more than one part.
/// Else it is looked for on the search path, under its own name first.
pub proof fn programs_are_looked_for(
    program: &str,
    env: &EnvMap,
    process_path: &Option<String>,
    process_pathext: &Option<String>,
    r: ExecutableLookup,
)
    requires
        call_ensures(executable_lookup, (program, env, process_path, process_pathext), r),
    ensures
        r is AtPath <==> program@.contains(':') || components(
            PathStyle::Windows,
            vstd::utf8::encode_utf8(program@),
        ).len() > 1,
        r matches ExecutableLookup::OnSearchPath { candidates, search_path } ==> {
            &&& candidates@.len() > 0 && candidates@[0]@ == program@
            &&& env@.contains_key("PATH"@) ==> search_path@ == env@["PATH"@]
            &&& !env@.contains_key("PATH"@) ==> (*process_path matches Some(p) ==> search_path@
                == p@)
            &&& forall|k: int|
                0 <= k < candidates@.len() ==> program@.is_prefix_of((#[trigger] candidates@[k])@)
        },
{
    match r {
        ExecutableLookup::OnSearchPath { candidates, search_path: _ } => {
            let t = texts(candidates@);
            assert(t.len() == candidates@.len());
            let ext = crate::windows::process::extensions_in(
                crate::windows::process::exact_value(
                    env@,
                    "PATHEXT"@,
                    crate::windows::environment::optional_text(*process_pathext),
                    crate::windows::environment::DEFAULT_PATHEXT@,
                ),
            );
            assert(t[0] == candidates@[0]@);
            assert forall|k: int| 0 <= k < candidates@.len() implies program@.is_prefix_of(
                (#[trigger] candidates@[k])@,
            ) by {
                assert(t[k] == candidates@[k]@);
                if k > 0 {
                    assert(t[k] == program@ + ext[k - 1]);
                    assert((program@ + ext[k - 1]).subrange(0, program@.len() as int) =~= program@);
                }
            }
        },
        ExecutableLookup::AtPath => {},
    }
}

/// A command line is read back as the words that it was made of, and a quoted word as that word.
pub proof fn command_lines_keep_their_words(
    args: &Vec<String>,
    line: String,
    arg: &str,
    word: String,
)
    requires
        call_ensures(join_command_line, (args,), line),
        call_ensures(quote_windows_arg, (arg,), word),
    ensures
        read_args(line@, args@.len()) == texts(args@),
        read_arg(word@, false) == (arg@, Seq::<char>::empty()),
{
    command_line_can_be_read_back(texts(args@));
    quoting_can_be_undone(arg@, Seq::empty());
    assert(word@ + Seq::<char>::empty() =~= word@);
}

/// A sequence holds another one at a place.
pub open spec fn holds_at(s: Seq<u16>, part: Seq<u16>, at: int) -> bool {
    0 <= at && at + part.len() <= s.len() && s.subrange(at, at + part.len()) == part
}

/// A block holds every variable as its name, an equals sign and its value with a zero behind them,
/// and ends with a zero.
pub proof fn blocks_hold_every_variable(env: &EnvMap, r: Vec<u16>, name: Seq<char>)
    requires
        call_ensures(make_env_block, (env,), r),
    ensures
        r@.len() >= 2 && r@.last() == 0 && r@[r@.len() - 2] == 0,
        env@.contains_key(name) ==> exists|at: int| #[trigger]
            holds_at(r@, utf16(name) + seq![0x3du16] + utf16(env@[name]) + seq![0u16], at),
{
    let v = choose|v: Seq<(Seq<char>, Seq<char>)>| #[trigger]
        lists(env@, v) && r@ == crate::windows::environment_block::block_of(v);
    if env@.contains_key(name) {
        crate::env::lemma_map_of(v);
        let k = choose|k: int| 0 <= k < v.len() && (#[trigger] v[k]).0 == name;
        let x = v[k];
        assert(x.1 == env@[name]);
        let a = v.take(k);
        let b = v.subrange(k + 1, v.len() as int);
        assert(v =~= a + seq![x] + b);
        blocks_are_written_variable_by_variable(a, seq![x], x);
        blocks_are_written_variable_by_variable(a + seq![x], b, x);
        let entry = utf16(name) + seq![0x3du16] + utf16(env@[name]) + seq![0u16];
        let at = block_entries(a).len() as int;
        assert(r@.subrange(at, at + entry.len()) =~= entry);
        assert(holds_at(r@, entry, at));
    }
    if v.len() > 0 {
        let a = v.drop_last();
        let x = v.last();
        assert(v =~= a + seq![x]);
        blocks_are_written_variable_by_variable(a, seq![x], x);
    }
}

/// Variables that programs need are taken from the parent where they are missing; none that is
/// there is changed.
pub proof fn needed_variables_are_merged(
    env: &EnvMap,
    names: &Vec<String>,
    parent: &Vec<Option<String>>,
    r: EnvMap,
    i: int,
    name: Seq<char>,
)
    requires
        call_ensures(merge_required, (env, names, parent), r),
        names.len() == parent.len(),
    ensures
        env@.contains_key(name) ==> r@.contains_key(name) && r@[name] == env@[name],
        0 <= i < names@.len() && parent@[i] is Some ==> has_variable(r@, names@[i]@),
{
    let p = optional_texts(parent@);
    let t = texts(names@);
    required_variables_are_there(env@, t, p, i, name);
    if 0 <= i < names@.len() {
        assert(t[i] == names@[i]@);
        assert(p[i] is Some <==> parent@[i] is Some);
    }
}

/// The task of a helper names every path of the plan in the way of its list.
pub proof fn tasks_hold_every_path(plan: &AclPlan, r: String, k: int)
    requires
        call_ensures(serialize_acl_spec, (plan,), r),
    ensures
        0 <= k < plan.deny_access_paths@.len() ==> has_text(
            r@,
            "dn\t"@ + display_text(PathStyle::Windows, plan.deny_access_paths@[k]@),
        ),
        0 <= k < plan.deny_write_paths@.len() ==> has_text(
            r@,
            "dw\t"@ + display_text(PathStyle::Windows, plan.deny_write_paths@[k]@),
        ),
        0 <= k < plan.allow_readonly_paths@.len() ==> has_text(
            r@,
            "ro\t"@ + display_text(PathStyle::Windows, plan.allow_readonly_paths@[k]@),
        ),
        0 <= k < plan.allow_readwrite_paths@.len() ==> has_text(
            r@,
            "rw\t"@ + display_text(PathStyle::Windows, plan.allow_readwrite_paths@[k]@),
        ),
{
    let w = PathStyle::Windows;
    if 0 <= k < plan.deny_access_paths@.len() {
        assert(plan@.deny_access[k] == plan.deny_access_paths@[k]@);
        lemma_task_holds(plan, r, "dn\t"@ + display_text(w, plan@.deny_access[k]));
    }
    if 0 <= k < plan.deny_write_paths@.len() {
        assert(plan@.deny_write[k] == plan.deny_write_paths@[k]@);
        lemma_task_holds(plan, r, "dw\t"@ + display_text(w, plan@.deny_write[k]));
    }
    if 0 <= k < plan.allow_readonly_paths@.len() {
        assert(plan@.allow_readonly[k] == plan.allow_readonly_paths@[k]@);
        lemma_task_holds(plan, r, "ro\t"@ + display_text(w, plan@.allow_readonly[k]));
    }
    if 0 <= k < plan.allow_readwrite_paths@.len() {
        assert(plan@.allow_readwrite[k] == plan.allow_readwrite_paths@[k]@);
        lemma_task_holds(plan, r, "rw\t"@ + display_text(w, plan@.allow_readwrite[k]));
    }
}

proof fn lemma_task_holds(plan: &AclPlan, r: String, line: Seq<char>)
    requires
        call_ensures(serialize_acl_spec, (plan,), r),
    ensures
        crate::windows::elevated::all_task_lines(plan@).contains(line) ==> has_text(r@, line),
        (exists|i: int|
            0 <= i < plan@.deny_access.len() && line == "dn\t"@ + display_text(
                PathStyle::Windows,
                #[trigger] plan@.deny_access[i],
            )) || (exists|i: int|
            0 <= i < plan@.deny_write.len() && line == "dw\t"@ + display_text(
                PathStyle::Windows,
                #[trigger] plan@.deny_write[i],
            )) || (exists|i: int|
            0 <= i < plan@.allow_readonly.len() && line == "ro\t"@ + display_text(
                PathStyle::Windows,
                #[trigger] plan@.allow_readonly[i],
            )) || (exists|i: int|
            0 <= i < plan@.allow_readwrite.len() && line == "rw\t"@ + display_text(
                PathStyle::Windows,
                #[trigger] plan@.allow_readwrite[i],
            )) ==> has_text(r@, line),
{
    let lines = crate::windows::elevated::all_task_lines(plan@);
    tasks_name_every_path(plan@, line);
    if lines.contains(line) {
        lemma_joined_holds_line(lines, line, "\n"@);
        let text = join(lines, "\n"@);
        let at = choose|at: int| occurs_at(text, line, at);
        assert(lines.len() > 0);
        assert(r@ == text + "\n"@);
        assert(r@.subrange(at, at + line.len()) =~= text.subrange(at, at + line.len()));
        assert(occurs_at(r@, line, at));
    }
}

/// The scope of a run holds its directory, its program, every path of its policy and every path that
/// its command names.
pub proof fn scopes_are_whole(
    cwd: &SandboxPath,
    executable: &SandboxPath,
    parent: &Option<SandboxPath>,
    policy: &SandboxPolicy,
    named: &Vec<SandboxPath>,
    r: Vec<SandboxPath>,
    i: int,
)
    requires
        call_ensures(default_access_scope_paths, (cwd, executable, parent, policy, named), r),
    ensures
        lists_path(r@, cwd@),
        lists_path(r@, executable@),
        *parent matches Some(p) ==> lists_path(r@, p@),
        0 <= i < policy.path_permissions@.len() ==> lists_path(
            r@,
            policy.path_permissions@[i].path@,
        ),
        0 <= i < named@.len() ==> lists_path(r@, named@[i]@),
{
    let p = crate::windows::access::optional_path(*parent);
    let n = path_views(named@);
    lemma_lists_path(r@, cwd@);
    lemma_lists_path(r@, executable@);
    scopes_hold_everything_a_run_touches(cwd@, executable@, p, policy@, n, cwd@);
    scopes_hold_everything_a_run_touches(cwd@, executable@, p, policy@, n, executable@);
    if *parent is Some {
        lemma_lists_path(r@, parent->0@);
        scopes_hold_everything_a_run_touches(cwd@, executable@, p, policy@, n, parent->0@);
    }
    if 0 <= i < policy.path_permissions@.len() {
        let path = policy.path_permissions@[i].path@;
        assert(policy@.path_permissions[i].path == path);
        lemma_lists_path(r@, path);
        scopes_hold_everything_a_run_touches(cwd@, executable@, p, policy@, n, path);
    }
    if 0 <= i < named@.len() {
        assert(n[i] == named@[i]@);
        lemma_lists_path(r@, named@[i]@);
        scopes_hold_everything_a_run_touches(cwd@, executable@, p, policy@, n, named@[i]@);
    }
}

/// What a command may reach of an argument is the argument itself where it reads like a path, and
/// what it quotes where that does.
pub proof fn arguments_name_paths(argument: &str, r: Vec<String>, s: Seq<char>)
    requires
        call_ensures(command_argument_candidates, (argument,), r),
        !argument@.contains('\''),
    ensures
        (exists|k: int| 0 <= k < r@.len() && (#[trigger] r@[k])@ == s) <==> s == argument@
            && is_candidate(argument@),
{
    let t = texts(r@);
    let none = Seq::<Seq<char>>::empty();
    crate::windows::access::quoted_text_is_found(argument@, seq!['x'], Seq::empty());
    assert(seq![argument@] + none =~= seq![argument@]);
    crate::windows::access::candidates_are_picked_one_by_one(none, none, argument@);
    if exists|k: int| 0 <= k < r@.len() && (#[trigger] r@[k])@ == s {
        let k = choose|k: int| 0 <= k < r@.len() && (#[trigger] r@[k])@ == s;
        assert(t[k] == s);
    }
    if is_candidate(argument@) {
        assert(t[0] == argument@);
        assert(r@[0]@ == argument@);
    }
}

/// A container has the capabilities of the network exactly where its run has one.
pub proof fn containers_have_their_capabilities(
    policy: SandboxCoarseNetworkPolicy,
    r: Vec<String>,
    sid: Seq<char>,
)
    requires
        call_ensures(network_capabilities, (policy,), r),
    ensures
        (exists|k: int| 0 <= k < r@.len() && (#[trigger] r@[k])@ == sid) <==> policy
            != SandboxCoarseNetworkPolicy::Disabled && (sid == "S-1-15-3-1"@ || sid
            == "S-1-15-3-2"@ || sid == "S-1-15-3-3"@),
{
    let t = texts(r@);
    capabilities_are_those_of_the_network(policy, sid);
    if exists|k: int| 0 <= k < r@.len() && (#[trigger] r@[k])@ == sid {
        let k = choose|k: int| 0 <= k < r@.len() && (#[trigger] r@[k])@ == sid;
        assert(t[k] == sid);
    }
    if t.contains(sid) {
        let k = choose|k: int| 0 <= k < t.len() && t[k] == sid;
        assert(r@[k]@ == sid);
    }
}

/// Progress that cannot be read is told apart from progress that is not there.
pub proof fn unread_progress_is_told(failure: &IoFailure, r: String)
    requires
        call_ensures(unread_progress, (failure,), r),
    ensures
        failure.kind == IoFailureKind::NotFound ==> r@ == "(progress file missing)"@,
        failure.kind != IoFailureKind::NotFound ==> r@ == "(failed to read progress file: "@
            + failure.message@ + ")"@,
{
}

/// Every tool that reaches the network is stubbed under both extensions.
pub proof fn network_tools_are_stubbed(r: Vec<String>, tool: Seq<char>)
    requires
        call_ensures(deny_stub_names, (), r),
        tool == "ssh"@ || tool == "scp"@ || tool == "sftp"@ || tool == "ftp"@ || tool == "telnet"@
            || tool == "nc"@ || tool == "ncat"@,
    ensures
        exists|k: int| 0 <= k < r@.len() && (#[trigger] r@[k])@ == tool + ".bat"@,
        exists|k: int| 0 <= k < r@.len() && (#[trigger] r@[k])@ == tool + ".cmd"@,
{
    let tools = crate::windows::environment::stub_tools();
    let none = Seq::<Seq<char>>::empty();
    crate::windows::environment::every_tool_has_its_stubs(none, none, tool);
    let i = choose|i: int| 0 <= i < tools.len() && tools[i] == tool;
    let a = tools.take(i);
    let b = tools.subrange(i + 1, tools.len() as int);
    assert(tools =~= a + seq![tool] + b);
    crate::windows::environment::every_tool_has_its_stubs(a, seq![tool], tool);
    crate::windows::environment::every_tool_has_its_stubs(a + seq![tool], b, tool);
    let t = texts(r@);
    let at = crate::windows::environment::stub_files(a).len() as int;
    assert(t.len() == r@.len());
    assert(t[at] == tool + ".bat"@);
    assert(t[at + 1] == tool + ".cmd"@);
    assert(r@[at]@ == tool + ".bat"@);
    assert(r@[at + 1]@ == tool + ".cmd"@);
}

/// A variable is found under its own spelling first, and else under another one.
pub proof fn variables_are_found_in_any_case(env: &EnvMap, key: &str, r: Option<String>)
    requires
        call_ensures(get_env_case_insensitive, (env, key), r),
    ensures
        env@.contains_key(key@) ==> r is Some && r->0@ == env@[key@],
        r is Some <==> exists|k: Seq<char>| #[trigger]
            env@.dom().contains(k) && same_ignoring_case(k, key@),
        r matches Some(v) ==> exists|k: Seq<char>| #[trigger]
            env@.dom().contains(k) && same_ignoring_case(k, key@) && env@[k] == v@,
{
    assert(same_ignoring_case(key@, key@));
}

/// Of some paths exactly those are kept that lie below none of the roots.
pub proof fn paths_below_roots_are_dropped(
    paths: &Vec<SandboxPath>,
    roots: &Vec<SandboxPath>,
    r: Vec<SandboxPath>,
    path: Seq<u8>,
)
    requires
        call_ensures(filter_paths_not_under_roots, (paths, roots), r),
    ensures
        lists_path(r@, path) <==> lists_path(paths@, path) && forall|k: int|
            0 <= k < roots@.len() ==> !is_below(PathStyle::Windows, path, (#[trigger] roots@[k])@),
{
    let v = path_views(roots@);
    lemma_lists_path(r@, path);
    lemma_lists_path(paths@, path);
    lemma_outside(path_views(paths@), v);
    assert(crate::windows::access::outside(path_views(paths@), v).contains(path)
        <==> path_views(paths@).contains(path) && !is_under(path, v));
    if is_under(path, v) {
        let k = choose|k: int|
            0 <= k < v.len() && is_below(PathStyle::Windows, path, #[trigger] v[k]);
        assert(v[k] == roots@[k]@);
    } else {
        assert forall|k: int| 0 <= k < roots@.len() implies !is_below(
            PathStyle::Windows,
            path,
            (#[trigger] roots@[k])@,
        ) by {
            assert(v[k] == roots@[k]@);
        }
    }
}

/// What stands between two quotation marks is found as one segment.
pub proof fn quoted_segments_are_found(input: &str, r: Vec<String>, before: Seq<char>, inner: Seq<char>)
    requires
        call_ensures(single_quoted_segments, (input,), r),
        !before.contains('\''),
        !inner.contains('\''),
        inner.len() > 0,
        input@ == before + seq!['\''] + inner + seq!['\''] + Seq::<char>::empty(),
    ensures
        r@.len() == 1,
        r@[0]@ == inner,
{
    let none = Seq::<char>::empty();
    crate::windows::access::quoted_text_is_found(before, inner, none);
    let t = texts(r@);
    assert(t.len() == r@.len());
    assert(t =~= seq![inner]);
    assert(t[0] == r@[0]@);
}

/// An audit looks at every path that a run is allowed, at its directory, and at each part of its
/// search path that is not blank.
pub proof fn audits_gather_everything(
    allowed: &Vec<SandboxPath>,
    env: &EnvMap,
    cwd: &SandboxPath,
    process_path: &Option<String>,
    r: Vec<SandboxPath>,
    i: int,
)
    requires
        call_ensures(gather_candidates, (allowed, env, cwd, process_path), r),
    ensures
        ({
            let mode = PathKeyMode::AsciiCaseInsensitive;
            let looked_at = |p: Seq<u8>|
                exists|k: int|
                    0 <= k < r@.len() && text_key(mode, (#[trigger] r@[k])@) == text_key(mode, p);
            &&& looked_at(cwd@)
            &&& 0 <= i < allowed@.len() ==> looked_at(allowed@[i]@)
        }),
{
    let mode = PathKeyMode::AsciiCaseInsensitive;
    let a = path_views(allowed@);
    let search = crate::windows::process::exact_value(
        env@,
        "PATH"@,
        crate::windows::environment::optional_text(*process_path),
        Seq::empty(),
    );
    lemma_looked_at(r@, mode, cwd@);
    audits_look_everywhere(a, cwd@, search, cwd@);
    if 0 <= i < allowed@.len() {
        assert(a[i] == allowed@[i]@);
        assert(a.contains(allowed@[i]@));
        lemma_looked_at(r@, mode, allowed@[i]@);
        audits_look_everywhere(a, cwd@, search, allowed@[i]@);
    }
}

proof fn lemma_looked_at(r: Seq<SandboxPath>, mode: PathKeyMode, p: Seq<u8>)
    ensures
        has_key(mode, path_views(r), text_key(mode, p)) ==> exists|k: int|
            0 <= k < r.len() && text_key(mode, (#[trigger] r[k])@) == text_key(mode, p),
{
    let v = path_views(r);
    if has_key(mode, v, text_key(mode, p)) {
        let k = choose|k: int|
            0 <= k < v.len() && text_key(mode, #[trigger] v[k]) == text_key(mode, p);
        assert(v[k] == r[k]@);
    }
}

/// The block of a new process holds every variable of its environment.
pub proof fn new_processes_get_their_variables(
    env: &EnvMap,
    names: &Vec<String>,
    parent: &Vec<Option<String>>,
    r: Vec<u16>,
    merged: EnvMap,
    block: Vec<u16>,
)
    requires
        call_ensures(environment_block_for_create_process, (env, names, parent), r),
        call_ensures(merge_required, (env, names, parent), merged),
        call_ensures(make_env_block, (&merged,), block),
        names.len() == parent.len(),
    ensures
        r@ == block@,
{
    let v = choose|v: Seq<(Seq<char>, Seq<char>)>| #[trigger]
        lists(merged@, v) && r@ == block_of(v);
    let w = choose|w: Seq<(Seq<char>, Seq<char>)>| #[trigger]
        lists(merged@, w) && block@ == block_of(w);
    environment_has_one_block(merged@, v, w);
}

/// The attributes of a process are set in order, and its job last; without the ban it starts over
/// only where the ban is not to be had.
pub proof fn attributes_are_set_in_order(
    attribute: ProcessAttribute,
    degraded: bool,
    failure: &Option<(i32, String)>,
    r: AttributeStep,
)
    requires
        call_ensures(following_attribute, (attribute, degraded, failure), r),
    ensures
        r is Done <==> attribute == ProcessAttribute::JobList && failure is None,
        r is StartOver <==> attribute == ProcessAttribute::ChildPolicy && failure is Some && ((
        failure->0).0 == 5 || (failure->0).0 == 24 || (failure->0).0 == 50 || (failure->0).0 == 87),
        attribute == ProcessAttribute::Security && failure is None ==> r@
            == AttributeStepView::Next(
            if degraded {
                ProcessAttribute::JobList
            } else {
                ProcessAttribute::ChildPolicy
            },
        ),
        attribute == ProcessAttribute::ChildPolicy && failure is None ==> r@
            == AttributeStepView::Next(ProcessAttribute::JobList),
{
}

/// A process is started with its streams and its attributes, in a window that is not shown, and with
/// its child processes banned.
pub proof fn processes_are_started_unseen(r: ProcessStart)
    requires
        call_ensures(process_start, (), r),
    ensures
        r.startup_flags == 0x100 + 0x1,
        r.show_window == 0,
        r.creation_flags == 0x80000 + 0x400,
        r.inherits_handles,
        r.child_policy == 1,
{
}

/// The modes of the network rules by the networks of runs.
pub proof fn modes_follow_the_network(
    policy: SandboxCoarseNetworkPolicy,
    mode: NetworkRuleMode,
    code: i32,
)
    requires
        call_ensures(NetworkRuleMode::for_policy, (policy,), mode),
        call_ensures(NetworkRuleMode::as_int, (mode,), code),
    ensures
        policy == SandboxCoarseNetworkPolicy::Disabled ==> code == 1,
        policy == SandboxCoarseNetworkPolicy::OutboundOnly ==> code == 2,
        policy == SandboxCoarseNetworkPolicy::Bidirectional ==> code == 3,
{
}

/// A helper that failed, too, is told behind the failure that called for it.
pub proof fn both_failures_are_told(
    failure: &WfpStatusError,
    helper: &SandboxError,
    r: SandboxError,
    own: SandboxError,
    first: String,
    second: String,
)
    requires
        call_ensures(failed_elevation, (failure, helper), r),
        call_ensures(WfpStatusError::into_sandbox_error, (failure,), own),
        call_ensures(SandboxError::message, (&own,), first),
        call_ensures(SandboxError::message, (helper,), second),
    ensures
        r@ == ErrorView::Denied(
            first@ + "; automatic administrator elevation failed: "@ + second@,
        ),
{
}

/// A name holds what it is for and both of its numbers.
pub proof fn names_are_made_of_their_parts(
    purpose: NamePurpose,
    pid: u32,
    nonce: u32,
    r: String,
)
    requires
        call_ensures(name_for, (purpose, pid, nonce), r),
    ensures
        purpose == NamePurpose::Container ==> r@ == "procwarden_"@ + decimal(pid as nat) + "_"@
            + decimal(nonce as nat),
        purpose == NamePurpose::HelperDirectory ==> r@ == "procwarden-elevated-ops-"@ + decimal(
            pid as nat,
        ) + "-"@ + decimal(nonce as nat),
        purpose == NamePurpose::HelperRules ==> r@ == "procwarden-elevated-all-"@ + decimal(
            pid as nat,
        ) + "-"@ + decimal(nonce as nat),
        purpose == NamePurpose::FirewallDirectory ==> r@ == "procwarden-elevated-wfp-"@ + decimal(
            pid as nat,
        ) + "-"@ + decimal(nonce as nat),
        purpose == NamePurpose::FirewallRules ==> r@ == "procwarden-elevated-"@ + decimal(
            pid as nat,
        ) + "-"@ + decimal(nonce as nat),
{
}

} // verus!
