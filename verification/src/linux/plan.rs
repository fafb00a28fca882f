//! Everything that a run on Linux sets up, worked out before the process starts.
use vstd::prelude::*;

use crate::error::{ErrorView, IoFailure, IoFailureKind, SandboxError};
use crate::linux::filter::{
    compile_network_filter, denying_program, is_supported_architecture, network_denials,
    unsupported_architecture, FamilyTable, SyscallTable,
};
use crate::linux::mounts::{
    file_rule_views, file_rules, file_rules_open_exactly_the_roots, read_only_ruleset, FileRuleset,
};
use crate::linux::overlays::{
    collect_deny_overlay_entries, collect_readwrite_overlay_entries, context_label,
    denial_wins_over_read_only, deny_overlays, has_overlay, missing_targets_are_refused, names_path,
    normalize_existing_overlay_paths, only_denied_paths_are_covered, overlay_context_label,
    overlay_probe_views, overlay_targets, overlay_views, readwrite_overlays, OverlayProbe,
    OverlayView, ReadWriteOverlayEntry, ReadWriteOverlayKind,
};
use crate::linux::process::ErrnoTable;
use crate::path::{path_key, path_views, PathStyle};
use crate::policy::{
    listed_paths_are_those_of_the_rules, paths_with, PermissionView, PolicyView,
    SandboxDefaultAccess, SandboxPathAccess, SandboxPolicy,
};

verus! {

/// What a Linux system and its processor call things.
#[derive(Debug, PartialEq, Eq)]
pub struct LinuxNumbers {
    pub calls: SyscallTable,
    pub families: FamilyTable,
    pub errno: ErrnoTable,
    pub architecture: String,
}

/// Everything that a run on Linux sets up.
#[derive(Debug, PartialEq, Eq)]
pub struct LinuxPlan {
    /// The paths that are covered by mounts, in this order.
    pub overlays: Vec<ReadWriteOverlayEntry>,
    /// The file rules, where the default is read-only.
    pub file_rules: Option<FileRuleset>,
    /// The compiled system call filter, where the network policy needs one. Where none can be made,
    /// the new process fails with this failure, behind its mounts and file rules and before it
    /// runs the command.
    pub filter: Result<Option<Vec<(u16, u8, u8, u32)>>, IoFailure>,
}

/// The paths of the rules with one access.
pub open spec fn rule_paths(rules: Seq<PermissionView>, access: SandboxPathAccess) -> Seq<Seq<u8>> {
    paths_with(rules, set![access])
}

/// The mounts of a policy, or the error for the first path that cannot be covered. Read-only
/// paths are covered below a writable default only; below a read-only one they need no mount.
pub open spec fn planned_overlays(
    policy: PolicyView,
    read_only: Seq<(Seq<u8>, bool)>,
    denied: Seq<(Seq<u8>, bool)>,
) -> Result<Seq<OverlayView>, ErrorView> {
    let context = context_label(policy.default_access);
    let denied_targets = overlay_targets(
        rule_paths(policy.path_permissions, SandboxPathAccess::Deny),
        "deny"@,
        context,
        denied,
    );
    match policy.default_access {
        SandboxDefaultAccess::ReadWrite => match overlay_targets(
            rule_paths(policy.path_permissions, SandboxPathAccess::ReadOnly),
            "read_only"@,
            context,
            read_only,
        ) {
            Err(e) => Err(e),
            Ok(r) => match denied_targets {
                Err(e) => Err(e),
                Ok(d) => Ok(readwrite_overlays(r, d)),
            },
        },
        SandboxDefaultAccess::ReadOnly => match denied_targets {
            Err(e) => Err(e),
            Ok(d) => Ok(deny_overlays(d)),
        },
    }
}

/// The file rules of a plan are those of a policy.
pub open spec fn plans_file_rules(policy: PolicyView, rules: Option<FileRuleset>) -> bool {
    match policy.default_access {
        SandboxDefaultAccess::ReadWrite => rules is None,
        SandboxDefaultAccess::ReadOnly => rules matches Some(set) && set.handled == 0xffff
            && file_rule_views(set.rules@) == file_rules(
            rule_paths(policy.path_permissions, SandboxPathAccess::ReadWrite),
        ),
    }
}

/// The filter of a plan is that of a policy; for an architecture that no filter can be made for it
/// is a failure.
pub open spec fn plans_filter(
    policy: PolicyView,
    numbers: LinuxNumbers,
    filter: Result<Option<Vec<(u16, u8, u8, u32)>>, IoFailure>,
) -> bool {
    match network_denials(policy.network_policy, numbers.calls, numbers.families) {
        None => filter matches Ok(None),
        Some(denials) => if is_supported_architecture(numbers.architecture@) {
            filter matches Ok(Some(program)) && denying_program(
                denials,
                numbers.errno.eperm as u32,
                numbers.architecture@,
            ) == Some(program@)
        } else {
            filter matches Err(e) && e@ == (
                IoFailureKind::Unsupported,
                None::<i32>,
                unsupported_architecture(),
            )
        },
    }
}

/// Works out what a run on Linux sets up. One observation is handed in for each read-only and
/// for each denied path of the policy.
pub fn plan_linux_run(
    policy: &SandboxPolicy,
    read_only: &Vec<OverlayProbe>,
    denied: &Vec<OverlayProbe>,
    numbers: &LinuxNumbers,
) -> (r: Result<LinuxPlan, SandboxError>)
    requires
        read_only.len() == rule_paths(
            policy@.path_permissions,
            SandboxPathAccess::ReadOnly,
        ).len(),
        denied.len() == rule_paths(policy@.path_permissions, SandboxPathAccess::Deny).len(),
        numbers.errno.eperm >= 0,
    ensures
        match planned_overlays(
            policy@,
            overlay_probe_views(read_only@),
            overlay_probe_views(denied@),
        ) {
            Err(e) => r matches Err(x) && x@ == e,
            Ok(overlays) => r matches Ok(plan) && overlay_views(plan.overlays@) == overlays
                && plans_file_rules(policy@, plan.file_rules) && plans_filter(
                policy@,
                *numbers,
                plan.filter,
            ),
        },
{
    let context = overlay_context_label(policy.default_access);
    let read_only_paths = policy.read_only_paths();
    let denied_paths = policy.denied_paths();
    proof {
        assert(path_views(read_only_paths@).len() == read_only_paths.len());
        assert(path_views(denied_paths@).len() == denied_paths.len());
    }
    let overlays = match policy.default_access {
        SandboxDefaultAccess::ReadWrite => {
            let r = match normalize_existing_overlay_paths(
                &read_only_paths,
                "read_only",
                context,
                read_only,
            ) {
                Ok(paths) => paths,
                Err(e) => {
                    return Err(e);
                },
            };
            let d = match normalize_existing_overlay_paths(&denied_paths, "deny", context, denied) {
                Ok(paths) => paths,
                Err(e) => {
                    return Err(e);
                },
            };
            collect_readwrite_overlay_entries(&r, &d)
        },
        SandboxDefaultAccess::ReadOnly => {
            let d = match normalize_existing_overlay_paths(&denied_paths, "deny", context, denied) {
                Ok(paths) => paths,
                Err(e) => {
                    return Err(e);
                },
            };
            collect_deny_overlay_entries(&d)
        },
    };
    assert(overlay_views(overlays@).len() == overlays.len());
    let file_rules = if policy.default_write_access() {
        None
    } else {
        Some(read_only_ruleset(&policy.writable_paths()))
    };
    let filter = compile_network_filter(
        policy.network_policy,
        numbers.calls,
        numbers.families,
        numbers.errno.eperm as u32,
        numbers.architecture.as_str(),
    );
    Ok(LinuxPlan { overlays, file_rules, filter })
}

/// A run with every network permission is not filtered, and every other run is.
pub proof fn only_full_permission_is_unfiltered(policy: PolicyView, numbers: LinuxNumbers)
    ensures
        network_denials(policy.network_policy, numbers.calls, numbers.families) is None
            <==> policy.network_policy == crate::policy::bidirectional_network(),
{
}

/// A run that needs a filter gets one or fails: none goes on without it.
pub proof fn no_run_goes_on_without_its_filter(
    policy: PolicyView,
    numbers: LinuxNumbers,
    filter: Result<Option<Vec<(u16, u8, u8, u32)>>, IoFailure>,
)
    requires
        plans_filter(policy, numbers, filter),
    ensures
        filter matches Ok(None) <==> policy.network_policy == crate::policy::bidirectional_network(),
{
}

/// Every denied path of a policy that is accepted is covered by a mount that denies it.
pub proof fn every_denied_path_is_covered(
    policy: PolicyView,
    read_only: Seq<(Seq<u8>, bool)>,
    denied: Seq<(Seq<u8>, bool)>,
    overlays: Seq<OverlayView>,
    i: int,
)
    requires
        planned_overlays(policy, read_only, denied) == Ok::<Seq<OverlayView>, ErrorView>(overlays),
        0 <= i < denied.len(),
    ensures
        has_overlay(overlays, denied[i].0, ReadWriteOverlayKind::Deny),
{
    let r = Seq::new(read_only.len(), |k: int| read_only[k].0);
    let d = Seq::new(denied.len(), |k: int| denied[k].0);
    assert(d[i] == denied[i].0);
    assert(names_path(d, denied[i].0));
    match policy.default_access {
        SandboxDefaultAccess::ReadWrite => denial_wins_over_read_only(r, d, denied[i].0),
        SandboxDefaultAccess::ReadOnly => only_denied_paths_are_covered(d, denied[i].0),
    }
}

/// Below a writable default every read-only path of a policy that is accepted is covered by a
/// mount that denies it or takes writing away.
pub proof fn every_read_only_path_is_covered(
    policy: PolicyView,
    read_only: Seq<(Seq<u8>, bool)>,
    denied: Seq<(Seq<u8>, bool)>,
    overlays: Seq<OverlayView>,
    i: int,
)
    requires
        policy.default_access == SandboxDefaultAccess::ReadWrite,
        planned_overlays(policy, read_only, denied) == Ok::<Seq<OverlayView>, ErrorView>(overlays),
        0 <= i < read_only.len(),
    ensures
        has_overlay(overlays, read_only[i].0, ReadWriteOverlayKind::Deny) || has_overlay(
            overlays,
            read_only[i].0,
            ReadWriteOverlayKind::ReadOnly,
        ),
{
    let r = Seq::new(read_only.len(), |k: int| read_only[k].0);
    let d = Seq::new(denied.len(), |k: int| denied[k].0);
    assert(r[i] == read_only[i].0);
    assert(names_path(r, read_only[i].0));
    denial_wins_over_read_only(r, d, read_only[i].0);
}

/// A policy without subtractive rules needs no mounts: nothing depends on what the system allows.
pub proof fn additive_policies_need_no_mounts(
    policy: PolicyView,
    read_only: Seq<(Seq<u8>, bool)>,
    denied: Seq<(Seq<u8>, bool)>,
    overlays: Seq<OverlayView>,
)
    requires
        planned_overlays(policy, read_only, denied) == Ok::<Seq<OverlayView>, ErrorView>(overlays),
        denied.len() == 0,
        policy.default_access == SandboxDefaultAccess::ReadWrite ==> read_only.len() == 0,
    ensures
        overlays.len() == 0,
{
    if overlays.len() > 0 {
        let q = overlays[0].path;
        assert(has_overlay(overlays, q, overlays[0].kind));
        let r = Seq::new(read_only.len(), |k: int| read_only[k].0);
        let d = Seq::new(denied.len(), |k: int| denied[k].0);
        match policy.default_access {
            SandboxDefaultAccess::ReadWrite => denial_wins_over_read_only(r, d, q),
            SandboxDefaultAccess::ReadOnly => only_denied_paths_are_covered(d, q),
        }
    }
}

/// Below a read-only default a file rule that grants more than reading is for the null device or
/// for a path that the policy lets be written.
pub proof fn only_listed_paths_can_be_written(policy: PolicyView, rules: FileRuleset, k: int)
    requires
        policy.default_access == SandboxDefaultAccess::ReadOnly,
        plans_file_rules(policy, Some(rules)),
        0 <= k < rules.rules.len(),
        rules.rules@[k].rights != 13,
    ensures
        rules.rules@[k].path@ == vstd::utf8::encode_utf8("/dev/null"@) || rule_paths(
            policy.path_permissions,
            SandboxPathAccess::ReadWrite,
        ).contains(rules.rules@[k].path@),
{
    let roots = rule_paths(policy.path_permissions, SandboxPathAccess::ReadWrite);
    let views = file_rule_views(rules.rules@);
    assert(views[k] == rules.rules@[k]@);
    assert(views.len() == rules.rules@.len());
    if k >= 2 {
        assert(views[k].0 == roots[k - 2]);
    }
}

/// A plan is made exactly where every path that it has to cover exists: the denied ones always, and
/// the read-only ones below a writable default.
pub proof fn plans_need_their_targets(
    policy: PolicyView,
    read_only: Seq<(Seq<u8>, bool)>,
    denied: Seq<(Seq<u8>, bool)>,
)
    requires
        denied.len() == rule_paths(policy.path_permissions, SandboxPathAccess::Deny).len(),
        read_only.len() == rule_paths(policy.path_permissions, SandboxPathAccess::ReadOnly).len(),
    ensures
        planned_overlays(policy, read_only, denied) is Ok <==> {
            &&& forall|i: int| 0 <= i < denied.len() ==> (#[trigger] denied[i]).1
            &&& policy.default_access == SandboxDefaultAccess::ReadWrite ==> forall|i: int|
                0 <= i < read_only.len() ==> (#[trigger] read_only[i]).1
        },
{
    let context = context_label(policy.default_access);
    missing_targets_are_refused(
        rule_paths(policy.path_permissions, SandboxPathAccess::Deny),
        "deny"@,
        context,
        denied,
    );
    missing_targets_are_refused(
        rule_paths(policy.path_permissions, SandboxPathAccess::ReadOnly),
        "read_only"@,
        context,
        read_only,
    );
}

/// A plan covers nothing but the paths that it was given, each as its list says; a path on both
/// lists is denied.
pub proof fn plans_cover_nothing_else(
    policy: PolicyView,
    read_only: Seq<(Seq<u8>, bool)>,
    denied: Seq<(Seq<u8>, bool)>,
    overlays: Seq<OverlayView>,
    k: int,
)
    requires
        planned_overlays(policy, read_only, denied) == Ok::<Seq<OverlayView>, ErrorView>(overlays),
        0 <= k < overlays.len(),
    ensures
        overlays[k].kind == ReadWriteOverlayKind::Deny ==> exists|i: int|
            0 <= i < denied.len() && path_key(PathStyle::Unix, (#[trigger] denied[i]).0) == path_key(
                PathStyle::Unix,
                overlays[k].path,
            ),
        overlays[k].kind == ReadWriteOverlayKind::ReadOnly ==> policy.default_access
            == SandboxDefaultAccess::ReadWrite && exists|i: int|
            0 <= i < read_only.len() && path_key(PathStyle::Unix, (#[trigger] read_only[i]).0)
                == path_key(PathStyle::Unix, overlays[k].path),
{
    let q = overlays[k].path;
    let r = Seq::new(read_only.len(), |i: int| read_only[i].0);
    let d = Seq::new(denied.len(), |i: int| denied[i].0);
    assert(has_overlay(overlays, q, overlays[k].kind));
    match policy.default_access {
        SandboxDefaultAccess::ReadWrite => denial_wins_over_read_only(r, d, q),
        SandboxDefaultAccess::ReadOnly => only_denied_paths_are_covered(d, q),
    }
    if names_path(d, q) {
        let i = choose|i: int|
            0 <= i < d.len() && path_key(PathStyle::Unix, #[trigger] d[i]) == path_key(
                PathStyle::Unix,
                q,
            );
        assert(d[i] == denied[i].0);
    }
    if names_path(r, q) {
        let i = choose|i: int|
            0 <= i < r.len() && path_key(PathStyle::Unix, #[trigger] r[i]) == path_key(
                PathStyle::Unix,
                q,
            );
        assert(r[i] == read_only[i].0);
    }
}

/// Below a read-only default every path of a writable rule can be written; reading is open
/// everywhere, and every right that is not given is taken away.
pub proof fn writable_rules_are_opened(policy: PolicyView, rules: FileRuleset, i: int)
    requires
        policy.default_access == SandboxDefaultAccess::ReadOnly,
        plans_file_rules(policy, Some(rules)),
        0 <= i < policy.path_permissions.len(),
        policy.path_permissions[i].access == SandboxPathAccess::ReadWrite,
    ensures
        rules.handled == 0xffff,
        exists|k: int|
            0 <= k < rules.rules@.len() && (#[trigger] rules.rules@[k]).path@
                == policy.path_permissions[i].path && rules.rules@[k].rights == 0xffff,
        exists|k: int|
            0 <= k < rules.rules@.len() && (#[trigger] rules.rules@[k]).path@
                == vstd::utf8::encode_utf8("/"@) && rules.rules@[k].rights == 1 + 4 + 8,
{
    let roots = rule_paths(policy.path_permissions, SandboxPathAccess::ReadWrite);
    let views = file_rule_views(rules.rules@);
    let path = policy.path_permissions[i].path;
    listed_paths_are_those_of_the_rules(
        policy.path_permissions,
        set![SandboxPathAccess::ReadWrite],
        path,
    );
    assert(set![SandboxPathAccess::ReadWrite].contains(policy.path_permissions[i].access));
    assert(roots.contains(path));
    file_rules_open_exactly_the_roots(roots, path, 0xffff);
    file_rules_open_exactly_the_roots(roots, vstd::utf8::encode_utf8("/"@), 13);
    let k = choose|k: int| 0 <= k < views.len() && views[k] == (path, 0xffffu64);
    assert(views[k] == rules.rules@[k]@);
    let m = choose|m: int|
        0 <= m < views.len() && views[m] == (vstd::utf8::encode_utf8("/"@), 13u64);
    assert(views[m] == rules.rules@[m]@);
}

} // verus!
