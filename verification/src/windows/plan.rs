//! The course of a run on Windows.
use vstd::prelude::*;

use crate::error::{ErrorView, SandboxError};
use crate::path::{path_views, SandboxPath};
use crate::path_policy::{text_key, PathKeyMode};
use crate::policy::{
    coarse_shape, SandboxCoarseNetworkPolicy, SandboxNetworkPolicy, SandboxPolicy,
};
use crate::windows::access::{
    append_paths, copy_paths, resolve_acl_conflicts, without_conflicts, writing_settles_conflicts,
    AclPlan, AclView,
};
use crate::windows::elevated::NetworkRuleMode;

verus! {

/// The error for a network policy that has no coarse shape.
pub open spec fn custom_network_error() -> ErrorView {
    ErrorView::Unavailable(
        "windows backend only supports SandboxNetworkPolicy::disabled(), ::outbound_only(), or ::bidirectional()"@,
    )
}

/// The coarse shape of a policy's network part; other shapes cannot be enforced on Windows.
pub fn validate_policy_shape(policy: &SandboxPolicy) -> (r: Result<
    SandboxCoarseNetworkPolicy,
    SandboxError,
>)
    ensures
        match r {
            Ok(shape) => coarse_shape(policy.network_policy) == Some(shape),
            Err(e) => coarse_shape(policy.network_policy) is None && e@ == custom_network_error(),
        },
{
    match policy.network_policy.coarse_policy() {
        Some(shape) => Ok(shape),
        None => Err(
            SandboxError::Unavailable(
                "windows backend only supports SandboxNetworkPolicy::disabled(), ::outbound_only(), or ::bidirectional()".to_owned(),
            ),
        ),
    }
}

/// Who sets up access lists and the network.
#[derive(Debug, PartialEq, Eq)]
pub enum SetupCourse {
    /// The helper, with this plan and this network mode.
    Helper { plan: AclPlan, mode: NetworkRuleMode },
    /// The process itself, with this plan; it also blocks the network, where that is asked for.
    Own { plan: AclPlan, block_network: bool },
}

/// The helper is needed by a process without the rights of an administrator, and for every run
/// with network.
pub open spec fn needs_helper(is_elevated: bool, network: SandboxCoarseNetworkPolicy) -> bool {
    !is_elevated || network != SandboxCoarseNetworkPolicy::Disabled
}

/// The plan that the helper carries out: with the paths that the program needs to start.
pub open spec fn helper_plan(plan: AclView, bootstrap: Seq<Seq<u8>>) -> AclView {
    without_conflicts(AclView { allow_readonly: plan.allow_readonly + bootstrap, ..plan })
}

/// The mathematical value of a course.
pub enum CourseView {
    Helper(AclView, NetworkRuleMode),
    Own(AclView, bool),
}

impl View for SetupCourse {
    type V = CourseView;

    open spec fn view(&self) -> CourseView {
        match *self {
            SetupCourse::Helper { plan, mode } => CourseView::Helper(plan@, mode),
            SetupCourse::Own { plan, block_network } => CourseView::Own(plan@, block_network),
        }
    }
}

/// What the helper does for a coarse network policy.
pub open spec fn mode_for(network: SandboxCoarseNetworkPolicy) -> NetworkRuleMode {
    match network {
        SandboxCoarseNetworkPolicy::Disabled => NetworkRuleMode::BlockAll,
        SandboxCoarseNetworkPolicy::OutboundOnly => NetworkRuleMode::OutboundOnly,
        SandboxCoarseNetworkPolicy::Bidirectional => NetworkRuleMode::Bidirectional,
    }
}

/// Who sets up access lists and the network, and with which plan.
pub open spec fn planned_course(
    plan: AclView,
    bootstrap: Seq<Seq<u8>>,
    is_elevated: bool,
    network: SandboxCoarseNetworkPolicy,
) -> CourseView {
    if needs_helper(is_elevated, network) {
        CourseView::Helper(helper_plan(plan, bootstrap), mode_for(network))
    } else {
        CourseView::Own(plan, network == SandboxCoarseNetworkPolicy::Disabled)
    }
}

/// Who sets up access lists and the network, and with which plan. `bootstrap` are the paths that
/// the program needs to start.
pub fn setup_course(
    plan: AclPlan,
    bootstrap: &Vec<SandboxPath>,
    is_elevated: bool,
    network: SandboxCoarseNetworkPolicy,
) -> (r: SetupCourse)
    ensures
        r@ == planned_course(plan@, path_views(bootstrap@), is_elevated, network),
{
    let disabled = match network {
        SandboxCoarseNetworkPolicy::Disabled => true,
        _ => false,
    };
    if !is_elevated || !disabled {
        let mut readable = copy_paths(&plan.allow_readonly_paths);
        append_paths(&mut readable, bootstrap);
        let extended = AclPlan {
            deny_access_paths: plan.deny_access_paths,
            allow_readonly_paths: readable,
            allow_readwrite_paths: plan.allow_readwrite_paths,
            deny_write_paths: plan.deny_write_paths,
        };
        SetupCourse::Helper {
            plan: resolve_acl_conflicts(extended),
            mode: NetworkRuleMode::for_policy(network),
        }
    } else {
        SetupCourse::Own { plan, block_network: !network.allows_ip_network() }
    }
}

/// Whether the helper is asked to allow connections to the own machine.
pub fn wants_loopback_server(mode: NetworkRuleMode) -> (r: bool)
    ensures
        r == (mode == NetworkRuleMode::Bidirectional),
{
    match mode {
        NetworkRuleMode::Bidirectional => true,
        _ => false,
    }
}

/// The course blocks connections to the outside.
pub open spec fn blocks_connections(course: CourseView) -> bool {
    match course {
        CourseView::Helper(_, mode) => mode == NetworkRuleMode::BlockAll,
        CourseView::Own(_, block_network) => block_network,
    }
}

/// Connections are blocked exactly in runs without network, by the helper or by the process
/// itself.
pub proof fn exactly_disabled_networks_are_blocked(
    plan: AclView,
    bootstrap: Seq<Seq<u8>>,
    is_elevated: bool,
    network: SandboxCoarseNetworkPolicy,
)
    ensures
        blocks_connections(planned_course(plan, bootstrap, is_elevated, network)) <==> network
            == SandboxCoarseNetworkPolicy::Disabled,
{
}

/// Denied paths stay denied, whoever sets up the access lists.
pub proof fn every_course_denies_the_same_paths(
    plan: AclView,
    bootstrap: Seq<Seq<u8>>,
    is_elevated: bool,
    network: SandboxCoarseNetworkPolicy,
)
    ensures
        match planned_course(plan, bootstrap, is_elevated, network) {
            CourseView::Helper(p, _) => p.deny_access == plan.deny_access,
            CourseView::Own(p, _) => p.deny_access == plan.deny_access,
        },
{
}

/// A process sets things up by itself exactly where it has the rights of an administrator and the
/// run has no network. It then follows the plan as it is.
pub proof fn only_administrators_go_without_helper(
    plan: AclView,
    bootstrap: Seq<Seq<u8>>,
    is_elevated: bool,
    network: SandboxCoarseNetworkPolicy,
)
    ensures
        planned_course(plan, bootstrap, is_elevated, network) is Own <==> is_elevated && network
            == SandboxCoarseNetworkPolicy::Disabled,
        planned_course(plan, bootstrap, is_elevated, network) matches CourseView::Own(p, block)
            ==> p == plan && block,
{
}

/// A helper follows the plan, and lets what it needs to start the run be read where it cannot be
/// written anyway. It opens the network as far as the run does.
pub proof fn helpers_follow_the_plan(
    plan: AclView,
    bootstrap: Seq<Seq<u8>>,
    is_elevated: bool,
    network: SandboxCoarseNetworkPolicy,
    p: Seq<u8>,
)
    ensures
        ({
            let mode = PathKeyMode::AsciiCaseInsensitive;
            let writable = exists|k: int|
                0 <= k < plan.allow_readwrite.len() && text_key(
                    mode,
                    #[trigger] plan.allow_readwrite[k],
                ) == text_key(mode, p);
            planned_course(plan, bootstrap, is_elevated, network) matches CourseView::Helper(h, m)
                ==> {
                &&& h.deny_access == plan.deny_access
                &&& h.allow_readwrite == plan.allow_readwrite
                &&& h.deny_write.contains(p) <==> plan.deny_write.contains(p) && !writable
                &&& h.allow_readonly.contains(p) <==> (plan.allow_readonly.contains(p)
                    || bootstrap.contains(p)) && !writable
                &&& m == match network {
                    SandboxCoarseNetworkPolicy::Disabled => NetworkRuleMode::BlockAll,
                    SandboxCoarseNetworkPolicy::OutboundOnly => NetworkRuleMode::OutboundOnly,
                    SandboxCoarseNetworkPolicy::Bidirectional => NetworkRuleMode::Bidirectional,
                }
            }
        }),
{
    let both = plan.allow_readonly + bootstrap;
    writing_settles_conflicts(AclView { allow_readonly: both, ..plan }, p);
    if both.contains(p) {
        let i = choose|i: int| 0 <= i < both.len() && both[i] == p;
        if i < plan.allow_readonly.len() {
            assert(plan.allow_readonly[i] == p);
        } else {
            assert(bootstrap[i - plan.allow_readonly.len()] == p);
        }
    }
    if plan.allow_readonly.contains(p) {
        let i = choose|i: int| 0 <= i < plan.allow_readonly.len() && plan.allow_readonly[i] == p;
        assert(both[i] == p);
    }
    if bootstrap.contains(p) {
        let i = choose|i: int| 0 <= i < bootstrap.len() && bootstrap[i] == p;
        assert(both[plan.allow_readonly.len() + i] == p);
    }
}

/// What is said of a network that has no coarse shape.
pub proof fn shapeless_networks_are_unavailable()
    ensures
        custom_network_error() == ErrorView::Unavailable(
            "windows backend only supports SandboxNetworkPolicy::disabled(), ::outbound_only(), or ::bidirectional()"@,
        ),
{
}

} // verus!
