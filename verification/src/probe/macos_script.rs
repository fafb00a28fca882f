//! What is probed on macOS.
use vstd::prelude::*;

use crate::path::PathStyle;
use crate::policy::{
    bidirectional_network, disabled_network, outbound_network, permission_views, PolicyView,
    SandboxDefaultAccess, SandboxNetworkPolicy, SandboxPathAccess, SandboxPathPermission,
    SandboxPolicy,
};
use crate::probe::commands::{
    child_of, child_path, read_command, read_file, write_command, write_file,
};
use crate::probe::script::{
    make_rule, no_lines, plain_step, policy_of_one, probe_policy, push_step, rule, script_view,
    step, Fixture, ProbeStep, StepView,
};
use crate::text::texts;

verus! {

/// A read-only default with writable directories, one of them in another spelling, a read-only
/// one and a denied one.
pub open spec fn mixed_policy(f: Fixture) -> PolicyView {
    probe_policy(
        SandboxDefaultAccess::ReadOnly,
        disabled_network(),
        seq![
            rule(f.runtime_cwd@, SandboxPathAccess::ReadWrite),
            rule(f.alias_rw_dir@, SandboxPathAccess::ReadWrite),
            rule(f.ro_dir@, SandboxPathAccess::ReadOnly),
            rule(f.deny_dir@, SandboxPathAccess::Deny),
        ],
    )
}

/// The steps that show what is enforced on macOS.
pub open spec fn enforcement_script(f: Fixture) -> Seq<StepView> {
    let u = PathStyle::Unix;
    let none = Seq::<Seq<char>>::empty();
    seq![
        plain_step(
            "macos writable carve-out"@,
            write_file(
                u,
                child_of(u, f.rw_dir@, "macos-overlay-write.txt"@),
                "seatbelt-ok"@,
            ),
            mixed_policy(f),
            true,
            none,
        ),
        plain_step(
            "macos readonly enforcement"@,
            write_file(u, child_of(u, f.ro_dir@, "macos-readonly-blocked.txt"@), "blocked"@),
            mixed_policy(f),
            false,
            none,
        ),
        plain_step(
            "macos deny enforcement"@,
            read_file(u, f.deny_seed@),
            mixed_policy(f),
            false,
            none,
        ),
    ]
}

/// The steps that show what is enforced on macOS.
pub fn macos_enforcement_steps(f: &Fixture) -> (r: Vec<ProbeStep>)
    ensures
        script_view(r@) == enforcement_script(*f),
{
    let u = PathStyle::Unix;
    let mut rules: Vec<SandboxPathPermission> = Vec::new();
    rules.push(make_rule(&f.runtime_cwd, SandboxPathAccess::ReadWrite));
    rules.push(make_rule(&f.alias_rw_dir, SandboxPathAccess::ReadWrite));
    rules.push(make_rule(&f.ro_dir, SandboxPathAccess::ReadOnly));
    rules.push(make_rule(&f.deny_dir, SandboxPathAccess::Deny));
    assert(permission_views(rules@) =~= mixed_policy(*f).path_permissions);
    let policy = SandboxPolicy {
        path_permissions: rules,
        default_access: SandboxDefaultAccess::ReadOnly,
        network_policy: SandboxNetworkPolicy::disabled(),
    };
    let writable = child_path(u, &f.rw_dir, "macos-overlay-write.txt");
    let read_only = child_path(u, &f.ro_dir, "macos-readonly-blocked.txt");
    let mut v: Vec<ProbeStep> = Vec::new();
    push_step(
        &mut v,
        step(
            "macos writable carve-out",
            write_command(u, &writable, "seatbelt-ok"),
            &policy,
            true,
            no_lines(),
        ),
    );
    push_step(
        &mut v,
        step(
            "macos readonly enforcement",
            write_command(u, &read_only, "blocked"),
            &policy,
            false,
            no_lines(),
        ),
    );
    push_step(
        &mut v,
        step(
            "macos deny enforcement",
            read_command(u, &f.deny_seed),
            &policy,
            false,
            no_lines(),
        ),
    );
    assert(script_view(v@) =~= enforcement_script(*f));
    v
}

/// A network policy that is tried, and what its result is printed as.
#[derive(Debug, PartialEq, Eq)]
pub struct NetworkCase {
    pub key: String,
    pub policy: SandboxPolicy,
}

impl View for NetworkCase {
    type V = (Seq<char>, PolicyView);

    open spec fn view(&self) -> (Seq<char>, PolicyView) {
        (self.key@, self.policy@)
    }
}

/// The values of a list of network cases.
pub open spec fn network_case_views(v: Seq<NetworkCase>) -> Seq<(Seq<char>, PolicyView)> {
    Seq::new(v.len(), |i: int| v[i]@)
}

/// A read-only default with a writable working directory and a network policy.
pub open spec fn network_policy(f: Fixture, network: SandboxNetworkPolicy) -> PolicyView {
    probe_policy(
        SandboxDefaultAccess::ReadOnly,
        network,
        seq![rule(f.runtime_cwd@, SandboxPathAccess::ReadWrite)],
    )
}

/// A network policy without a coarse shape.
pub open spec fn ipv4_sockets_only() -> SandboxNetworkPolicy {
    SandboxNetworkPolicy {
        allow_unix: true,
        allow_ipv4: true,
        allow_ipv6: false,
        allow_connect: false,
        allow_bind: false,
        allow_listen: false,
        allow_accept: false,
    }
}

/// The network policies that are tried on macOS: the three coarse shapes, and one that has none.
pub open spec fn network_script(f: Fixture) -> Seq<(Seq<char>, PolicyView)> {
    seq![
        ("macos.network.disabled.runnable="@, network_policy(f, disabled_network())),
        ("macos.network.outbound_only.runnable="@, network_policy(f, outbound_network())),
        ("macos.network.bidirectional.runnable="@, network_policy(f, bidirectional_network())),
        ("macos.network.custom_ipv4_only="@, network_policy(f, ipv4_sockets_only())),
    ]
}

/// A case with a network policy.
pub fn network_case(key: &str, f: &Fixture, network: SandboxNetworkPolicy) -> (r: NetworkCase)
    ensures
        r@ == (key@, network_policy(*f, network)),
{
    NetworkCase {
        key: key.to_owned(),
        policy: policy_of_one(
            SandboxDefaultAccess::ReadOnly,
            network,
            make_rule(&f.runtime_cwd, SandboxPathAccess::ReadWrite),
        ),
    }
}

/// The network policies that are tried on macOS.
pub fn macos_network_cases(f: &Fixture) -> (r: Vec<NetworkCase>)
    ensures
        network_case_views(r@) == network_script(*f),
{
    let custom = SandboxNetworkPolicy {
        allow_unix: true,
        allow_ipv4: true,
        allow_ipv6: false,
        allow_connect: false,
        allow_bind: false,
        allow_listen: false,
        allow_accept: false,
    };
    let mut v: Vec<NetworkCase> = Vec::new();
    v.push(network_case("macos.network.disabled.runnable=", f, SandboxNetworkPolicy::disabled()));
    v.push(
        network_case(
            "macos.network.outbound_only.runnable=",
            f,
            SandboxNetworkPolicy::outbound_only(),
        ),
    );
    v.push(
        network_case(
            "macos.network.bidirectional.runnable=",
            f,
            SandboxNetworkPolicy::bidirectional(),
        ),
    );
    v.push(network_case("macos.network.custom_ipv4_only=", f, custom));
    assert(network_case_views(v@) =~= network_script(*f));
    v
}

/// What is printed at the end of the probe on macOS.
pub fn macos_summary() -> (r: Vec<String>)
    ensures
        texts(r@) == seq![
            "macos.readonly_plus_readwrite=usable"@,
            "macos.path_deny=usable"@,
            "macos.alias_path_canonicalization=ok"@,
        ],
{
    let mut r: Vec<String> = Vec::new();
    r.push("macos.readonly_plus_readwrite=usable".to_owned());
    r.push("macos.path_deny=usable".to_owned());
    r.push("macos.alias_path_canonicalization=ok".to_owned());
    assert(texts(r@) =~= seq![
        "macos.readonly_plus_readwrite=usable"@,
        "macos.path_deny=usable"@,
        "macos.alias_path_canonicalization=ok"@,
    ]);
    r
}

} // verus!
