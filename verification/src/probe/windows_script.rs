//! What is probed on Windows.
use vstd::prelude::*;

use crate::path::{PathStyle, SandboxPath};
use crate::policy::{
    bidirectional_network, disabled_network, outbound_network, permission_views, PermissionView,
    PolicyView, SandboxDefaultAccess, SandboxNetworkPolicy, SandboxPathAccess,
    SandboxPathPermission, SandboxPolicy,
};
use crate::probe::commands::{
    child_of, child_path, read_command, read_file, write_command, write_file,
};
use crate::probe::macos_script::{network_case, network_policy, NetworkCase};
use crate::probe::script::{
    labelled, labelled_step, make_rule, no_lines, one_line, plain_step, policy_of_three,
    policy_of_two, probe_policy, push_step, rule, script_view, skippable, skippable_step, step,
    Fixture, ProbeStep, SkipCondition, StepView,
};
use crate::text::{decimal, number, texts};

verus! {

/// How many times each timed case is run.
pub const TIMING_ITERATIONS: usize = 3;

/// What a run with a network policy tries.
#[derive(Debug, Clone, Copy, PartialEq, Eq, Structural)]
pub enum ProbeTarget {
    /// To do nothing.
    Nothing,
    /// To connect to the own machine.
    Loopback,
    /// To connect to the gateway of the private network.
    PrivateNetwork,
}

/// A run with a network policy, and what its result is printed as.
#[derive(Debug, PartialEq, Eq)]
pub struct NetworkStep {
    pub case: NetworkCase,
    pub target: ProbeTarget,
}

impl View for NetworkStep {
    type V = (Seq<char>, PolicyView, ProbeTarget);

    open spec fn view(&self) -> (Seq<char>, PolicyView, ProbeTarget) {
        (self.case.key@, self.case.policy@, self.target)
    }
}

/// The values of a list of runs.
pub open spec fn network_step_views(v: Seq<NetworkStep>) -> Seq<
    (Seq<char>, PolicyView, ProbeTarget),
> {
    Seq::new(v.len(), |i: int| v[i]@)
}

/// The runs with network policies: each coarse shape with each target.
pub open spec fn network_script(f: Fixture) -> Seq<(Seq<char>, PolicyView, ProbeTarget)> {
    let both = network_policy(f, bidirectional_network());
    let out = network_policy(f, outbound_network());
    let off = network_policy(f, disabled_network());
    seq![
        ("windows.network.bidirectional.runnable="@, both, ProbeTarget::Nothing),
        ("windows.network.outbound_only.runnable="@, out, ProbeTarget::Nothing),
        ("windows.network.disabled.runnable="@, off, ProbeTarget::Nothing),
        (
            "windows.network.loopback.same_binary_listener.bidirectional="@,
            both,
            ProbeTarget::Loopback,
        ),
        (
            "windows.network.loopback.same_binary_listener.outbound_only="@,
            out,
            ProbeTarget::Loopback,
        ),
        ("windows.network.loopback.same_binary_listener.disabled="@, off, ProbeTarget::Loopback),
        ("windows.network.private_network.bidirectional="@, both, ProbeTarget::PrivateNetwork),
        ("windows.network.private_network.outbound_only="@, out, ProbeTarget::PrivateNetwork),
        ("windows.network.private_network.disabled="@, off, ProbeTarget::PrivateNetwork),
    ]
}

fn push_network(
    v: &mut Vec<NetworkStep>,
    key: &str,
    f: &Fixture,
    network: SandboxNetworkPolicy,
    target: ProbeTarget,
)
    ensures
        network_step_views(final(v)@) == network_step_views(old(v)@).push(
            (key@, network_policy(*f, network), target),
        ),
{
    let ghost before = network_step_views(v@);
    let case = network_case(key, f, network);
    v.push(NetworkStep { case, target });
    assert(network_step_views(v@) =~= before.push((key@, network_policy(*f, network), target)));
}

/// The runs with network policies.
pub fn windows_network_steps(f: &Fixture) -> (r: Vec<NetworkStep>)
    ensures
        network_step_views(r@) == network_script(*f),
{
    let both = SandboxNetworkPolicy::bidirectional();
    let out = SandboxNetworkPolicy::outbound_only();
    let off = SandboxNetworkPolicy::disabled();
    let mut v: Vec<NetworkStep> = Vec::new();
    push_network(
        &mut v,
        "windows.network.bidirectional.runnable=",
        f,
        both,
        ProbeTarget::Nothing,
    );
    push_network(
        &mut v,
        "windows.network.outbound_only.runnable=",
        f,
        out,
        ProbeTarget::Nothing,
    );
    push_network(&mut v, "windows.network.disabled.runnable=", f, off, ProbeTarget::Nothing);
    push_network(
        &mut v,
        "windows.network.loopback.same_binary_listener.bidirectional=",
        f,
        both,
        ProbeTarget::Loopback,
    );
    push_network(
        &mut v,
        "windows.network.loopback.same_binary_listener.outbound_only=",
        f,
        out,
        ProbeTarget::Loopback,
    );
    push_network(
        &mut v,
        "windows.network.loopback.same_binary_listener.disabled=",
        f,
        off,
        ProbeTarget::Loopback,
    );
    push_network(
        &mut v,
        "windows.network.private_network.bidirectional=",
        f,
        both,
        ProbeTarget::PrivateNetwork,
    );
    push_network(
        &mut v,
        "windows.network.private_network.outbound_only=",
        f,
        out,
        ProbeTarget::PrivateNetwork,
    );
    push_network(
        &mut v,
        "windows.network.private_network.disabled=",
        f,
        off,
        ProbeTarget::PrivateNetwork,
    );
    assert(network_step_views(v@) =~= network_script(*f));
    v
}

/// What is printed where no gateway can be reached.
pub fn unreachable_gateway_lines() -> (r: Vec<String>)
    ensures
        texts(r@) == seq![
            "windows.network.private_network.host_baseline=skipped(no_reachable_default_gateway_target)"@,
            "windows.network.private_network.bidirectional=skipped(no_reachable_default_gateway_target)"@,
            "windows.network.private_network.outbound_only=skipped(no_reachable_default_gateway_target)"@,
            "windows.network.private_network.disabled=skipped(no_reachable_default_gateway_target)"@,
        ],
{
    let mut r: Vec<String> = Vec::new();
    r.push(
        "windows.network.private_network.host_baseline=skipped(no_reachable_default_gateway_target)".to_owned(),
    );
    r.push(
        "windows.network.private_network.bidirectional=skipped(no_reachable_default_gateway_target)".to_owned(),
    );
    r.push(
        "windows.network.private_network.outbound_only=skipped(no_reachable_default_gateway_target)".to_owned(),
    );
    r.push(
        "windows.network.private_network.disabled=skipped(no_reachable_default_gateway_target)".to_owned(),
    );
    assert(texts(r@) =~= seq![
        "windows.network.private_network.host_baseline=skipped(no_reachable_default_gateway_target)"@,
        "windows.network.private_network.bidirectional=skipped(no_reachable_default_gateway_target)"@,
        "windows.network.private_network.outbound_only=skipped(no_reachable_default_gateway_target)"@,
        "windows.network.private_network.disabled=skipped(no_reachable_default_gateway_target)"@,
    ]);
    r
}

/// What is printed where a gateway can be reached at this address and port.
pub fn reachable_gateway_lines(address: &str, port: u16) -> (r: Vec<String>)
    ensures
        texts(r@) == seq![
            "windows.network.private_network.target="@ + address@ + ":"@ + decimal(port as nat),
            "windows.network.private_network.host_baseline=connect_ok"@,
        ],
{
    let mut target = "windows.network.private_network.target=".to_owned();
    target.append(address);
    target.append(":");
    target.append(number(port as u128).as_str());
    let mut r: Vec<String> = Vec::new();
    r.push(target);
    r.push("windows.network.private_network.host_baseline=connect_ok".to_owned());
    assert(texts(r@) =~= seq![
        "windows.network.private_network.target="@ + address@ + ":"@ + decimal(port as nat),
        "windows.network.private_network.host_baseline=connect_ok"@,
    ]);
    r
}

/// The ports of a gateway that are tried, in this order.
pub fn gateway_ports() -> (r: Vec<u16>)
    ensures
        r@ == seq![53u16, 80u16, 443u16],
{
    let mut r: Vec<u16> = Vec::new();
    r.push(53);
    r.push(80);
    r.push(443);
    assert(r@ =~= seq![53u16, 80u16, 443u16]);
    r
}

/// A step whose error of the manager is reported with the step's own context.
pub open spec fn failing_step(
    context: Seq<char>,
    command: Seq<Seq<char>>,
    policy: PolicyView,
    line: Seq<char>,
) -> StepView {
    labelled_step(
        plain_step(context, command, policy, false, seq![line]),
        context + " returned unexpected manager error: "@,
    )
}

fn failing(context: &str, command: Vec<String>, policy: &SandboxPolicy, line: &str) -> (r:
    ProbeStep)
    ensures
        r@ == failing_step(context@, texts(command@), policy@, line@),
{
    let label = vstd::string::StringExecFns::concat(
        context.to_owned(),
        " returned unexpected manager error: ",
    );
    labelled(step(context, command, policy, false, one_line(line)), label.as_str())
}

/// A default with two rules.
pub open spec fn two_rules(
    default_access: SandboxDefaultAccess,
    a: PermissionView,
    b: PermissionView,
) -> PolicyView {
    probe_policy(default_access, disabled_network(), seq![a, b])
}

/// The results that need the filtering platform.
pub open spec fn filtering_results() -> Seq<Seq<char>> {
    seq![
        "windows.enforcement.readonly_readwrite"@,
        "windows.enforcement.readwrite_readonly"@,
        "windows.enforcement.readonly_deny"@,
        "windows.enforcement.readwrite_deny"@,
        "windows.timing.skipped_reason"@,
    ]
}

fn filtering_result_names() -> (r: Vec<String>)
    ensures
        texts(r@) == filtering_results(),
{
    let mut r: Vec<String> = Vec::new();
    r.push("windows.enforcement.readonly_readwrite".to_owned());
    r.push("windows.enforcement.readwrite_readonly".to_owned());
    r.push("windows.enforcement.readonly_deny".to_owned());
    r.push("windows.enforcement.readwrite_deny".to_owned());
    r.push("windows.timing.skipped_reason".to_owned());
    assert(texts(r@) =~= filtering_results());
    r
}

/// The steps that show what is enforced on Windows.
pub open spec fn enforcement_script(f: Fixture) -> Seq<StepView> {
    let w = PathStyle::Windows;
    let rw = SandboxDefaultAccess::ReadWrite;
    let ro = SandboxDefaultAccess::ReadOnly;
    let none = Seq::<Seq<char>>::empty();
    let cwd = rule(f.runtime_cwd@, SandboxPathAccess::ReadWrite);
    let writable = rule(f.rw_dir@, SandboxPathAccess::ReadWrite);
    let read_only = rule(f.ro_dir@, SandboxPathAccess::ReadOnly);
    let denied = rule(f.deny_dir@, SandboxPathAccess::Deny);
    seq![
        skippable_step(
            labelled_step(
                plain_step(
                    "windows readonly+readwrite write carve-out"@,
                    write_file(w, child_of(w, f.rw_dir@, "probe-readonly-rw.txt"@), "ok"@),
                    two_rules(ro, cwd, writable),
                    true,
                    none,
                ),
                "windows readonly+readwrite manager error: "@,
            ),
            SkipCondition::NoFilteringPlatform,
            filtering_results(),
        ),
        failing_step(
            "windows readonly+readwrite outside write"@,
            write_file(w, child_of(w, f.outside_dir@, "probe-readonly-outside.txt"@), "blocked"@),
            two_rules(ro, cwd, writable),
            "windows.enforcement.readonly_readwrite=ok"@,
        ),
        labelled_step(
            plain_step(
                "windows readwrite+readonly outside write"@,
                write_file(
                    w,
                    child_of(w, f.outside_dir@, "probe-readwrite-outside.txt"@),
                    "outside-ok"@,
                ),
                two_rules(rw, cwd, read_only),
                true,
                none,
            ),
            "windows readwrite+readonly manager error: "@,
        ),
        failing_step(
            "windows readwrite+readonly readonly override"@,
            write_file(w, child_of(w, f.ro_dir@, "probe-readwrite-ro.txt"@), "blocked"@),
            two_rules(rw, cwd, read_only),
            "windows.enforcement.readwrite_readonly=ok"@,
        ),
        failing_step(
            "windows readonly+deny denied read"@,
            read_file(w, f.deny_seed@),
            probe_policy(ro, disabled_network(), seq![cwd, writable, denied]),
            "windows.enforcement.readonly_deny=ok"@,
        ),
        failing_step(
            "windows readwrite+deny denied read"@,
            read_file(w, f.deny_seed@),
            two_rules(rw, cwd, denied),
            "windows.enforcement.readwrite_deny=ok"@,
        ),
    ]
}

/// The steps that show what is enforced on Windows.
pub fn windows_enforcement_steps(f: &Fixture) -> (r: Vec<ProbeStep>)
    ensures
        script_view(r@) == enforcement_script(*f),
{
    let w = PathStyle::Windows;
    let rw = SandboxDefaultAccess::ReadWrite;
    let ro = SandboxDefaultAccess::ReadOnly;
    let off = SandboxNetworkPolicy::disabled();
    let writable = policy_of_two(
        ro,
        off,
        make_rule(&f.runtime_cwd, SandboxPathAccess::ReadWrite),
        make_rule(&f.rw_dir, SandboxPathAccess::ReadWrite),
    );
    let read_only = policy_of_two(
        rw,
        off,
        make_rule(&f.runtime_cwd, SandboxPathAccess::ReadWrite),
        make_rule(&f.ro_dir, SandboxPathAccess::ReadOnly),
    );
    let denied_ro = policy_of_three(
        ro,
        off,
        make_rule(&f.runtime_cwd, SandboxPathAccess::ReadWrite),
        make_rule(&f.rw_dir, SandboxPathAccess::ReadWrite),
        make_rule(&f.deny_dir, SandboxPathAccess::Deny),
    );
    let denied_rw = policy_of_two(
        rw,
        off,
        make_rule(&f.runtime_cwd, SandboxPathAccess::ReadWrite),
        make_rule(&f.deny_dir, SandboxPathAccess::Deny),
    );
    let mut v: Vec<ProbeStep> = Vec::new();
    let target = child_path(w, &f.rw_dir, "probe-readonly-rw.txt");
    let first = step(
        "windows readonly+readwrite write carve-out",
        write_command(w, &target, "ok"),
        &writable,
        true,
        no_lines(),
    );
    push_step(
        &mut v,
        skippable(
            labelled(first, "windows readonly+readwrite manager error: "),
            SkipCondition::NoFilteringPlatform,
            filtering_result_names(),
        ),
    );
    let target = child_path(w, &f.outside_dir, "probe-readonly-outside.txt");
    push_step(
        &mut v,
        failing(
            "windows readonly+readwrite outside write",
            write_command(w, &target, "blocked"),
            &writable,
            "windows.enforcement.readonly_readwrite=ok",
        ),
    );
    let target = child_path(w, &f.outside_dir, "probe-readwrite-outside.txt");
    let third = step(
        "windows readwrite+readonly outside write",
        write_command(w, &target, "outside-ok"),
        &read_only,
        true,
        no_lines(),
    );
    push_step(&mut v, labelled(third, "windows readwrite+readonly manager error: "));
    let target = child_path(w, &f.ro_dir, "probe-readwrite-ro.txt");
    push_step(
        &mut v,
        failing(
            "windows readwrite+readonly readonly override",
            write_command(w, &target, "blocked"),
            &read_only,
            "windows.enforcement.readwrite_readonly=ok",
        ),
    );
    push_step(
        &mut v,
        failing(
            "windows readonly+deny denied read",
            read_command(w, &f.deny_seed),
            &denied_ro,
            "windows.enforcement.readonly_deny=ok",
        ),
    );
    push_step(
        &mut v,
        failing(
            "windows readwrite+deny denied read",
            read_command(w, &f.deny_seed),
            &denied_rw,
            "windows.enforcement.readwrite_deny=ok",
        ),
    );
    assert(script_view(v@) =~= enforcement_script(*f));
    v
}

/// A policy whose runs are timed.
#[derive(Debug, PartialEq, Eq)]
pub struct TimingCase {
    pub name: String,
    pub policy: SandboxPolicy,
}

impl View for TimingCase {
    type V = (Seq<char>, PolicyView);

    open spec fn view(&self) -> (Seq<char>, PolicyView) {
        (self.name@, self.policy@)
    }
}

/// The values of a list of timed policies.
pub open spec fn timing_case_views(v: Seq<TimingCase>) -> Seq<(Seq<char>, PolicyView)> {
    Seq::new(v.len(), |i: int| v[i]@)
}

/// The policies whose runs are timed: each default alone and with one rule of each sort.
pub open spec fn timing_script(f: Fixture) -> Seq<(Seq<char>, PolicyView)> {
    let rw = SandboxDefaultAccess::ReadWrite;
    let ro = SandboxDefaultAccess::ReadOnly;
    let off = disabled_network();
    let none = Seq::<PermissionView>::empty();
    let writable = seq![rule(f.rw_dir@, SandboxPathAccess::ReadWrite)];
    let read_only = seq![rule(f.ro_dir@, SandboxPathAccess::ReadOnly)];
    let denied = seq![rule(f.deny_dir@, SandboxPathAccess::Deny)];
    seq![
        ("readonly_none"@, probe_policy(ro, off, none)),
        ("readonly_readwrite"@, probe_policy(ro, off, writable)),
        ("readonly_readonly"@, probe_policy(ro, off, read_only)),
        ("readonly_deny"@, probe_policy(ro, off, denied)),
        ("readwrite_none"@, probe_policy(rw, off, none)),
        ("readwrite_readonly"@, probe_policy(rw, off, read_only)),
        ("readwrite_readwrite"@, probe_policy(rw, off, writable)),
        ("readwrite_deny"@, probe_policy(rw, off, denied)),
    ]
}

fn push_timing(
    v: &mut Vec<TimingCase>,
    name: &str,
    default_access: SandboxDefaultAccess,
    rule_for: Option<(&SandboxPath, SandboxPathAccess)>,
)
    ensures
        timing_case_views(final(v)@) == timing_case_views(old(v)@).push(
            (
                name@,
                probe_policy(
                    default_access,
                    disabled_network(),
                    match rule_for {
                        Some(r) => seq![rule(r.0@, r.1)],
                        None => Seq::empty(),
                    },
                ),
            ),
        ),
{
    let ghost before = timing_case_views(v@);
    let mut path_permissions: Vec<SandboxPathPermission> = Vec::new();
    let ghost rules: Seq<PermissionView> = match rule_for {
        Some(r) => seq![rule(r.0@, r.1)],
        None => Seq::empty(),
    };
    match rule_for {
        Some((path, access)) => path_permissions.push(make_rule(path, access)),
        None => {},
    }
    assert(permission_views(path_permissions@) =~= rules);
    let policy = SandboxPolicy {
        path_permissions,
        default_access,
        network_policy: SandboxNetworkPolicy::disabled(),
    };
    let c = TimingCase { name: name.to_owned(), policy };
    v.push(c);
    assert(timing_case_views(v@) =~= before.push(c@));
}

/// The policies whose runs are timed.
pub fn windows_timing_cases(f: &Fixture) -> (r: Vec<TimingCase>)
    ensures
        timing_case_views(r@) == timing_script(*f),
{
    let rw = SandboxDefaultAccess::ReadWrite;
    let ro = SandboxDefaultAccess::ReadOnly;
    let mut v: Vec<TimingCase> = Vec::new();
    push_timing(&mut v, "readonly_none", ro, None);
    push_timing(
        &mut v,
        "readonly_readwrite",
        ro,
        Some((&f.rw_dir, SandboxPathAccess::ReadWrite)),
    );
    push_timing(
        &mut v,
        "readonly_readonly",
        ro,
        Some((&f.ro_dir, SandboxPathAccess::ReadOnly)),
    );
    push_timing(&mut v, "readonly_deny", ro, Some((&f.deny_dir, SandboxPathAccess::Deny)));
    push_timing(&mut v, "readwrite_none", rw, None);
    push_timing(
        &mut v,
        "readwrite_readonly",
        rw,
        Some((&f.ro_dir, SandboxPathAccess::ReadOnly)),
    );
    push_timing(
        &mut v,
        "readwrite_readwrite",
        rw,
        Some((&f.rw_dir, SandboxPathAccess::ReadWrite)),
    );
    push_timing(&mut v, "readwrite_deny", rw, Some((&f.deny_dir, SandboxPathAccess::Deny)));
    assert(timing_case_views(v@) =~= timing_script(*f));
    v
}

/// What is printed before the times.
pub fn timing_notes() -> (r: Vec<String>)
    ensures
        texts(r@) == seq![
            "windows.timing.note=wall_clock_ms_for_manager_execute"@,
            "windows.timing.redundant_shapes_note=default_equivalent_entries_are_normalized_before_backend_dispatch"@,
        ],
{
    let mut r: Vec<String> = Vec::new();
    r.push("windows.timing.note=wall_clock_ms_for_manager_execute".to_owned());
    r.push(
        "windows.timing.redundant_shapes_note=default_equivalent_entries_are_normalized_before_backend_dispatch".to_owned(),
    );
    assert(texts(r@) =~= seq![
        "windows.timing.note=wall_clock_ms_for_manager_execute"@,
        "windows.timing.redundant_shapes_note=default_equivalent_entries_are_normalized_before_backend_dispatch"@,
    ]);
    r
}

/// The step that is timed for a policy: nothing is done, and that has to succeed.
pub fn timing_step(c: &TimingCase) -> (r: ProbeStep)
    ensures
        r@ == skippable_step(
            labelled_step(
                plain_step(
                    c.name@,
                    crate::probe::commands::exit_zero(PathStyle::Windows),
                    c.policy@,
                    true,
                    Seq::empty(),
                ),
                "windows timing case "@ + c.name@ + " failed to execute: "@,
            ),
            SkipCondition::NoFilteringPlatform,
            seq!["windows.timing.skipped_reason"@],
        ),
{
    let mut label = "windows timing case ".to_owned();
    vstd::string::StringExecFns::append(&mut label, c.name.as_str());
    vstd::string::StringExecFns::append(&mut label, " failed to execute: ");
    let run = step(
        c.name.as_str(),
        crate::probe::commands::exit_zero_command(PathStyle::Windows),
        &c.policy,
        true,
        no_lines(),
    );
    skippable(
        labelled(run, label.as_str()),
        SkipCondition::NoFilteringPlatform,
        one_line("windows.timing.skipped_reason"),
    )
}

} // verus!
