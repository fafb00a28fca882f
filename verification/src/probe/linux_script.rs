//! What is probed on Linux.
use vstd::prelude::*;
use vstd::string::StringExecFns;

use crate::error::{ErrorView, SandboxError};
use crate::output::SandboxExecOutput;
use crate::path::PathStyle;
use crate::policy::{
    disabled_network, PolicyView, SandboxDefaultAccess, SandboxNetworkPolicy, SandboxPathAccess,
    SandboxPolicy,
};
use crate::probe::commands::{
    child_of, child_path, exit_zero, exit_zero_command, read_command, read_file, write_command,
    write_file,
};
use crate::probe::script::{
    failed_unexpectedly, labelled, labelled_step, lacks_mounts, make_rule, no_lines, one_line,
    plain_step, policy_of_one, policy_of_three, policy_of_two, probe_policy, push_step, rule,
    script_view, skippable, skippable_step, step, two_lines, Fixture, ProbeStep, SkipCondition,
    StepView,
};
use crate::text::{contains_text, has_text, signed_number, texts};

verus! {

/// A read-only default with two writable directories.
pub open spec fn writable_carve_out(f: Fixture) -> PolicyView {
    probe_policy(
        SandboxDefaultAccess::ReadOnly,
        disabled_network(),
        seq![
            rule(f.runtime_cwd@, SandboxPathAccess::ReadWrite),
            rule(f.rw_dir@, SandboxPathAccess::ReadWrite),
        ],
    )
}

/// A writable default with a read-only directory.
pub open spec fn read_only_carve_out(f: Fixture) -> PolicyView {
    probe_policy(
        SandboxDefaultAccess::ReadWrite,
        disabled_network(),
        seq![rule(f.ro_dir@, SandboxPathAccess::ReadOnly)],
    )
}

/// A default with a denied directory.
pub open spec fn denied_carve_out(default_access: SandboxDefaultAccess, f: Fixture) -> PolicyView {
    probe_policy(
        default_access,
        disabled_network(),
        seq![rule(f.deny_dir@, SandboxPathAccess::Deny)],
    )
}

/// A read-only default with two writable directories and a denied one in one of them.
pub open spec fn nested_denial(f: Fixture) -> PolicyView {
    probe_policy(
        SandboxDefaultAccess::ReadOnly,
        disabled_network(),
        seq![
            rule(f.runtime_cwd@, SandboxPathAccess::ReadWrite),
            rule(f.rw_dir@, SandboxPathAccess::ReadWrite),
            rule(f.nested_deny_dir@, SandboxPathAccess::Deny),
        ],
    )
}

/// The results that need mounts.
pub open spec fn mount_results() -> Seq<Seq<char>> {
    seq![
        "linux.readwrite_plus_readonly_enforcement"@,
        "linux.readwrite_plus_deny_enforcement"@,
        "linux.enforcement.readwrite_readonly"@,
        "linux.enforcement.readwrite_deny"@,
        "linux.enforcement.readonly_deny"@,
        "linux.enforcement.readonly_readwrite_deny"@,
    ]
}

fn mount_result_names() -> (r: Vec<String>)
    ensures
        texts(r@) == mount_results(),
{
    let mut r: Vec<String> = Vec::new();
    r.push("linux.readwrite_plus_readonly_enforcement".to_owned());
    r.push("linux.readwrite_plus_deny_enforcement".to_owned());
    r.push("linux.enforcement.readwrite_readonly".to_owned());
    r.push("linux.enforcement.readwrite_deny".to_owned());
    r.push("linux.enforcement.readonly_deny".to_owned());
    r.push("linux.enforcement.readonly_readwrite_deny".to_owned());
    assert(texts(r@) =~= mount_results());
    r
}

/// A step that writes a file.
pub open spec fn write_step(
    context: Seq<char>,
    dir: Seq<u8>,
    name: Seq<char>,
    payload: Seq<char>,
    policy: PolicyView,
    succeeds: bool,
    lines: Seq<Seq<char>>,
) -> StepView {
    plain_step(
        context,
        write_file(PathStyle::Unix, child_of(PathStyle::Unix, dir, name), payload),
        policy,
        succeeds,
        lines,
    )
}

fn writing(
    context: &str,
    dir: &crate::path::SandboxPath,
    name: &str,
    payload: &str,
    policy: &SandboxPolicy,
    succeeds: bool,
    lines: Vec<String>,
) -> (r: ProbeStep)
    ensures
        r@ == write_step(context@, dir@, name@, payload@, policy@, succeeds, texts(lines@)),
{
    let target = child_path(PathStyle::Unix, dir, name);
    step(context, write_command(PathStyle::Unix, &target, payload), policy, succeeds, lines)
}

fn reading(
    context: &str,
    target: &crate::path::SandboxPath,
    policy: &SandboxPolicy,
    succeeds: bool,
    lines: Vec<String>,
) -> (r: ProbeStep)
    ensures
        r@ == plain_step(
            context@,
            read_file(PathStyle::Unix, target@),
            policy@,
            succeeds,
            texts(lines@),
        ),
{
    step(context, read_command(PathStyle::Unix, target), policy, succeeds, lines)
}

/// The steps that show what is enforced on Linux. The first two need no mounts; the third shows
/// whether mounts can be used, and the others need them.
pub open spec fn enforcement_script(f: Fixture) -> Seq<StepView> {
    let rw = SandboxDefaultAccess::ReadWrite;
    let ro = SandboxDefaultAccess::ReadOnly;
    let none = Seq::<Seq<char>>::empty();
    seq![
        write_step(
            "linux readonly+readwrite write carve-out"@,
            f.rw_dir@,
            "probe-readonly-rw.txt"@,
            "ok"@,
            writable_carve_out(f),
            true,
            none,
        ),
        write_step(
            "linux readonly+readwrite outside write"@,
            f.deny_dir@,
            "probe-readonly-outside.txt"@,
            "blocked"@,
            writable_carve_out(f),
            false,
            seq!["linux.enforcement.readonly_readwrite=ok"@],
        ),
        skippable_step(
            labelled_step(
                plain_step(
                    "linux overlay bootstrap"@,
                    exit_zero(PathStyle::Unix),
                    read_only_carve_out(f),
                    true,
                    none,
                ),
                "linux overlay bootstrap failed: "@,
            ),
            SkipCondition::NoMountNamespaces,
            mount_results(),
        ),
        write_step(
            "linux readwrite+readonly other write"@,
            f.rw_dir@,
            "probe-readwrite-outside.txt"@,
            "outside-ok"@,
            read_only_carve_out(f),
            true,
            none,
        ),
        write_step(
            "linux readwrite+readonly readonly override"@,
            f.ro_dir@,
            "probe-readwrite-ro.txt"@,
            "blocked"@,
            read_only_carve_out(f),
            false,
            none,
        ),
        plain_step(
            "linux readwrite+readonly read seed"@,
            read_file(PathStyle::Unix, f.ro_seed@),
            read_only_carve_out(f),
            true,
            seq![
                "linux.enforcement.readwrite_readonly=ok"@,
                "linux.readwrite_plus_readonly_enforcement=ok"@,
            ],
        ),
        plain_step(
            "linux readwrite+deny denied read"@,
            read_file(PathStyle::Unix, f.deny_seed@),
            denied_carve_out(rw, f),
            false,
            none,
        ),
        write_step(
            "linux readwrite+deny denied write"@,
            f.deny_dir@,
            "probe-readwrite-deny.txt"@,
            "blocked"@,
            denied_carve_out(rw, f),
            false,
            seq![
                "linux.enforcement.readwrite_deny=ok"@,
                "linux.readwrite_plus_deny_enforcement=ok"@,
            ],
        ),
        plain_step(
            "linux readonly+deny denied read"@,
            read_file(PathStyle::Unix, f.deny_seed@),
            denied_carve_out(ro, f),
            false,
            seq!["linux.enforcement.readonly_deny=ok"@],
        ),
        write_step(
            "linux readonly+readwrite+nested-deny parent write"@,
            f.rw_dir@,
            "probe-readonly-nested-parent.txt"@,
            "parent-ok"@,
            nested_denial(f),
            true,
            none,
        ),
        plain_step(
            "linux readonly+readwrite+nested-deny denied read"@,
            read_file(PathStyle::Unix, f.nested_deny_seed@),
            nested_denial(f),
            false,
            none,
        ),
        write_step(
            "linux readonly+readwrite+nested-deny denied write"@,
            f.nested_deny_dir@,
            "probe-readonly-nested-deny.txt"@,
            "blocked"@,
            nested_denial(f),
            false,
            seq!["linux.enforcement.readonly_readwrite_deny=ok"@],
        ),
    ]
}

/// The steps that show what is enforced on Linux.
pub fn linux_enforcement_steps(f: &Fixture) -> (r: Vec<ProbeStep>)
    ensures
        script_view(r@) == enforcement_script(*f),
{
    let rw = SandboxDefaultAccess::ReadWrite;
    let ro = SandboxDefaultAccess::ReadOnly;
    let off = SandboxNetworkPolicy::disabled();
    let writable = policy_of_two(
        ro,
        off,
        make_rule(&f.runtime_cwd, SandboxPathAccess::ReadWrite),
        make_rule(&f.rw_dir, SandboxPathAccess::ReadWrite),
    );
    let read_only = policy_of_one(rw, off, make_rule(&f.ro_dir, SandboxPathAccess::ReadOnly));
    let denied_rw = policy_of_one(rw, off, make_rule(&f.deny_dir, SandboxPathAccess::Deny));
    let denied_ro = policy_of_one(ro, off, make_rule(&f.deny_dir, SandboxPathAccess::Deny));
    let nested = policy_of_three(
        ro,
        off,
        make_rule(&f.runtime_cwd, SandboxPathAccess::ReadWrite),
        make_rule(&f.rw_dir, SandboxPathAccess::ReadWrite),
        make_rule(&f.nested_deny_dir, SandboxPathAccess::Deny),
    );
    let mut v: Vec<ProbeStep> = Vec::new();
    push_step(
        &mut v,
        writing(
            "linux readonly+readwrite write carve-out",
            &f.rw_dir,
            "probe-readonly-rw.txt",
            "ok",
            &writable,
            true,
            no_lines(),
        ),
    );
    push_step(
        &mut v,
        writing(
            "linux readonly+readwrite outside write",
            &f.deny_dir,
            "probe-readonly-outside.txt",
            "blocked",
            &writable,
            false,
            one_line("linux.enforcement.readonly_readwrite=ok"),
        ),
    );
    let bootstrap = step(
        "linux overlay bootstrap",
        exit_zero_command(PathStyle::Unix),
        &read_only,
        true,
        no_lines(),
    );
    push_step(
        &mut v,
        skippable(
            labelled(bootstrap, "linux overlay bootstrap failed: "),
            SkipCondition::NoMountNamespaces,
            mount_result_names(),
        ),
    );
    push_step(
        &mut v,
        writing(
            "linux readwrite+readonly other write",
            &f.rw_dir,
            "probe-readwrite-outside.txt",
            "outside-ok",
            &read_only,
            true,
            no_lines(),
        ),
    );
    push_step(
        &mut v,
        writing(
            "linux readwrite+readonly readonly override",
            &f.ro_dir,
            "probe-readwrite-ro.txt",
            "blocked",
            &read_only,
            false,
            no_lines(),
        ),
    );
    push_step(
        &mut v,
        reading(
            "linux readwrite+readonly read seed",
            &f.ro_seed,
            &read_only,
            true,
            two_lines(
                "linux.enforcement.readwrite_readonly=ok",
                "linux.readwrite_plus_readonly_enforcement=ok",
            ),
        ),
    );
    push_step(
        &mut v,
        reading(
            "linux readwrite+deny denied read",
            &f.deny_seed,
            &denied_rw,
            false,
            no_lines(),
        ),
    );
    push_step(
        &mut v,
        writing(
            "linux readwrite+deny denied write",
            &f.deny_dir,
            "probe-readwrite-deny.txt",
            "blocked",
            &denied_rw,
            false,
            two_lines(
                "linux.enforcement.readwrite_deny=ok",
                "linux.readwrite_plus_deny_enforcement=ok",
            ),
        ),
    );
    push_step(
        &mut v,
        reading(
            "linux readonly+deny denied read",
            &f.deny_seed,
            &denied_ro,
            false,
            one_line("linux.enforcement.readonly_deny=ok"),
        ),
    );
    push_step(
        &mut v,
        writing(
            "linux readonly+readwrite+nested-deny parent write",
            &f.rw_dir,
            "probe-readonly-nested-parent.txt",
            "parent-ok",
            &nested,
            true,
            no_lines(),
        ),
    );
    push_step(
        &mut v,
        reading(
            "linux readonly+readwrite+nested-deny denied read",
            &f.nested_deny_seed,
            &nested,
            false,
            no_lines(),
        ),
    );
    push_step(
        &mut v,
        writing(
            "linux readonly+readwrite+nested-deny denied write",
            &f.nested_deny_dir,
            "probe-readonly-nested-deny.txt",
            "blocked",
            &nested,
            false,
            one_line("linux.enforcement.readonly_readwrite_deny=ok"),
        ),
    );
    assert(script_view(v@) =~= enforcement_script(*f));
    v
}

/// The policy that shows whether mounts can be used.
pub fn readwrite_with_readonly_policy(f: &Fixture) -> (r: SandboxPolicy)
    ensures
        r@ == read_only_carve_out(*f),
{
    policy_of_one(
        SandboxDefaultAccess::ReadWrite,
        SandboxNetworkPolicy::disabled(),
        make_rule(&f.ro_dir, SandboxPathAccess::ReadOnly),
    )
}

/// What is printed of a host on which mounts can be used or not, or why the probe has failed.
pub open spec fn capability_report(
    result: Result<(i32, Seq<char>, Seq<char>), ErrorView>,
    debug: Seq<char>,
) -> Result<Seq<Seq<char>>, Seq<char>> {
    match result {
        Ok(output) => if output.0 == 0 {
            Ok(seq!["linux.overlay_subtractive=available"@])
        } else {
            Err(failed_unexpectedly("linux bootstrap command"@, output.0, output.1, output.2))
        },
        Err(e) => if lacks_mounts(e) {
            Ok(
                seq![
                    "linux.overlay_subtractive=unavailable"@,
                    "linux.unavailable_reason="@ + e->Unavailable_0,
                ],
            )
        } else {
            Err("unexpected linux overlay capability result: "@ + debug)
        },
    }
}

/// What a probe reads of the result of a run: its exit code and its two outputs, or its error.
pub open spec fn probed_result(r: Result<SandboxExecOutput, SandboxError>) -> Result<
    (i32, Seq<char>, Seq<char>),
    ErrorView,
> {
    match r {
        Ok(output) => Ok((output.exit_code, output.stdout@, output.stderr@)),
        Err(e) => Err(e@),
    }
}

/// The value of some lines or of a failure in their place.
pub open spec fn lines_view(r: Result<Vec<String>, String>) -> Result<Seq<Seq<char>>, Seq<char>> {
    match r {
        Ok(lines) => Ok(texts(lines@)),
        Err(text) => Err(text@),
    }
}

/// What is printed of a host on which mounts can be used or not.
pub fn overlay_capability(result: &Result<SandboxExecOutput, SandboxError>, debug: &str) -> (r:
    Result<Vec<String>, String>)
    ensures
        lines_view(r) == capability_report(probed_result(*result), debug@),
{
    match result {
        Ok(output) => {
            if output.exit_code == 0 {
                return Ok(one_line("linux.overlay_subtractive=available"));
            }
            let mut text = "linux bootstrap command".to_owned();
            text.append(" failed unexpectedly: exit_code=");
            text.append(signed_number(output.exit_code as i64).as_str());
            text.append(", stdout=");
            text.append(output.stdout.as_str());
            text.append(", stderr=");
            text.append(output.stderr.as_str());
            Err(text)
        },
        Err(SandboxError::Unavailable(m)) => {
            if contains_text(m.as_str(), "mount-namespace support") {
                let reason = "linux.unavailable_reason=".to_owned().concat(m.as_str());
                Ok(two_lines("linux.overlay_subtractive=unavailable", reason.as_str()))
            } else {
                Err("unexpected linux overlay capability result: ".to_owned().concat(debug))
            }
        },
        Err(_) => Err("unexpected linux overlay capability result: ".to_owned().concat(debug)),
    }
}

/// What is printed where a policy names a path that does not exist: the manager has to reject it
/// before anything else happens.
pub fn frontloaded_validation(result: &Result<SandboxExecOutput, SandboxError>, debug: &str) -> (r:
    Result<Vec<String>, String>)
    ensures
        ({
            let rejected = *result matches Err(SandboxError::InvalidRequest(m)) && has_text(
                m@,
                "read_only path does not exist"@,
            );
            lines_view(r) == if rejected {
                Ok::<Seq<Seq<char>>, Seq<char>>(
                    seq!["manager.missing_path_validation=frontloaded_invalid_request"@],
                )
            } else {
                Err(
                    "expected frontloaded InvalidRequest for missing policy path, got "@ + debug@,
                )
            }
        }),
{
    match result {
        Err(SandboxError::InvalidRequest(m)) => {
            if contains_text(m.as_str(), "read_only path does not exist") {
                return Ok(
                    one_line("manager.missing_path_validation=frontloaded_invalid_request"),
                );
            }
        },
        _ => {},
    }
    Err(
        "expected frontloaded InvalidRequest for missing policy path, got ".to_owned().concat(
            debug,
        ),
    )
}

/// A host can cover paths exactly where a command under a policy that needs it runs and succeeds. It
/// cannot exactly where the sandbox says that mount namespaces are missing. Anything else is an
/// error of the probe.
pub proof fn capabilities_are_told_apart(
    result: Result<(i32, Seq<char>, Seq<char>), ErrorView>,
    debug: Seq<char>,
)
    ensures
        capability_report(result, debug) == Ok::<Seq<Seq<char>>, Seq<char>>(
            seq!["linux.overlay_subtractive=available"@],
        ) <==> result is Ok && (result->Ok_0).0 == 0,
        result is Err ==> (result->Err_0 matches ErrorView::Unavailable(m) ==> has_text(
            m,
            "mount-namespace support"@,
        ) ==> capability_report(result, debug) == Ok::<Seq<Seq<char>>, Seq<char>>(
            seq![
                "linux.overlay_subtractive=unavailable"@,
                "linux.unavailable_reason="@ + m,
            ],
        )),
        result is Ok && (result->Ok_0).0 != 0 ==> capability_report(result, debug) is Err,
        result is Err && !(result->Err_0 is Unavailable) ==> capability_report(
            result,
            debug,
        ) is Err,
{
    let a = seq!["linux.overlay_subtractive=available"@];
    assert(a.len() == 1);
    if result is Err && lacks_mounts(result->Err_0) {
        assert(capability_report(result, debug)->Ok_0.len() == 2);
    }
}

} // verus!
