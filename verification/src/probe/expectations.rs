//! What the probes expect, told from the policies under which their steps run.
use vstd::prelude::*;

use crate::error::{ErrorView, SandboxError};
use crate::output::SandboxExecOutput;
use crate::path::PathStyle;
use crate::policy::{
    coarse_shape, has_rule, PermissionView, PolicyView, SandboxCoarseNetworkPolicy,
    SandboxDefaultAccess, SandboxPathAccess, SandboxPolicy,
};
use crate::probe::commands::{child_of, exit_zero, read_file, write_file};
use crate::probe::linux_script;
use crate::probe::macos_script;
use crate::probe::report::{
    average_ms, extreme_samples, on_one_line, parse_elevation_answer, render_unix_matrix_result,
    render_windows_matrix_result, sum_of,
};
use crate::probe::script::{
    all_cases, case_rules, command_verdict, error_verdict, judge_step, rule, CaseView, Fixture,
    MatrixCase, ProbeStep, SkipCondition, StepView, Verdict, VerdictView,
};
use crate::probe::windows_script;
use crate::probe::windows_script::ProbeTarget;
use crate::text::{signed_decimal, texts_are_found_anywhere, trim};

verus! {

/// What a policy says of a directory that its rules name by this path: whether it can be written.
pub open spec fn can_write(policy: PolicyView, dir: Seq<u8>) -> bool {
    let rules = policy.path_permissions;
    &&& !has_rule(rules, SandboxPathAccess::Deny, dir)
    &&& has_rule(rules, SandboxPathAccess::ReadWrite, dir) || (policy.default_access
        == SandboxDefaultAccess::ReadWrite && !has_rule(rules, SandboxPathAccess::ReadOnly, dir))
}

/// What a policy says of a directory that its rules name by this path: whether it can be read.
pub open spec fn can_read(policy: PolicyView, dir: Seq<u8>) -> bool {
    !has_rule(policy.path_permissions, SandboxPathAccess::Deny, dir)
}

/// A step writes a file in a directory.
pub open spec fn writes_in(style: PathStyle, s: StepView, dir: Seq<u8>) -> bool {
    exists|name: Seq<char>, payload: Seq<char>|
        s.command == #[trigger] write_file(style, child_of(style, dir, name), payload)
}

/// The directories of a fixture are different ones.
pub open spec fn dirs_differ(f: Fixture) -> bool {
    let dirs = seq![
        f.runtime_cwd@,
        f.deny_dir@,
        f.ro_dir@,
        f.rw_dir@,
        f.outside_dir@,
        f.nested_deny_dir@,
    ];
    dirs.no_duplicates() && f.alias_rw_dir@ != f.ro_dir@ && f.alias_rw_dir@ != f.deny_dir@
}

/// A step expects of a directory what its policy says of it.
pub open spec fn expects_its_policy(
    style: PathStyle,
    s: StepView,
    dir: Seq<u8>,
    seed: Seq<u8>,
    ruled: Seq<u8>,
) -> bool {
    ||| writes_in(style, s, dir) && s.succeeds == can_write(s.policy, ruled)
    ||| s.command == read_file(style, seed) && s.succeeds == can_read(s.policy, ruled)
}

proof fn lemma_rules_of(rules: Seq<PermissionView>, dir: Seq<u8>)
    requires
        rules.len() <= 4,
    ensures
        forall|access: SandboxPathAccess| #[trigger]
            has_rule(rules, access, dir) <==> {
                ||| rules.len() > 0 && rules[0].path == dir && rules[0].access == access
                ||| rules.len() > 1 && rules[1].path == dir && rules[1].access == access
                ||| rules.len() > 2 && rules[2].path == dir && rules[2].access == access
                ||| rules.len() > 3 && rules[3].path == dir && rules[3].access == access
            },
{
}

proof fn lemma_dirs(f: Fixture)
    requires
        dirs_differ(f),
    ensures
        f.runtime_cwd@ != f.deny_dir@ && f.runtime_cwd@ != f.ro_dir@ && f.runtime_cwd@ != f.rw_dir@
            && f.runtime_cwd@ != f.outside_dir@ && f.runtime_cwd@ != f.nested_deny_dir@,
        f.deny_dir@ != f.ro_dir@ && f.deny_dir@ != f.rw_dir@ && f.deny_dir@ != f.outside_dir@
            && f.deny_dir@ != f.nested_deny_dir@,
        f.ro_dir@ != f.rw_dir@ && f.ro_dir@ != f.outside_dir@ && f.ro_dir@ != f.nested_deny_dir@,
        f.rw_dir@ != f.outside_dir@ && f.rw_dir@ != f.nested_deny_dir@ && f.outside_dir@
            != f.nested_deny_dir@,
        f.alias_rw_dir@ != f.ro_dir@ && f.alias_rw_dir@ != f.deny_dir@,
{
    let d = seq![
        f.runtime_cwd@,
        f.deny_dir@,
        f.ro_dir@,
        f.rw_dir@,
        f.outside_dir@,
        f.nested_deny_dir@,
    ];
    assert(d[0] == f.runtime_cwd@ && d[1] == f.deny_dir@ && d[2] == f.ro_dir@ && d[3] == f.rw_dir@
        && d[4] == f.outside_dir@ && d[5] == f.nested_deny_dir@);
}

/// Every step of the Linux probe but the first one with mounts, which only starts a command, reads
/// or writes in one of the directories, and expects what its policy says of it.
pub proof fn linux_steps_expect_their_policies(f: Fixture, i: int)
    requires
        dirs_differ(f),
        0 <= i < linux_script::enforcement_script(f).len(),
    ensures
        ({
            let s = linux_script::enforcement_script(f)[i];
            let u = PathStyle::Unix;
            ||| s.command == exit_zero(u) && s.succeeds && s.skip_when
                == SkipCondition::NoMountNamespaces
            ||| expects_its_policy(u, s, f.rw_dir@, f.runtime_cwd@, f.rw_dir@) && s.skip_when
                == SkipCondition::Never
            ||| expects_its_policy(u, s, f.ro_dir@, f.ro_seed@, f.ro_dir@) && s.skip_when
                == SkipCondition::Never
            ||| expects_its_policy(u, s, f.deny_dir@, f.deny_seed@, f.deny_dir@) && s.skip_when
                == SkipCondition::Never
            ||| expects_its_policy(
                u,
                s,
                f.nested_deny_dir@,
                f.nested_deny_seed@,
                f.nested_deny_dir@,
            ) && s.skip_when == SkipCondition::Never
        }),
{
    lemma_dirs(f);
    let u = PathStyle::Unix;
    let s = linux_script::enforcement_script(f)[i];
    lemma_rules_of(s.policy.path_permissions, f.rw_dir@);
    lemma_rules_of(s.policy.path_permissions, f.ro_dir@);
    lemma_rules_of(s.policy.path_permissions, f.deny_dir@);
    lemma_rules_of(s.policy.path_permissions, f.nested_deny_dir@);
    if i == 0 {
        assert(s.command == write_file(u, child_of(u, f.rw_dir@, "probe-readonly-rw.txt"@), "ok"@));
        assert(writes_in(u, s, f.rw_dir@));
    } else if i == 1 {
        assert(s.command == write_file(
            u,
            child_of(u, f.deny_dir@, "probe-readonly-outside.txt"@),
            "blocked"@,
        ));
        assert(writes_in(u, s, f.deny_dir@));
    } else if i == 3 {
        assert(s.command == write_file(
            u,
            child_of(u, f.rw_dir@, "probe-readwrite-outside.txt"@),
            "outside-ok"@,
        ));
        assert(writes_in(u, s, f.rw_dir@));
    } else if i == 4 {
        assert(s.command == write_file(
            u,
            child_of(u, f.ro_dir@, "probe-readwrite-ro.txt"@),
            "blocked"@,
        ));
        assert(writes_in(u, s, f.ro_dir@));
    } else if i == 7 {
        assert(s.command == write_file(
            u,
            child_of(u, f.deny_dir@, "probe-readwrite-deny.txt"@),
            "blocked"@,
        ));
        assert(writes_in(u, s, f.deny_dir@));
    } else if i == 9 {
        assert(s.command == write_file(
            u,
            child_of(u, f.rw_dir@, "probe-readonly-nested-parent.txt"@),
            "parent-ok"@,
        ));
        assert(writes_in(u, s, f.rw_dir@));
    } else if i == 11 {
        assert(s.command == write_file(
            u,
            child_of(u, f.nested_deny_dir@, "probe-readonly-nested-deny.txt"@),
            "blocked"@,
        ));
        assert(writes_in(u, s, f.nested_deny_dir@));
    }
}

/// Every step of the macOS probe reads or writes in one of the directories, and expects what its
/// policy says of it; the writable one is named by its other spelling.
pub proof fn macos_steps_expect_their_policies(f: Fixture, i: int)
    requires
        dirs_differ(f),
        0 <= i < macos_script::enforcement_script(f).len(),
    ensures
        ({
            let s = macos_script::enforcement_script(f)[i];
            let u = PathStyle::Unix;
            &&& s.skip_when == SkipCondition::Never
            &&& {
                ||| expects_its_policy(u, s, f.rw_dir@, f.runtime_cwd@, f.alias_rw_dir@)
                ||| expects_its_policy(u, s, f.ro_dir@, f.ro_seed@, f.ro_dir@)
                ||| expects_its_policy(u, s, f.deny_dir@, f.deny_seed@, f.deny_dir@)
            }
        }),
{
    lemma_dirs(f);
    let u = PathStyle::Unix;
    let s = macos_script::enforcement_script(f)[i];
    lemma_rules_of(s.policy.path_permissions, f.alias_rw_dir@);
    lemma_rules_of(s.policy.path_permissions, f.ro_dir@);
    lemma_rules_of(s.policy.path_permissions, f.deny_dir@);
    if i == 0 {
        assert(s.command == write_file(
            u,
            child_of(u, f.rw_dir@, "macos-overlay-write.txt"@),
            "seatbelt-ok"@,
        ));
        assert(writes_in(u, s, f.rw_dir@));
    } else if i == 1 {
        assert(s.command == write_file(
            u,
            child_of(u, f.ro_dir@, "macos-readonly-blocked.txt"@),
            "blocked"@,
        ));
        assert(writes_in(u, s, f.ro_dir@));
    }
}

/// Every step of the Windows probe reads or writes in one of the directories, and expects what its
/// policy says of it; only the first can skip the rest.
pub proof fn windows_steps_expect_their_policies(f: Fixture, i: int)
    requires
        dirs_differ(f),
        0 <= i < windows_script::enforcement_script(f).len(),
    ensures
        ({
            let s = windows_script::enforcement_script(f)[i];
            let w = PathStyle::Windows;
            &&& s.skip_when == if i == 0 {
                SkipCondition::NoFilteringPlatform
            } else {
                SkipCondition::Never
            }
            &&& {
                ||| expects_its_policy(w, s, f.rw_dir@, f.runtime_cwd@, f.rw_dir@)
                ||| expects_its_policy(w, s, f.ro_dir@, f.ro_seed@, f.ro_dir@)
                ||| expects_its_policy(w, s, f.deny_dir@, f.deny_seed@, f.deny_dir@)
                ||| expects_its_policy(w, s, f.outside_dir@, f.runtime_cwd@, f.outside_dir@)
            }
        }),
{
    lemma_dirs(f);
    let w = PathStyle::Windows;
    let s = windows_script::enforcement_script(f)[i];
    lemma_rules_of(s.policy.path_permissions, f.rw_dir@);
    lemma_rules_of(s.policy.path_permissions, f.ro_dir@);
    lemma_rules_of(s.policy.path_permissions, f.deny_dir@);
    lemma_rules_of(s.policy.path_permissions, f.outside_dir@);
    if i == 0 {
        assert(s.command == write_file(w, child_of(w, f.rw_dir@, "probe-readonly-rw.txt"@), "ok"@));
        assert(writes_in(w, s, f.rw_dir@));
    } else if i == 1 {
        assert(s.command == write_file(
            w,
            child_of(w, f.outside_dir@, "probe-readonly-outside.txt"@),
            "blocked"@,
        ));
        assert(writes_in(w, s, f.outside_dir@));
    } else if i == 2 {
        assert(s.command == write_file(
            w,
            child_of(w, f.outside_dir@, "probe-readwrite-outside.txt"@),
            "outside-ok"@,
        ));
        assert(writes_in(w, s, f.outside_dir@));
    } else if i == 3 {
        assert(s.command == write_file(
            w,
            child_of(w, f.ro_dir@, "probe-readwrite-ro.txt"@),
            "blocked"@,
        ));
        assert(writes_in(w, s, f.ro_dir@));
    }
}

/// The combinations that are tried are all but those in which a denial comes together with rules
/// that change nothing about the default.
pub proof fn every_other_combination_is_tried(
    style: PathStyle,
    default_access: SandboxDefaultAccess,
    with_read_only: bool,
    with_read_write: bool,
    with_deny: bool,
)
    ensures
        (exists|i: int|
            0 <= i < all_cases(style).len() && (#[trigger] all_cases(style)[i]).default_access
                == default_access && all_cases(style)[i].with_read_only == with_read_only
                && all_cases(style)[i].with_read_write == with_read_write && all_cases(
                style,
            )[i].with_deny == with_deny) <==> !(with_deny && if default_access
            == SandboxDefaultAccess::ReadWrite {
            with_read_write
        } else {
            with_read_only
        }),
        all_cases(style).len() == 12,
{
    let c = all_cases(style);
    assert(c[0] == c[0] && c[1] == c[1] && c[2] == c[2] && c[3] == c[3] && c[4] == c[4] && c[5]
        == c[5] && c[6] == c[6] && c[7] == c[7] && c[8] == c[8] && c[9] == c[9] && c[10] == c[10]
        && c[11] == c[11]);
}

/// A combination's policy has a rule for each access that it names, and no other.
pub proof fn combinations_have_their_rules(c: CaseView, f: Fixture, r: PermissionView)
    ensures
        case_rules(c, f).contains(r) <==> {
            ||| c.with_read_only && r.path == f.ro_dir@ && r.access == SandboxPathAccess::ReadOnly
            ||| c.with_read_write && r.path == f.rw_dir@ && r.access == SandboxPathAccess::ReadWrite
            ||| c.with_deny && r.path == f.deny_dir@ && r.access == SandboxPathAccess::Deny
        },
{
    let rules = case_rules(c, f);
    let a: int = if c.with_read_only {
        1
    } else {
        0
    };
    let b: int = if c.with_read_write {
        a + 1
    } else {
        a
    };
    if c.with_read_only {
        assert(rules[0] == rule(f.ro_dir@, SandboxPathAccess::ReadOnly));
    }
    if c.with_read_write {
        assert(rules[a] == rule(f.rw_dir@, SandboxPathAccess::ReadWrite));
    }
    if c.with_deny {
        assert(rules[b] == rule(f.deny_dir@, SandboxPathAccess::Deny));
    }
}

/// A command that ran passes its step exactly where it succeeded as expected, or failed as
/// expected.
pub proof fn commands_pass_as_expected(
    context: Seq<char>,
    succeeds: bool,
    exit_code: i32,
    stdout: Seq<char>,
    stderr: Seq<char>,
)
    ensures
        command_verdict(context, succeeds, exit_code, stdout, stderr) is Continue <==> succeeds == (
        exit_code == 0),
        command_verdict(context, succeeds, exit_code, stdout, stderr) is Fail <==> succeeds != (
        exit_code == 0),
{
}

/// A command that could not be run passes no step: it skips the rest only where the step says so
/// and what it needs is not there, and else fails the probe.
pub proof fn errors_never_pass(s: StepView, e: ErrorView, debug: Seq<char>)
    ensures
        !(error_verdict(s, e, debug) is Continue),
        s.skip_when == SkipCondition::Never ==> error_verdict(s, e, debug) is Fail,
        s.skip_when == SkipCondition::NoMountNamespaces && !(e is Unavailable) ==> error_verdict(
            s,
            e,
            debug,
        ) is Fail,
        s.skip_when == SkipCondition::NoFilteringPlatform && !(e is Windows) ==> error_verdict(
            s,
            e,
            debug,
        ) is Fail,
        error_verdict(s, e, debug) matches VerdictView::Skip(lines) ==> lines.len()
            == s.skipped.len(),
{
}

/// The network is probed without any target first, and then locally and in the private network,
/// each with both directions, with outbound connections alone and without network.
pub proof fn every_network_is_probed(f: Fixture, i: int)
    requires
        0 <= i < 9,
    ensures
        ({
            let script = windows_script::network_script(f);
            let network = script[i].1.network_policy;
            &&& script.len() == 9
            &&& script[i].1.default_access == SandboxDefaultAccess::ReadOnly
            &&& has_rule(
                script[i].1.path_permissions,
                SandboxPathAccess::ReadWrite,
                f.runtime_cwd@,
            )
            &&& script[i].2 == if i < 3 {
                ProbeTarget::Nothing
            } else if i < 6 {
                ProbeTarget::Loopback
            } else {
                ProbeTarget::PrivateNetwork
            }
            &&& network.allow_unix
            &&& network.allow_connect <==> i % 3 != 2
            &&& network.allow_ipv4 <==> i % 3 != 2
            &&& network.allow_ipv6 <==> i % 3 != 2
            &&& network.allow_listen <==> i % 3 == 0
            &&& network.allow_bind <==> i % 3 == 0
            &&& network.allow_accept <==> i % 3 == 0
        }),
{
    let script = windows_script::network_script(f);
    let rules = script[i].1.path_permissions;
    assert(rules[0] == rule(f.runtime_cwd@, SandboxPathAccess::ReadWrite));
}

/// A step that ran is passed exactly where its command did as expected; one that could not be run is
/// never passed.
pub proof fn steps_are_judged(
    s: &ProbeStep,
    result: &Result<SandboxExecOutput, SandboxError>,
    debug: &str,
    r: Verdict,
)
    requires
        call_ensures(judge_step, (s, result, debug), r),
    ensures
        r is Continue <==> result is Ok && s.succeeds == (result->Ok_0.exit_code == 0),
        result is Ok && s.succeeds != (result->Ok_0.exit_code == 0) ==> r is Fail,
        result is Err && s.skip_when == SkipCondition::Never ==> r is Fail,
{
}

/// The policy of a combination has its default, no network, and a rule for each access that it
/// names.
pub proof fn combinations_become_policies(
    c: &MatrixCase,
    f: &Fixture,
    r: SandboxPolicy,
    path: Seq<u8>,
)
    requires
        call_ensures(MatrixCase::policy, (c, f), r),
    ensures
        r.default_access == c.default_access,
        !r.network_policy.allow_ipv4 && !r.network_policy.allow_ipv6
            && !r.network_policy.allow_connect,
        has_rule(r@.path_permissions, SandboxPathAccess::ReadOnly, path) <==> c.with_read_only
            && path == f.ro_dir@,
        has_rule(r@.path_permissions, SandboxPathAccess::ReadWrite, path) <==> c.with_read_write
            && path == f.rw_dir@,
        has_rule(r@.path_permissions, SandboxPathAccess::Deny, path) <==> c.with_deny && path
            == f.deny_dir@,
{
    lemma_rules_of(r@.path_permissions, path);
}

/// A run is shown as runnable exactly where its command ran and succeeded.
pub proof fn runnable_runs_are_shown(
    result: &Result<SandboxExecOutput, SandboxError>,
    debug: &str,
    unix: String,
    windows: String,
)
    requires
        call_ensures(render_unix_matrix_result, (result, debug), unix),
        call_ensures(render_windows_matrix_result, (result, debug), windows),
        result is Ok,
    ensures
        result->Ok_0.exit_code == 0 ==> unix@ == "runnable"@ && windows@ == "runnable"@,
        result->Ok_0.exit_code != 0 ==> unix@ == "command_failed(exit="@ + signed_decimal(
            result->Ok_0.exit_code as int,
        ) + ")"@ && windows@ == unix@,
{
}

/// The answer to whether a process has the rights of an administrator is one of two words.
pub proof fn elevation_is_answered(stdout: &str, r: Result<bool, String>)
    requires
        call_ensures(parse_elevation_answer, (stdout,), r),
    ensures
        r == Ok::<bool, String>(true) <==> trim(stdout@) == "True"@,
        r == Ok::<bool, String>(false) ==> trim(stdout@) == "False"@,
        r is Err <==> trim(stdout@) != "True"@ && trim(stdout@) != "False"@,
{
}

/// The average of some times lies between the shortest and the longest.
pub proof fn averages_lie_between(samples: &Vec<u128>, r: u128, extremes: (u128, u128))
    requires
        call_ensures(average_ms, (samples,), r),
        call_ensures(extreme_samples, (samples,), extremes),
        samples.len() > 0,
    ensures
        extremes.0 <= r <= extremes.1,
{
    let n = samples@.len();
    lemma_sum_between(samples@, extremes.0 as int, extremes.1 as int);
    let s = sum_of(samples@);
    assert(extremes.0 <= s / n <= extremes.1) by (nonlinear_arith)
        requires
            n > 0,
            extremes.0 * n <= s <= extremes.1 * n,
    ;
}

proof fn lemma_sum_between(samples: Seq<u128>, low: int, high: int)
    requires
        forall|i: int| 0 <= i < samples.len() ==> low <= #[trigger] samples[i] <= high,
    ensures
        low * samples.len() <= sum_of(samples) <= high * samples.len(),
    decreases samples.len(),
{
    if samples.len() > 0 {
        let f = samples.drop_last();
        assert forall|i: int| 0 <= i < f.len() implies low <= #[trigger] f[i] <= high by {
            assert(f[i] == samples[i]);
        }
        lemma_sum_between(f, low, high);
        let last = samples[samples.len() - 1];
        assert(low <= last <= high);
        let m = f.len() as int;
        assert(low * (m + 1) == low * m + low && high * (m + 1) == high * m + high)
            by (nonlinear_arith);
    }
}

/// The network of macOS is probed without network, with outbound connections alone, with both
/// directions, and with sockets that cannot be used, which no profile describes.
pub proof fn every_shape_is_probed_on_macos(f: Fixture, i: int)
    requires
        0 <= i < 4,
    ensures
        ({
            let script = macos_script::network_script(f);
            let network = script[i].1.network_policy;
            &&& script.len() == 4
            &&& script[i].1.default_access == SandboxDefaultAccess::ReadOnly
            &&& has_rule(
                script[i].1.path_permissions,
                SandboxPathAccess::ReadWrite,
                f.runtime_cwd@,
            )
            &&& coarse_shape(network) == if i == 0 {
                Some(SandboxCoarseNetworkPolicy::Disabled)
            } else if i == 1 {
                Some(SandboxCoarseNetworkPolicy::OutboundOnly)
            } else if i == 2 {
                Some(SandboxCoarseNetworkPolicy::Bidirectional)
            } else {
                None
            }
        }),
{
    let script = macos_script::network_script(f);
    let rules = script[i].1.path_permissions;
    assert(rules[0] == rule(f.runtime_cwd@, SandboxPathAccess::ReadWrite));
}

/// Every default is timed without a rule, and with one rule of each access; no timed run has a
/// network.
pub proof fn every_single_rule_is_timed(
    f: Fixture,
    default_access: SandboxDefaultAccess,
    access: SandboxPathAccess,
    i: int,
)
    ensures
        windows_script::timing_script(f).len() == 8,
        0 <= i < 8 ==> windows_script::timing_script(f)[i].1.path_permissions.len() <= 1
            && !windows_script::timing_script(f)[i].1.network_policy.allow_ipv4
            && !windows_script::timing_script(f)[i].1.network_policy.allow_ipv6,
        exists|k: int|
            0 <= k < 8 && (#[trigger] windows_script::timing_script(f)[k]).1.default_access
                == default_access && windows_script::timing_script(
                f,
            )[k].1.path_permissions.len() == 0,
        exists|k: int|
            0 <= k < 8 && (#[trigger] windows_script::timing_script(f)[k]).1.default_access
                == default_access && has_rule(
                windows_script::timing_script(f)[k].1.path_permissions,
                access,
                match access {
                    SandboxPathAccess::Deny => f.deny_dir@,
                    SandboxPathAccess::ReadOnly => f.ro_dir@,
                    SandboxPathAccess::ReadWrite => f.rw_dir@,
                },
            ),
{
    let s = windows_script::timing_script(f);
    let dir = match access {
        SandboxPathAccess::Deny => f.deny_dir@,
        SandboxPathAccess::ReadOnly => f.ro_dir@,
        SandboxPathAccess::ReadWrite => f.rw_dir@,
    };
    let (none, one) = match (default_access, access) {
        (SandboxDefaultAccess::ReadOnly, SandboxPathAccess::ReadWrite) => (0int, 1int),
        (SandboxDefaultAccess::ReadOnly, SandboxPathAccess::ReadOnly) => (0int, 2int),
        (SandboxDefaultAccess::ReadOnly, SandboxPathAccess::Deny) => (0int, 3int),
        (SandboxDefaultAccess::ReadWrite, SandboxPathAccess::ReadOnly) => (4int, 5int),
        (SandboxDefaultAccess::ReadWrite, SandboxPathAccess::ReadWrite) => (4int, 6int),
        (SandboxDefaultAccess::ReadWrite, SandboxPathAccess::Deny) => (4int, 7int),
    };
    assert(s[none].1.path_permissions.len() == 0);
    let rules = s[one].1.path_permissions;
    assert(rules[0].access == access && rules[0].path == dir);
    assert(has_rule(rules, access, dir));
}

/// What the Linux probe reports as enforced behind its first step with mounts is what it reports as
/// not to be had where they are missing, and the other way round.
pub proof fn skipped_results_are_the_later_ones(name: Seq<char>, f: Fixture)
    ensures
        linux_script::mount_results().contains(name) ==> exists|i: int, k: int|
            2 < i < linux_script::enforcement_script(f).len() && 0 <= k
                < linux_script::enforcement_script(f)[i].lines.len()
                && #[trigger] linux_script::enforcement_script(f)[i].lines[k] == name + "=ok"@,
        linux_script::enforcement_script(f)[2].skipped == linux_script::mount_results(),
{
    let r = linux_script::mount_results();
    let s = linux_script::enforcement_script(f);
    reveal_strlit("=ok");
    reveal_strlit("linux.readwrite_plus_readonly_enforcement");
    reveal_strlit("linux.readwrite_plus_readonly_enforcement=ok");
    reveal_strlit("linux.readwrite_plus_deny_enforcement");
    reveal_strlit("linux.readwrite_plus_deny_enforcement=ok");
    reveal_strlit("linux.enforcement.readwrite_readonly");
    reveal_strlit("linux.enforcement.readwrite_readonly=ok");
    reveal_strlit("linux.enforcement.readwrite_deny");
    reveal_strlit("linux.enforcement.readwrite_deny=ok");
    reveal_strlit("linux.enforcement.readonly_deny");
    reveal_strlit("linux.enforcement.readonly_deny=ok");
    reveal_strlit("linux.enforcement.readonly_readwrite_deny");
    reveal_strlit("linux.enforcement.readonly_readwrite_deny=ok");
    if r.contains(name) {
        let n = choose|n: int| 0 <= n < r.len() && r[n] == name;
        if n == 0 {
            assert(s[5].lines[1] =~= name + "=ok"@);
        } else if n == 1 {
            assert(s[7].lines[1] =~= name + "=ok"@);
        } else if n == 2 {
            assert(s[5].lines[0] =~= name + "=ok"@);
        } else if n == 3 {
            assert(s[7].lines[0] =~= name + "=ok"@);
        } else if n == 4 {
            assert(s[8].lines[0] =~= name + "=ok"@);
        } else {
            assert(s[11].lines[0] =~= name + "=ok"@);
        }
    }
}

/// What is said of a command that did not do as expected, and of results that are skipped.
pub proof fn unexpected_outcomes_are_told(
    s: StepView,
    exit_code: i32,
    stdout: Seq<char>,
    stderr: Seq<char>,
    message: Seq<char>,
    debug: Seq<char>,
    i: int,
)
    ensures
        exit_code != 0 ==> command_verdict(s.context, true, exit_code, stdout, stderr)
            == VerdictView::Fail(
            s.context + " failed unexpectedly: exit_code="@ + signed_decimal(exit_code as int)
                + ", stdout="@ + stdout + ", stderr="@ + stderr,
        ),
        command_verdict(s.context, false, 0, stdout, stderr) == VerdictView::Fail(
            s.context + " succeeded unexpectedly: stdout="@ + stdout + ", stderr="@ + stderr,
        ),
        s.skip_when == SkipCondition::NoMountNamespaces ==> (error_verdict(
            s,
            ErrorView::Unavailable(message),
            debug,
        ) matches VerdictView::Skip(lines) ==> 0 <= i < s.skipped.len() ==> lines[i]
            == s.skipped[i] + ("=unavailable("@ + on_one_line(message) + ")"@)),
        s.skip_when == SkipCondition::NoFilteringPlatform ==> (error_verdict(
            s,
            ErrorView::Windows(message),
            debug,
        ) matches VerdictView::Skip(lines) ==> 0 <= i < s.skipped.len() ==> lines[i]
            == s.skipped[i] + "=wfp_unavailable"@),
{
}

/// The rest of a probe is skipped where mount namespaces are said to be missing, wherever in the
/// message that stands.
pub proof fn missing_mounts_skip_the_rest(
    s: StepView,
    before: Seq<char>,
    after: Seq<char>,
    debug: Seq<char>,
)
    requires
        s.skip_when == SkipCondition::NoMountNamespaces,
    ensures
        error_verdict(
            s,
            ErrorView::Unavailable(before + "mount-namespace support"@ + after),
            debug,
        ) is Skip,
{
    texts_are_found_anywhere(before, "mount-namespace support"@, after);
}

} // verus!
