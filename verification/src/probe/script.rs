//! The steps of a probe and how their results are judged.
use vstd::prelude::*;
use vstd::string::StringExecFns;

use crate::error::{error_text, ErrorView, SandboxError};
use crate::output::SandboxExecOutput;
use crate::path::{PathStyle, SandboxPath};
use crate::policy::{
    disabled_network, permission_views, PermissionView, PolicyView, SandboxDefaultAccess,
    SandboxNetworkPolicy, SandboxPathAccess, SandboxPathPermission, SandboxPolicy,
};
use crate::probe::report::{lacks_filtering, on_one_line, sanitize_probe_message};
use crate::text::{contains_text, has_text, signed_decimal, signed_number, texts};

verus! {

/// The directories and files that a probe works with.
#[derive(Debug, PartialEq, Eq)]
pub struct Fixture {
    pub runtime_cwd: SandboxPath,
    pub deny_dir: SandboxPath,
    pub deny_seed: SandboxPath,
    pub ro_dir: SandboxPath,
    pub ro_seed: SandboxPath,
    pub rw_dir: SandboxPath,
    /// Another spelling of the writable directory.
    pub alias_rw_dir: SandboxPath,
    pub outside_dir: SandboxPath,
    /// A denied directory in the writable one.
    pub nested_deny_dir: SandboxPath,
    pub nested_deny_seed: SandboxPath,
}

/// When the rest of a probe is skipped.
#[derive(Debug, Clone, Copy, PartialEq, Eq, Structural)]
pub enum SkipCondition {
    Never,
    NoMountNamespaces,
    NoFilteringPlatform,
}

/// One step of a probe.
#[derive(Debug, PartialEq, Eq)]
pub struct ProbeStep {
    pub context: String,
    pub command: Vec<String>,
    pub policy: SandboxPolicy,
    /// Whether the command is expected to succeed.
    pub succeeds: bool,
    /// The text in front of an error of the manager, where it is reported in its long form.
    pub error_label: Option<String>,
    pub skip_when: SkipCondition,
    /// The results that are reported as unavailable when the rest is skipped.
    pub skipped: Vec<String>,
    /// What is printed when the step went as expected.
    pub lines: Vec<String>,
}

/// The mathematical value of a step.
pub struct StepView {
    pub context: Seq<char>,
    pub command: Seq<Seq<char>>,
    pub policy: PolicyView,
    pub succeeds: bool,
    pub error_label: Option<Seq<char>>,
    pub skip_when: SkipCondition,
    pub skipped: Seq<Seq<char>>,
    pub lines: Seq<Seq<char>>,
}

impl View for ProbeStep {
    type V = StepView;

    open spec fn view(&self) -> StepView {
        StepView {
            context: self.context@,
            command: texts(self.command@),
            policy: self.policy@,
            succeeds: self.succeeds,
            error_label: match self.error_label {
                Some(s) => Some(s@),
                None => None,
            },
            skip_when: self.skip_when,
            skipped: texts(self.skipped@),
            lines: texts(self.lines@),
        }
    }
}

/// The values of a list of steps.
pub open spec fn script_view(v: Seq<ProbeStep>) -> Seq<StepView> {
    Seq::new(v.len(), |i: int| v[i]@)
}

/// A step that reports an error of the manager in its short form and is never skipped.
pub open spec fn plain_step(
    context: Seq<char>,
    command: Seq<Seq<char>>,
    policy: PolicyView,
    succeeds: bool,
    lines: Seq<Seq<char>>,
) -> StepView {
    StepView {
        context,
        command,
        policy,
        succeeds,
        error_label: None,
        skip_when: SkipCondition::Never,
        skipped: Seq::empty(),
        lines,
    }
}

/// A step that reports an error of the manager in its long form.
pub open spec fn labelled_step(step: StepView, label: Seq<char>) -> StepView {
    StepView { error_label: Some(label), ..step }
}

/// A step after which the rest can be skipped.
pub open spec fn skippable_step(
    step: StepView,
    skip_when: SkipCondition,
    skipped: Seq<Seq<char>>,
) -> StepView {
    StepView { skip_when, skipped, ..step }
}

pub(crate) fn no_lines() -> (r: Vec<String>)
    ensures
        texts(r@) == Seq::<Seq<char>>::empty(),
{
    let r: Vec<String> = Vec::new();
    assert(texts(r@) =~= Seq::empty());
    r
}

pub(crate) fn one_line(a: &str) -> (r: Vec<String>)
    ensures
        texts(r@) == seq![a@],
{
    let mut r: Vec<String> = Vec::new();
    r.push(a.to_owned());
    assert(texts(r@) =~= seq![a@]);
    r
}

pub(crate) fn two_lines(a: &str, b: &str) -> (r: Vec<String>)
    ensures
        texts(r@) == seq![a@, b@],
{
    let mut r: Vec<String> = Vec::new();
    r.push(a.to_owned());
    r.push(b.to_owned());
    assert(texts(r@) =~= seq![a@, b@]);
    r
}

pub(crate) fn step(
    context: &str,
    command: Vec<String>,
    policy: &SandboxPolicy,
    succeeds: bool,
    lines: Vec<String>,
) -> (r: ProbeStep)
    ensures
        r@ == plain_step(context@, texts(command@), policy@, succeeds, texts(lines@)),
{
    ProbeStep {
        context: context.to_owned(),
        command,
        policy: policy.clone(),
        succeeds,
        error_label: None,
        skip_when: SkipCondition::Never,
        skipped: no_lines(),
        lines,
    }
}

pub(crate) fn labelled(step: ProbeStep, label: &str) -> (r: ProbeStep)
    ensures
        r@ == labelled_step(step@, label@),
{
    ProbeStep {
        context: step.context,
        command: step.command,
        policy: step.policy,
        succeeds: step.succeeds,
        error_label: Some(label.to_owned()),
        skip_when: step.skip_when,
        skipped: step.skipped,
        lines: step.lines,
    }
}

pub(crate) fn skippable(step: ProbeStep, skip_when: SkipCondition, skipped: Vec<String>) -> (r: ProbeStep)
    ensures
        r@ == skippable_step(step@, skip_when, texts(skipped@)),
{
    ProbeStep {
        context: step.context,
        command: step.command,
        policy: step.policy,
        succeeds: step.succeeds,
        error_label: step.error_label,
        skip_when,
        skipped,
        lines: step.lines,
    }
}

pub(crate) fn push_step(script: &mut Vec<ProbeStep>, step: ProbeStep)
    ensures
        script_view(final(script)@) == script_view(old(script)@).push(step@),
{
    let ghost before = script_view(script@);
    script.push(step);
    assert(script_view(script@) =~= before.push(step@));
}

/// A policy with the given rules.
pub open spec fn probe_policy(
    default_access: SandboxDefaultAccess,
    network_policy: SandboxNetworkPolicy,
    path_permissions: Seq<PermissionView>,
) -> PolicyView {
    PolicyView { path_permissions, default_access, network_policy }
}

/// A rule.
pub open spec fn rule(path: Seq<u8>, access: SandboxPathAccess) -> PermissionView {
    PermissionView { path, access }
}

pub(crate) fn make_rule(path: &SandboxPath, access: SandboxPathAccess) -> (r: SandboxPathPermission)
    ensures
        r@ == rule(path@, access),
{
    SandboxPathPermission { path: path.clone(), access }
}

pub(crate) fn policy_of_one(
    default_access: SandboxDefaultAccess,
    network_policy: SandboxNetworkPolicy,
    a: SandboxPathPermission,
) -> (r: SandboxPolicy)
    ensures
        r@ == probe_policy(default_access, network_policy, seq![a@]),
{
    let mut path_permissions: Vec<SandboxPathPermission> = Vec::new();
    path_permissions.push(a);
    assert(permission_views(path_permissions@) =~= seq![a@]);
    SandboxPolicy { path_permissions, default_access, network_policy }
}

pub(crate) fn policy_of_two(
    default_access: SandboxDefaultAccess,
    network_policy: SandboxNetworkPolicy,
    a: SandboxPathPermission,
    b: SandboxPathPermission,
) -> (r: SandboxPolicy)
    ensures
        r@ == probe_policy(default_access, network_policy, seq![a@, b@]),
{
    let mut path_permissions: Vec<SandboxPathPermission> = Vec::new();
    path_permissions.push(a);
    path_permissions.push(b);
    assert(permission_views(path_permissions@) =~= seq![a@, b@]);
    SandboxPolicy { path_permissions, default_access, network_policy }
}

pub(crate) fn policy_of_three(
    default_access: SandboxDefaultAccess,
    network_policy: SandboxNetworkPolicy,
    a: SandboxPathPermission,
    b: SandboxPathPermission,
    c: SandboxPathPermission,
) -> (r: SandboxPolicy)
    ensures
        r@ == probe_policy(default_access, network_policy, seq![a@, b@, c@]),
{
    let mut path_permissions: Vec<SandboxPathPermission> = Vec::new();
    path_permissions.push(a);
    path_permissions.push(b);
    path_permissions.push(c);
    assert(permission_views(path_permissions@) =~= seq![a@, b@, c@]);
    SandboxPolicy { path_permissions, default_access, network_policy }
}

/// One combination of a default and rules.
#[derive(Debug, PartialEq, Eq)]
pub struct MatrixCase {
    pub name: String,
    pub default_access: SandboxDefaultAccess,
    pub with_read_only: bool,
    pub with_read_write: bool,
    pub with_deny: bool,
}

/// The mathematical value of a combination.
pub struct CaseView {
    pub name: Seq<char>,
    pub default_access: SandboxDefaultAccess,
    pub with_read_only: bool,
    pub with_read_write: bool,
    pub with_deny: bool,
}

impl View for MatrixCase {
    type V = CaseView;

    open spec fn view(&self) -> CaseView {
        CaseView {
            name: self.name@,
            default_access: self.default_access,
            with_read_only: self.with_read_only,
            with_read_write: self.with_read_write,
            with_deny: self.with_deny,
        }
    }
}

/// The values of a list of combinations.
pub open spec fn case_views(v: Seq<MatrixCase>) -> Seq<CaseView> {
    Seq::new(v.len(), |i: int| v[i]@)
}

/// A combination.
pub open spec fn case(
    name: Seq<char>,
    default_access: SandboxDefaultAccess,
    with_read_only: bool,
    with_read_write: bool,
    with_deny: bool,
) -> CaseView {
    CaseView { name, default_access, with_read_only, with_read_write, with_deny }
}

/// The combinations that are tried, in the order of a Unix system or of Windows.
pub open spec fn all_cases(style: PathStyle) -> Seq<CaseView> {
    let rw = SandboxDefaultAccess::ReadWrite;
    let ro = SandboxDefaultAccess::ReadOnly;
    match style {
        PathStyle::Unix => seq![
            case("readwrite_none"@, rw, false, false, false),
            case("readwrite_readwrite"@, rw, false, true, false),
            case("readwrite_readonly"@, rw, true, false, false),
            case("readwrite_deny"@, rw, false, false, true),
            case("readwrite_readonly_readwrite"@, rw, true, true, false),
            case("readwrite_readonly_deny"@, rw, true, false, true),
            case("readonly_none"@, ro, false, false, false),
            case("readonly_readonly"@, ro, true, false, false),
            case("readonly_readwrite"@, ro, false, true, false),
            case("readonly_deny"@, ro, false, false, true),
            case("readonly_readonly_readwrite"@, ro, true, true, false),
            case("readonly_readwrite_deny"@, ro, false, true, true),
        ],
        PathStyle::Windows => seq![
            case("readwrite_none"@, rw, false, false, false),
            case("readwrite_readwrite"@, rw, false, true, false),
            case("readwrite_readonly"@, rw, true, false, false),
            case("readwrite_readonly_readwrite"@, rw, true, true, false),
            case("readwrite_deny"@, rw, false, false, true),
            case("readwrite_readonly_deny"@, rw, true, false, true),
            case("readonly_none"@, ro, false, false, false),
            case("readonly_readonly"@, ro, true, false, false),
            case("readonly_readwrite"@, ro, false, true, false),
            case("readonly_readonly_readwrite"@, ro, true, true, false),
            case("readonly_deny"@, ro, false, false, true),
            case("readonly_readwrite_deny"@, ro, false, true, true),
        ],
    }
}

fn push_case(
    cases: &mut Vec<MatrixCase>,
    name: &str,
    default_access: SandboxDefaultAccess,
    with_read_only: bool,
    with_read_write: bool,
    with_deny: bool,
)
    ensures
        case_views(final(cases)@) == case_views(old(cases)@).push(
            case(name@, default_access, with_read_only, with_read_write, with_deny),
        ),
{
    let ghost before = case_views(cases@);
    let c = MatrixCase {
        name: name.to_owned(),
        default_access,
        with_read_only,
        with_read_write,
        with_deny,
    };
    cases.push(c);
    assert(case_views(cases@) =~= before.push(c@));
}

/// The combinations that are tried.
pub fn matrix_cases(style: PathStyle) -> (r: Vec<MatrixCase>)
    ensures
        case_views(r@) == all_cases(style),
{
    let rw = SandboxDefaultAccess::ReadWrite;
    let ro = SandboxDefaultAccess::ReadOnly;
    let mut v: Vec<MatrixCase> = Vec::new();
    push_case(&mut v, "readwrite_none", rw, false, false, false);
    push_case(&mut v, "readwrite_readwrite", rw, false, true, false);
    push_case(&mut v, "readwrite_readonly", rw, true, false, false);
    match style {
        PathStyle::Unix => {
            push_case(&mut v, "readwrite_deny", rw, false, false, true);
            push_case(&mut v, "readwrite_readonly_readwrite", rw, true, true, false);
        },
        PathStyle::Windows => {
            push_case(&mut v, "readwrite_readonly_readwrite", rw, true, true, false);
            push_case(&mut v, "readwrite_deny", rw, false, false, true);
        },
    }
    push_case(&mut v, "readwrite_readonly_deny", rw, true, false, true);
    push_case(&mut v, "readonly_none", ro, false, false, false);
    push_case(&mut v, "readonly_readonly", ro, true, false, false);
    push_case(&mut v, "readonly_readwrite", ro, false, true, false);
    match style {
        PathStyle::Unix => {
            push_case(&mut v, "readonly_deny", ro, false, false, true);
            push_case(&mut v, "readonly_readonly_readwrite", ro, true, true, false);
        },
        PathStyle::Windows => {
            push_case(&mut v, "readonly_readonly_readwrite", ro, true, true, false);
            push_case(&mut v, "readonly_deny", ro, false, false, true);
        },
    }
    push_case(&mut v, "readonly_readwrite_deny", ro, false, true, true);
    assert(case_views(v@) =~= all_cases(style));
    v
}

/// The rules of a combination: for the read-only, the writable and the denied directory.
pub open spec fn case_rules(c: CaseView, f: Fixture) -> Seq<PermissionView> {
    let a: Seq<PermissionView> = if c.with_read_only {
        seq![rule(f.ro_dir@, SandboxPathAccess::ReadOnly)]
    } else {
        Seq::empty()
    };
    let b: Seq<PermissionView> = if c.with_read_write {
        a.push(rule(f.rw_dir@, SandboxPathAccess::ReadWrite))
    } else {
        a
    };
    if c.with_deny {
        b.push(rule(f.deny_dir@, SandboxPathAccess::Deny))
    } else {
        b
    }
}

impl MatrixCase {
    /// The policy of this combination, without network.
    pub fn policy(&self, fixture: &Fixture) -> (r: SandboxPolicy)
        ensures
            r@ == probe_policy(
                self.default_access,
                disabled_network(),
                case_rules(self@, *fixture),
            ),
    {
        let mut rules: Vec<SandboxPathPermission> = Vec::new();
        if self.with_read_only {
            rules.push(make_rule(&fixture.ro_dir, SandboxPathAccess::ReadOnly));
        }
        if self.with_read_write {
            rules.push(make_rule(&fixture.rw_dir, SandboxPathAccess::ReadWrite));
        }
        if self.with_deny {
            rules.push(make_rule(&fixture.deny_dir, SandboxPathAccess::Deny));
        }
        assert(permission_views(rules@) =~= case_rules(self@, *fixture));
        SandboxPolicy {
            path_permissions: rules,
            default_access: self.default_access,
            network_policy: SandboxNetworkPolicy::disabled(),
        }
    }
}

/// The names of the combinations tell them apart, and no combination is tried twice.
pub proof fn matrix_cases_are_distinct(style: PathStyle, i: int, j: int)
    requires
        0 <= i < j < all_cases(style).len(),
    ensures
        !(all_cases(style)[i].default_access == all_cases(style)[j].default_access
            && all_cases(style)[i].with_read_only == all_cases(style)[j].with_read_only
            && all_cases(style)[i].with_read_write == all_cases(style)[j].with_read_write
            && all_cases(style)[i].with_deny == all_cases(style)[j].with_deny),
{
}

/// What follows a step.
#[derive(Debug, PartialEq, Eq)]
pub enum Verdict {
    /// It went as expected.
    Continue,
    /// The rest is skipped, and these lines are printed.
    Skip(Vec<String>),
    /// The probe has failed.
    Fail(String),
}

/// The mathematical value of a verdict.
pub enum VerdictView {
    Continue,
    Skip(Seq<Seq<char>>),
    Fail(Seq<char>),
}

impl View for Verdict {
    type V = VerdictView;

    open spec fn view(&self) -> VerdictView {
        match *self {
            Verdict::Continue => VerdictView::Continue,
            Verdict::Skip(lines) => VerdictView::Skip(texts(lines@)),
            Verdict::Fail(text) => VerdictView::Fail(text@),
        }
    }
}

/// An error that means that mounts cannot be used.
pub open spec fn lacks_mounts(e: ErrorView) -> bool {
    e matches ErrorView::Unavailable(m) && has_text(m, "mount-namespace support"@)
}

/// The rest of a probe is skipped after this error.
pub open spec fn is_skipped(when: SkipCondition, e: ErrorView) -> bool {
    match when {
        SkipCondition::Never => false,
        SkipCondition::NoMountNamespaces => lacks_mounts(e),
        SkipCondition::NoFilteringPlatform => lacks_filtering(e),
    }
}

/// What a skipped result is reported as.
pub open spec fn skip_suffix(when: SkipCondition, e: ErrorView) -> Seq<char> {
    match (when, e) {
        (SkipCondition::NoMountNamespaces, ErrorView::Unavailable(m)) => "=unavailable("@
            + on_one_line(m) + ")"@,
        _ => "=wfp_unavailable"@,
    }
}

/// The lines for skipped results.
pub open spec fn skip_lines(names: Seq<Seq<char>>, suffix: Seq<char>) -> Seq<Seq<char>> {
    Seq::new(names.len(), |i: int| names[i] + suffix)
}

/// The text for a command that was to succeed.
pub open spec fn failed_unexpectedly(
    context: Seq<char>,
    exit_code: i32,
    stdout: Seq<char>,
    stderr: Seq<char>,
) -> Seq<char> {
    context + " failed unexpectedly: exit_code="@ + signed_decimal(exit_code as int) + ", stdout="@
        + stdout + ", stderr="@ + stderr
}

/// The text for a command that was to fail.
pub open spec fn succeeded_unexpectedly(
    context: Seq<char>,
    stdout: Seq<char>,
    stderr: Seq<char>,
) -> Seq<char> {
    context + " succeeded unexpectedly: stdout="@ + stdout + ", stderr="@ + stderr
}

/// What a finished command means for a step.
pub open spec fn command_verdict(
    context: Seq<char>,
    succeeds: bool,
    exit_code: i32,
    stdout: Seq<char>,
    stderr: Seq<char>,
) -> VerdictView {
    if succeeds == (exit_code == 0) {
        VerdictView::Continue
    } else if succeeds {
        VerdictView::Fail(failed_unexpectedly(context, exit_code, stdout, stderr))
    } else {
        VerdictView::Fail(succeeded_unexpectedly(context, stdout, stderr))
    }
}

/// What an error of the manager means for a step. `debug` is the error in its long form.
pub open spec fn error_verdict(s: StepView, e: ErrorView, debug: Seq<char>) -> VerdictView {
    if is_skipped(s.skip_when, e) {
        VerdictView::Skip(skip_lines(s.skipped, skip_suffix(s.skip_when, e)))
    } else {
        match s.error_label {
            Some(label) => VerdictView::Fail(label + debug),
            None => VerdictView::Fail(error_text(e)),
        }
    }
}

fn judge_command(context: &str, succeeds: bool, output: &SandboxExecOutput) -> (r: Verdict)
    ensures
        r@ == command_verdict(
            context@,
            succeeds,
            output.exit_code,
            output.stdout@,
            output.stderr@,
        ),
{
    if succeeds == (output.exit_code == 0) {
        return Verdict::Continue;
    }
    let mut text = context.to_owned();
    if succeeds {
        text.append(" failed unexpectedly: exit_code=");
        text.append(signed_number(output.exit_code as i64).as_str());
        text.append(", stdout=");
    } else {
        text.append(" succeeded unexpectedly: stdout=");
    }
    text.append(output.stdout.as_str());
    text.append(", stderr=");
    text.append(output.stderr.as_str());
    Verdict::Fail(text)
}

fn with_suffix(names: &Vec<String>, suffix: &str) -> (r: Vec<String>)
    ensures
        texts(r@) == skip_lines(texts(names@), suffix@),
{
    let mut r: Vec<String> = Vec::new();
    for i in 0..names.len()
        invariant
            r.len() == i,
            forall|j: int| 0 <= j < i ==> (#[trigger] r@[j])@ == names@[j]@ + suffix@,
    {
        let line = names[i].clone().concat(suffix);
        r.push(line);
    }
    assert(texts(r@) =~= skip_lines(texts(names@), suffix@));
    r
}

fn judge_error(s: &ProbeStep, e: &SandboxError, debug: &str) -> (r: Verdict)
    ensures
        r@ == error_verdict(s@, e@, debug@),
{
    match s.skip_when {
        SkipCondition::Never => {},
        SkipCondition::NoMountNamespaces => match e {
            SandboxError::Unavailable(m) => {
                if contains_text(m.as_str(), "mount-namespace support") {
                    let mut suffix = "=unavailable(".to_owned();
                    suffix.append(sanitize_probe_message(m.as_str()).as_str());
                    suffix.append(")");
                    return Verdict::Skip(with_suffix(&s.skipped, suffix.as_str()));
                }
            },
            _ => {},
        },
        SkipCondition::NoFilteringPlatform => match e {
            SandboxError::Windows(m) => {
                if contains_text(m.as_str(), "FwpmEngineOpen0 failed: 50") {
                    return Verdict::Skip(with_suffix(&s.skipped, "=wfp_unavailable"));
                }
            },
            _ => {},
        },
    }
    match &s.error_label {
        Some(label) => Verdict::Fail(label.clone().concat(debug)),
        None => Verdict::Fail(e.message()),
    }
}

/// What the result of a step means. `debug` is an error in its long form.
pub fn judge_step(
    s: &ProbeStep,
    result: &Result<SandboxExecOutput, SandboxError>,
    debug: &str,
) -> (r: Verdict)
    ensures
        r@ == match *result {
            Ok(output) => command_verdict(
                s@.context,
                s.succeeds,
                output.exit_code,
                output.stdout@,
                output.stderr@,
            ),
            Err(e) => error_verdict(s@, e@, debug@),
        },
{
    match result {
        Ok(output) => judge_command(s.context.as_str(), s.succeeds, output),
        Err(e) => judge_error(s, e, debug),
    }
}

/// A step that a command passes is passed by no command with the opposite outcome.
pub proof fn verdicts_tell_outcomes_apart(
    context: Seq<char>,
    succeeds: bool,
    a: i32,
    b: i32,
    stdout: Seq<char>,
    stderr: Seq<char>,
)
    requires
        (a == 0) != (b == 0),
    ensures
        (command_verdict(context, succeeds, a, stdout, stderr) is Continue) != (command_verdict(
            context,
            succeeds,
            b,
            stdout,
            stderr,
        ) is Continue),
{
}

} // verus!
