//! Finding a program on Windows, starting it and waiting for it.
use vstd::prelude::*;
use vstd::string::StringExecFns;

use crate::env::EnvMap;
use crate::error::{ErrorView, SandboxError};
use crate::output::TIMEOUT_EXIT_CODE;
use crate::path::{
    component_views, components, depth, display_text, ComponentView, PathComponent, PathStyle,
    SandboxPath,
};
use crate::text::{
    contains_char, signed_decimal, signed_number, split, split_text, texts, trim, trimmed,
};
use crate::windows::environment::{nonempty, optional_text, DEFAULT_PATHEXT};

verus! {

/// The value of a variable under exactly this name: in the environment, where it is set there,
/// else in the process, else the fallback.
pub open spec fn exact_value(
    env: Map<Seq<char>, Seq<char>>,
    key: Seq<char>,
    process: Option<Seq<char>>,
    fallback: Seq<char>,
) -> Seq<char> {
    if env.dom().contains(key) {
        env[key]
    } else {
        match process {
            Some(value) => value,
            None => fallback,
        }
    }
}

fn exact_or(env: &EnvMap, key: &str, process: &Option<String>, fallback: &str) -> (r: String)
    ensures
        r@ == exact_value(env@, key@, optional_text(*process), fallback@),
{
    match env.get(key) {
        Some(value) => value,
        None => match process {
            Some(value) => value.clone(),
            None => fallback.to_owned(),
        },
    }
}

/// The texts of a list without the white space at their ends.
pub open spec fn all_trimmed(parts: Seq<Seq<char>>) -> Seq<Seq<char>> {
    Seq::new(parts.len(), |i: int| trim(parts[i]))
}

/// The extensions of programs that a list names.
pub open spec fn extensions_in(list: Seq<char>) -> Seq<Seq<char>> {
    nonempty(all_trimmed(split(list, ';')))
}

/// The extensions of programs, in the order in which they are tried. `process` is the list of the
/// process, for an environment without one.
pub fn path_extensions(env: &EnvMap, process: &Option<String>) -> (r: Vec<String>)
    ensures
        texts(r@) == extensions_in(
            exact_value(env@, "PATHEXT"@, optional_text(*process), DEFAULT_PATHEXT@),
        ),
{
    let list = exact_or(env, "PATHEXT", process, DEFAULT_PATHEXT);
    let parts = split_text(list.as_str(), ';');
    let ghost all = all_trimmed(texts(parts@));
    let mut r: Vec<String> = Vec::new();
    assert(texts(r@) =~= nonempty(all.take(0)));
    for i in 0..parts.len()
        invariant
            all == all_trimmed(texts(parts@)),
            texts(r@) == nonempty(all.take(i as int)),
    {
        let part = trimmed(parts[i].as_str());
        proof {
            assert(all.take(i + 1).drop_last() =~= all.take(i as int));
            assert(texts(parts@)[i as int] == parts@[i as int]@);
            assert(all.take(i + 1).last() == part@);
        }
        if !part.as_str().is_empty() {
            let ghost before = texts(r@);
            r.push(part);
            assert(texts(r@) =~= before.push(part@));
        }
    }
    assert(all.take(all.len() as int) =~= all);
    r
}

/// How a program is looked for.
#[derive(Debug, PartialEq, Eq)]
pub enum ExecutableLookup {
    /// It is a path, absolute or from the working directory.
    AtPath,
    /// It is a name, and these are tried in this order on this search path.
    OnSearchPath { candidates: Vec<String>, search_path: String },
}

/// A program that is named by a path.
pub open spec fn is_path_program(program: Seq<char>) -> bool {
    depth(PathStyle::Windows, vstd::utf8::encode_utf8(program)) > 1 || program.contains(':')
}

/// The names that are tried for a program: the name itself, and for one without an extension the
/// name with each extension.
pub open spec fn program_candidates(
    program: Seq<char>,
    has_extension: bool,
    extensions: Seq<Seq<char>>,
) -> Seq<Seq<char>> {
    if has_extension {
        seq![program]
    } else {
        seq![program] + Seq::new(extensions.len(), |i: int| program + extensions[i])
    }
}

/// A file name with an extension: something follows its last dot, which is not its first byte.
pub open spec fn name_has_extension(name: Seq<u8>) -> bool {
    exists|i: int| #[trigger] is_last_dot(name, i) && 0 < i < name.len() - 1
}

/// The last dot of a name.
pub open spec fn is_last_dot(name: Seq<u8>, i: int) -> bool {
    &&& 0 <= i < name.len()
    &&& name[i] == 0x2e
    &&& forall|j: int| i < j < name.len() ==> name[j] != 0x2e
}

/// A program whose file name has an extension.
pub open spec fn has_extension(program: Seq<char>) -> bool {
    let cs = components(PathStyle::Windows, vstd::utf8::encode_utf8(program));
    cs.len() > 0 && (cs.last() matches ComponentView::Normal(name) && name_has_extension(name))
}

fn extension_in_name(v: &Vec<u8>) -> (r: bool)
    ensures
        r == name_has_extension(v@),
{
    let mut i: usize = v.len();
    while i > 0
        invariant
            i <= v.len(),
            forall|j: int| i <= j < v.len() ==> v@[j] != 0x2e,
        decreases i,
    {
        i = i - 1;
        if v[i] == 0x2e {
            assert(is_last_dot(v@, i as int));
            proof {
                if name_has_extension(v@) {
                    let k = choose|k: int| #[trigger] is_last_dot(v@, k) && 0 < k < v@.len() - 1;
                    if k < i {
                        assert(v@[i as int] != 0x2e);
                    }
                    if k > i {
                        assert(v@[k] != 0x2e);
                    }
                }
            }
            return i > 0 && i + 1 < v.len();
        }
    }
    proof {
        if name_has_extension(v@) {
            let k = choose|k: int| #[trigger] is_last_dot(v@, k) && 0 < k < v@.len() - 1;
            assert(v@[k] != 0x2e);
        }
    }
    false
}

fn program_has_extension(path: &SandboxPath) -> (r: bool)
    ensures
        ({
            let cs = components(PathStyle::Windows, path@);
            r == (cs.len() > 0 && (cs.last() matches ComponentView::Normal(name)
                && name_has_extension(name)))
        }),
{
    let cs = path.components(PathStyle::Windows);
    assert(component_views(cs@).len() == cs.len());
    if cs.len() == 0 {
        return false;
    }
    assert(component_views(cs@).last() == cs@[cs.len() - 1]@);
    match &cs[cs.len() - 1] {
        PathComponent::Normal(name) => extension_in_name(name),
        _ => false,
    }
}

/// How a program is looked for. `process_path` and `process_pathext` are those of the process, for
/// an environment without them.
pub fn executable_lookup(
    program: &str,
    env: &EnvMap,
    process_path: &Option<String>,
    process_pathext: &Option<String>,
) -> (r: ExecutableLookup)
    ensures
        match r {
            ExecutableLookup::AtPath => is_path_program(program@),
            ExecutableLookup::OnSearchPath { candidates, search_path } => !is_path_program(
                program@,
            ) && search_path@ == exact_value(
                env@,
                "PATH"@,
                optional_text(*process_path),
                Seq::empty(),
            ) && texts(candidates@) == program_candidates(
                program@,
                has_extension(program@),
                extensions_in(
                    exact_value(
                        env@,
                        "PATHEXT"@,
                        optional_text(*process_pathext),
                        DEFAULT_PATHEXT@,
                    ),
                ),
            ),
        },
{
    let path = SandboxPath::from_text(program);
    if path.depth(PathStyle::Windows) > 1 || contains_char(program, ':') {
        return ExecutableLookup::AtPath;
    }
    proof {
        reveal_strlit("");
        assert(""@ =~= Seq::empty());
    }
    let search_path = exact_or(env, "PATH", process_path, "");
    let mut candidates: Vec<String> = Vec::new();
    candidates.push(program.to_owned());
    assert(texts(candidates@) =~= seq![program@]);
    if !program_has_extension(&path) {
        let extensions = path_extensions(env, process_pathext);
        let ghost ext = texts(extensions@);
        let ghost all = Seq::new(ext.len(), |i: int| program@ + ext[i]);
        assert(seq![program@] =~= seq![program@] + all.take(0));
        for i in 0..extensions.len()
            invariant
                ext == texts(extensions@),
                all == Seq::new(ext.len(), |i: int| program@ + ext[i]),
                texts(candidates@) == seq![program@] + all.take(i as int),
        {
            let ghost before = texts(candidates@);
            let name = program.to_owned().concat(extensions[i].as_str());
            candidates.push(name);
            assert(ext[i as int] == extensions@[i as int]@);
            assert(texts(candidates@) =~= before.push(name@));
            assert(before.push(name@) =~= seq![program@] + all.take(i + 1));
        }
        assert(all.take(all.len() as int) =~= all);
    }
    ExecutableLookup::OnSearchPath { candidates, search_path }
}

/// The error for a program that is not found.
pub fn unresolved_executable(program: &str, cwd: &SandboxPath) -> (r: SandboxError)
    ensures
        r@ == ErrorView::InvalidRequest(
            "unable to resolve executable '"@ + program@ + "' from cwd "@ + display_text(
                PathStyle::Windows,
                cwd@,
            ),
        ),
{
    let mut message = "unable to resolve executable '".to_owned();
    message.append(program);
    message.append("' from cwd ");
    message.append(cwd.display(PathStyle::Windows).as_str());
    SandboxError::InvalidRequest(message)
}

/// The error of a failed Windows call. `detail` is the system's text for the code.
pub open spec fn call_failure(context: Seq<char>, code: int, detail: Seq<char>) -> ErrorView {
    ErrorView::Windows(context + " failed: "@ + signed_decimal(code) + " ("@ + detail + ")"@)
}

/// The error of a failed Windows call. `detail` is the system's text for the code.
pub fn windows_error(context: &str, code: i32, detail: &str) -> (r: SandboxError)
    ensures
        r@ == call_failure(context@, code as int, detail@),
{
    let mut message = context.to_owned();
    message.append(" failed: ");
    message.append(signed_number(code as i64).as_str());
    message.append(" (");
    message.append(detail);
    message.append(")");
    SandboxError::Windows(message)
}

/// How long Windows waits where there is no limit.
pub const WAIT_FOREVER: u32 = 0xffff_ffff;

/// What Windows reports when the time is up.
pub const WAIT_TIMED_OUT: u32 = 0x102;

/// The longest time with a limit that one wait can take, in milliseconds: the next number means no
/// limit.
pub const LONGEST_WAIT: u32 = 0xffff_fffe;

/// How long the next wait for a process takes that has run for `elapsed_ms` milliseconds: what is
/// left of its time, but no longer than one wait can take.
pub open spec fn wait_for(elapsed_ms: u128, timeout_ms: Option<u64>) -> u32 {
    match timeout_ms {
        None => WAIT_FOREVER,
        Some(limit) => if elapsed_ms >= limit {
            0
        } else if limit - elapsed_ms <= LONGEST_WAIT {
            (limit - elapsed_ms) as u32
        } else {
            LONGEST_WAIT
        },
    }
}

/// How long the next wait for a process takes that has run for `elapsed_ms` milliseconds.
pub fn next_wait(elapsed_ms: u128, timeout_ms: Option<u64>) -> (r: u32)
    ensures
        r == wait_for(elapsed_ms, timeout_ms),
        match timeout_ms {
            None => r == WAIT_FOREVER,
            Some(limit) => r < WAIT_FOREVER && (elapsed_ms >= limit ==> r == 0) && (elapsed_ms
                < limit ==> 0 < r && elapsed_ms + r <= limit),
        },
{
    match timeout_ms {
        None => WAIT_FOREVER,
        Some(limit) => if elapsed_ms >= limit as u128 {
            0
        } else {
            let left: u128 = limit as u128 - elapsed_ms;
            if left <= LONGEST_WAIT as u128 {
                left as u32
            } else {
                LONGEST_WAIT
            }
        },
    }
}

/// What a wait for a process has shown.
#[derive(Debug, Clone, Copy, PartialEq, Eq, Structural)]
pub enum WaitVerdict {
    /// The process is waited for no longer; its own exit code counts.
    Ended,
    /// The time of the process is up: it is stopped.
    TimedOut,
    /// One wait is over, but not the time of the process.
    WaitAgain,
}

/// What a wait has shown that came back with this result, where the process had run for
/// `elapsed_ms` milliseconds by then.
pub open spec fn verdict_of(
    wait_result: u32,
    elapsed_ms: u128,
    timeout_ms: Option<u64>,
) -> WaitVerdict {
    if wait_result != WAIT_TIMED_OUT {
        WaitVerdict::Ended
    } else if timeout_ms is Some && elapsed_ms >= timeout_ms->0 {
        WaitVerdict::TimedOut
    } else {
        WaitVerdict::WaitAgain
    }
}

/// What a wait has shown that came back with this result, where the process had run for
/// `elapsed_ms` milliseconds by then.
pub fn wait_verdict(wait_result: u32, elapsed_ms: u128, timeout_ms: Option<u64>) -> (r: WaitVerdict)
    ensures
        r == verdict_of(wait_result, elapsed_ms, timeout_ms),
{
    if wait_result != WAIT_TIMED_OUT {
        return WaitVerdict::Ended;
    }
    match timeout_ms {
        Some(limit) => if elapsed_ms >= limit as u128 {
            WaitVerdict::TimedOut
        } else {
            WaitVerdict::WaitAgain
        },
        None => WaitVerdict::WaitAgain,
    }
}

/// A process is stopped only when it has a time limit, has reached it and has not ended.
pub proof fn only_overdue_processes_are_stopped(
    wait_result: u32,
    elapsed_ms: u128,
    timeout_ms: Option<u64>,
)
    ensures
        verdict_of(wait_result, elapsed_ms, timeout_ms) == WaitVerdict::TimedOut <==> wait_result
            == WAIT_TIMED_OUT && timeout_ms is Some && timeout_ms->0 <= elapsed_ms,
{
}

/// A wait never takes longer than the time of the process, and one that took all of its time is
/// followed by another only where the time is longer than one wait can take.
pub proof fn waits_add_up_to_the_limit(elapsed_ms: u128, later_ms: u128, limit: u64)
    requires
        elapsed_ms < limit,
    ensures
        elapsed_ms + wait_for(elapsed_ms, Some(limit)) <= limit,
        elapsed_ms + wait_for(elapsed_ms, Some(limit)) <= later_ms && verdict_of(
            WAIT_TIMED_OUT,
            later_ms,
            Some(limit),
        ) == WaitVerdict::WaitAgain ==> limit - elapsed_ms > LONGEST_WAIT,
{
}

/// An unsigned exit code in the signed form in which it is reported.
pub open spec fn signed_code(raw: u32) -> int {
    if raw < 0x8000_0000 {
        raw as int
    } else {
        raw - 0x1_0000_0000
    }
}

/// The exit code that is reported of a process: the system's own, or the one for commands whose
/// time was up.
pub fn reported_exit_code(timed_out: bool, raw_exit_code: u32) -> (r: i32)
    ensures
        r == if timed_out {
            TIMEOUT_EXIT_CODE as int
        } else {
            signed_code(raw_exit_code)
        },
{
    if timed_out {
        TIMEOUT_EXIT_CODE
    } else if raw_exit_code < 0x8000_0000 {
        raw_exit_code as i32
    } else {
        let wide: i64 = raw_exit_code as i64 - 0x1_0000_0000;
        wide as i32
    }
}

/// The failures after which a run goes on without the ban on child processes: access denied, bad
/// length, invalid parameter and not supported.
pub open spec fn may_degrade(code: i32) -> bool {
    code == 5 || code == 24 || code == 87 || code == 50
}

/// Whether a run goes on without the ban on child processes after this failure.
pub fn child_policy_degrade_allowed(code: i32) -> (r: bool)
    ensures
        r == may_degrade(code),
{
    code == 5 || code == 24 || code == 87 || code == 50
}

/// Why a run goes on without the ban on child processes.
pub open spec fn degraded_reason(code: i32, detail: Seq<char>) -> Seq<char> {
    "windows sandbox degraded mode: child-process restriction policy unavailable ("@
        + signed_decimal(code as int) + ": "@ + detail
        + "); job containment remains active"@
}

/// Why a run goes on without the ban on child processes.
pub fn child_policy_degraded_reason(code: i32, detail: &str) -> (r: String)
    ensures
        r@ == degraded_reason(code, detail@),
{
    let mut reason =
        "windows sandbox degraded mode: child-process restriction policy unavailable (".to_owned();
    reason.append(signed_number(code as i64).as_str());
    reason.append(": ");
    reason.append(detail);
    reason.append("); job containment remains active");
    reason
}

/// What follows an attempt to ban child processes.
#[derive(Debug, PartialEq, Eq)]
pub enum ChildPolicyOutcome {
    /// The ban holds: three attributes are set.
    Restricted,
    /// The run goes on without it, for this reason: two attributes are set.
    Degraded(String),
    /// The run does not go on.
    Failed(SandboxError),
}

/// What follows an attempt to ban child processes. `failure` is the code and the system's text.
pub fn child_policy_outcome(failure: &Option<(i32, String)>) -> (r: ChildPolicyOutcome)
    ensures
        match *failure {
            None => r is Restricted,
            Some(f) => if may_degrade(f.0) {
                r matches ChildPolicyOutcome::Degraded(reason) && reason@ == degraded_reason(
                    f.0,
                    f.1@,
                )
            } else {
                r matches ChildPolicyOutcome::Failed(e) && e@ == call_failure(
                    "UpdateProcThreadAttribute(CHILD_PROCESS_POLICY)"@,
                    f.0 as int,
                    f.1@,
                )
            },
        },
{
    match failure {
        None => ChildPolicyOutcome::Restricted,
        Some(f) => if child_policy_degrade_allowed(f.0) {
            ChildPolicyOutcome::Degraded(child_policy_degraded_reason(f.0, f.1.as_str()))
        } else {
            ChildPolicyOutcome::Failed(
                windows_error(
                    "UpdateProcThreadAttribute(CHILD_PROCESS_POLICY)",
                    f.0,
                    f.1.as_str(),
                ),
            )
        },
    }
}

/// The attributes that a new process can get, in this order.
#[derive(Debug, Clone, Copy, PartialEq, Eq, Structural)]
pub enum ProcessAttribute {
    /// The container and its capabilities.
    Security,
    /// The ban on child processes.
    ChildPolicy,
    /// The job that ends with the run.
    JobList,
}

/// How many attributes a process gets, with the ban on child processes or without it.
pub fn attribute_count(degraded: bool) -> (r: u32)
    ensures
        r == if degraded {
            2int
        } else {
            3
        },
{
    if degraded {
        2
    } else {
        3
    }
}

/// What follows an attempt to set an attribute.
#[derive(Debug, PartialEq, Eq)]
pub enum AttributeStep {
    /// Set this one next.
    Next(ProcessAttribute),
    /// Begin again without the ban on child processes, for this reason.
    StartOver(String),
    /// All are set.
    Done,
    /// The process cannot be started.
    Fail(SandboxError),
}

/// The mathematical value of what follows.
pub enum AttributeStepView {
    Next(ProcessAttribute),
    StartOver(Seq<char>),
    Done,
    Fail(ErrorView),
}

impl View for AttributeStep {
    type V = AttributeStepView;

    open spec fn view(&self) -> AttributeStepView {
        match *self {
            AttributeStep::Next(a) => AttributeStepView::Next(a),
            AttributeStep::StartOver(reason) => AttributeStepView::StartOver(reason@),
            AttributeStep::Done => AttributeStepView::Done,
            AttributeStep::Fail(e) => AttributeStepView::Fail(e@),
        }
    }
}

/// The name of the call that sets an attribute.
pub open spec fn attribute_call(attribute: ProcessAttribute) -> Seq<char> {
    match attribute {
        ProcessAttribute::Security => "UpdateProcThreadAttribute(SECURITY_CAPABILITIES)"@,
        ProcessAttribute::ChildPolicy => "UpdateProcThreadAttribute(CHILD_PROCESS_POLICY)"@,
        ProcessAttribute::JobList => "UpdateProcThreadAttribute(JOB_LIST)"@,
    }
}

/// The attribute behind another one. Without the ban on child processes there is none for it.
pub open spec fn attribute_behind(attribute: ProcessAttribute, degraded: bool) -> AttributeStepView {
    match attribute {
        ProcessAttribute::Security => AttributeStepView::Next(
            if degraded {
                ProcessAttribute::JobList
            } else {
                ProcessAttribute::ChildPolicy
            },
        ),
        ProcessAttribute::ChildPolicy => AttributeStepView::Next(ProcessAttribute::JobList),
        ProcessAttribute::JobList => AttributeStepView::Done,
    }
}

/// What follows an attempt to set an attribute. `failure` is the code and the system's text.
pub open spec fn after_attribute(
    attribute: ProcessAttribute,
    degraded: bool,
    failure: Option<(i32, Seq<char>)>,
) -> AttributeStepView {
    match failure {
        None => attribute_behind(attribute, degraded),
        Some(f) => if attribute == ProcessAttribute::ChildPolicy && may_degrade(f.0) {
            AttributeStepView::StartOver(degraded_reason(f.0, f.1))
        } else {
            AttributeStepView::Fail(call_failure(attribute_call(attribute), f.0 as int, f.1))
        },
    }
}

/// What follows an attempt to set an attribute. `failure` is the code and the system's text.
pub fn following_attribute(
    attribute: ProcessAttribute,
    degraded: bool,
    failure: &Option<(i32, String)>,
) -> (r: AttributeStep)
    ensures
        r@ == after_attribute(
            attribute,
            degraded,
            match *failure {
                None => None,
                Some(f) => Some((f.0, f.1@)),
            },
        ),
{
    match attribute {
        ProcessAttribute::Security => match failure {
            None => if degraded {
                AttributeStep::Next(ProcessAttribute::JobList)
            } else {
                AttributeStep::Next(ProcessAttribute::ChildPolicy)
            },
            Some(f) => AttributeStep::Fail(
                windows_error(
                    "UpdateProcThreadAttribute(SECURITY_CAPABILITIES)",
                    f.0,
                    f.1.as_str(),
                ),
            ),
        },
        ProcessAttribute::ChildPolicy => match child_policy_outcome(failure) {
            ChildPolicyOutcome::Restricted => AttributeStep::Next(ProcessAttribute::JobList),
            ChildPolicyOutcome::Degraded(reason) => AttributeStep::StartOver(reason),
            ChildPolicyOutcome::Failed(e) => AttributeStep::Fail(e),
        },
        ProcessAttribute::JobList => match failure {
            None => AttributeStep::Done,
            Some(f) => AttributeStep::Fail(
                windows_error("UpdateProcThreadAttribute(JOB_LIST)", f.0, f.1.as_str()),
            ),
        },
    }
}

/// A process gets as many attributes as were asked for, its job last, and one without the ban on
/// child processes is only started where the ban is not to be had.
pub proof fn every_process_is_in_a_job(
    attribute: ProcessAttribute,
    degraded: bool,
    failure: Option<(i32, Seq<char>)>,
)
    ensures
        after_attribute(attribute, degraded, failure) is Done <==> attribute
            == ProcessAttribute::JobList && failure is None,
        after_attribute(attribute, degraded, failure) is StartOver <==> attribute
            == ProcessAttribute::ChildPolicy && failure is Some && may_degrade((failure->0).0),
        degraded && attribute == ProcessAttribute::Security && failure is None
            ==> after_attribute(attribute, degraded, failure) == AttributeStepView::Next(
            ProcessAttribute::JobList,
        ),
{
}

/// How a process is started.
#[derive(Debug, Clone, Copy, PartialEq, Eq, Structural)]
pub struct ProcessStart {
    /// The flags of its start-up data: its streams and its window are given.
    pub startup_flags: u32,
    /// Its window: none is shown.
    pub show_window: u16,
    /// The flags of the call: its environment is UTF-16, and its start-up data has attributes.
    pub creation_flags: u32,
    /// Whether it gets the handles that were marked for it.
    pub inherits_handles: bool,
    /// The value of the ban on child processes.
    pub child_policy: u32,
}

/// How a process is started.
pub fn process_start() -> (r: ProcessStart)
    ensures
        r.startup_flags == 0x101,
        r.show_window == 0,
        r.creation_flags == 0x8_0400,
        r.inherits_handles,
        r.child_policy == 1,
{
    ProcessStart {
        startup_flags: 0x101,
        show_window: 0,
        creation_flags: 0x8_0400,
        inherits_handles: true,
        child_policy: 1,
    }
}

/// A process with a limit is waited for as long as it has time left, as far as one wait can take so
/// long; one without a limit is waited for without end.
pub proof fn waits_take_what_is_left(elapsed_ms: u128, limit: u64)
    ensures
        wait_for(elapsed_ms, None) == 0xffff_ffff,
        elapsed_ms >= limit ==> wait_for(elapsed_ms, Some(limit)) == 0,
        elapsed_ms < limit && limit - elapsed_ms < 0xffff_ffff ==> wait_for(elapsed_ms, Some(limit))
            == limit - elapsed_ms,
        elapsed_ms < limit && limit - elapsed_ms >= 0xffff_ffff ==> wait_for(
            elapsed_ms,
            Some(limit),
        ) == 0xffff_fffe,
{
}

/// A wait that did not time out means that the process has ended, whatever its limit; one that did
/// is followed by another exactly while the process has time left.
pub proof fn waits_go_on_while_there_is_time(
    wait_result: u32,
    elapsed_ms: u128,
    timeout_ms: Option<u64>,
)
    ensures
        verdict_of(wait_result, elapsed_ms, timeout_ms) == WaitVerdict::Ended <==> wait_result
            != 258,
        verdict_of(wait_result, elapsed_ms, timeout_ms) == WaitVerdict::WaitAgain <==> wait_result
            == 258 && (timeout_ms is None || elapsed_ms < timeout_ms->0),
{
}

/// An exit code is reported with the same 32 bits, and as a signed number.
pub proof fn exit_codes_keep_their_bits(raw: u32)
    ensures
        i32::MIN <= signed_code(raw) <= i32::MAX,
        signed_code(raw) == raw || signed_code(raw) + 0x1_0000_0000 == raw,
{
}

/// The failures with which a run may go on without the ban on child processes: access denied, a bad
/// length, a call that is not supported and a bad parameter.
pub proof fn only_missing_bans_may_degrade(code: i32)
    ensures
        may_degrade(code) <==> code == 5 || code == 24 || code == 50 || code == 87,
{
}

/// The attributes of a process one by one: its container first, the ban on child processes unless
/// the run goes on without it, and its job last. A failure ends the attempt, except that of the ban,
/// where it is not to be had.
pub proof fn attributes_come_in_order(
    attribute: ProcessAttribute,
    degraded: bool,
    code: i32,
    detail: Seq<char>,
)
    ensures
        after_attribute(ProcessAttribute::Security, false, None) == AttributeStepView::Next(
            ProcessAttribute::ChildPolicy,
        ),
        after_attribute(ProcessAttribute::Security, true, None) == AttributeStepView::Next(
            ProcessAttribute::JobList,
        ),
        after_attribute(ProcessAttribute::ChildPolicy, degraded, None) == AttributeStepView::Next(
            ProcessAttribute::JobList,
        ),
        after_attribute(ProcessAttribute::JobList, degraded, None) == AttributeStepView::Done,
        attribute != ProcessAttribute::ChildPolicy || !(code == 5 || code == 24 || code == 50 || code
            == 87) ==> after_attribute(attribute, degraded, Some((code, detail))) is Fail,
        attribute == ProcessAttribute::ChildPolicy && (code == 5 || code == 24 || code == 50 || code
            == 87) ==> after_attribute(attribute, degraded, Some((code, detail))) is StartOver,
{
}

/// A variable's value is the environment's, else the process's, else the fallback.
pub proof fn the_environment_comes_first(
    env: Map<Seq<char>, Seq<char>>,
    key: Seq<char>,
    process: Seq<char>,
    fallback: Seq<char>,
)
    ensures
        env.contains_key(key) ==> exact_value(env, key, Some(process), fallback) == env[key]
            && exact_value(env, key, None, fallback) == env[key],
        !env.contains_key(key) ==> exact_value(env, key, Some(process), fallback) == process,
        !env.contains_key(key) ==> exact_value(env, key, None, fallback) == fallback,
{
}

/// A program is looked for under its own name first, and, where that has no extension, with every
/// extension behind it, in their order.
pub proof fn extensions_are_tried_in_order(
    program: Seq<char>,
    extensions: Seq<Seq<char>>,
    has_extension: bool,
    i: int,
)
    ensures
        program_candidates(program, has_extension, extensions).len() > 0,
        program_candidates(program, has_extension, extensions)[0] == program,
        has_extension ==> program_candidates(program, has_extension, extensions).len() == 1,
        !has_extension ==> program_candidates(program, has_extension, extensions).len()
            == extensions.len() + 1,
        !has_extension && 0 <= i < extensions.len() ==> program_candidates(
            program,
            has_extension,
            extensions,
        )[i + 1] == program + extensions[i],
{
}

/// A name has an extension exactly where a dot stands neither at its start nor at its end, and none
/// comes behind it.
pub proof fn extensions_follow_the_last_dot(stem: Seq<u8>, rest: Seq<u8>)
    requires
        !rest.contains(0x2e),
    ensures
        name_has_extension(stem + seq![0x2eu8] + rest) <==> stem.len() > 0 && rest.len() > 0,
        !name_has_extension(rest),
{
    let name = stem + seq![0x2eu8] + rest;
    let at = stem.len() as int;
    assert(name[at] == 0x2e);
    assert forall|j: int| at < j < name.len() implies name[j] != 0x2e by {
        assert(rest[j - at - 1] == name[j]);
        assert(rest.contains(rest[j - at - 1]));
    }
    assert(is_last_dot(name, at));
    assert forall|i: int| is_last_dot(name, i) implies i == at by {
        if i < at {
            assert(name[at] != 0x2e);
        }
    }
    assert forall|i: int| !is_last_dot(rest, i) by {
        if 0 <= i < rest.len() {
            assert(rest.contains(rest[i]));
        }
    }
}

/// The extensions of a list are its parts between semicolons, trimmed; those that are then empty
/// are left out.
pub proof fn extensions_are_trimmed_parts(list: Seq<char>, extension: Seq<char>)
    ensures
        extensions_in(list).contains(extension) <==> extension.len() > 0 && exists|i: int|
            0 <= i < split(list, ';').len() && trim(#[trigger] split(list, ';')[i]) == extension,
{
    let parts = split(list, ';');
    let t = all_trimmed(parts);
    lemma_nonempty_contains(t, extension);
    if extensions_in(list).contains(extension) {
        let i = choose|i: int| 0 <= i < t.len() && t[i] == extension;
        assert(trim(parts[i]) == extension);
    }
    if extension.len() > 0 && exists|i: int|
        0 <= i < parts.len() && trim(#[trigger] parts[i]) == extension {
        let i = choose|i: int| 0 <= i < parts.len() && trim(#[trigger] parts[i]) == extension;
        assert(t[i] == extension);
    }
}

proof fn lemma_nonempty_contains(parts: Seq<Seq<char>>, x: Seq<char>)
    ensures
        nonempty(parts).contains(x) <==> x.len() > 0 && parts.contains(x),
    decreases parts.len(),
{
    if parts.len() > 0 {
        let f = parts.drop_last();
        let front = nonempty(f);
        let all = nonempty(parts);
        lemma_nonempty_contains(f, x);
        if all.contains(x) {
            let i = choose|i: int| 0 <= i < all.len() && all[i] == x;
            if i < front.len() {
                assert(front[i] == x);
                let j = choose|j: int| 0 <= j < f.len() && f[j] == x;
                assert(parts[j] == x);
            } else {
                assert(parts[parts.len() - 1] == x);
            }
        }
        if x.len() > 0 && parts.contains(x) {
            let j = choose|j: int| 0 <= j < parts.len() && parts[j] == x;
            if j < f.len() {
                assert(f[j] == x);
                let i = choose|i: int| 0 <= i < front.len() && front[i] == x;
                assert(all[i] == x);
            } else {
                assert(all[all.len() - 1] == x);
            }
        }
    }
}

/// A program with a colon in its name is taken for a path.
pub proof fn drives_make_paths(program: Seq<char>)
    requires
        program.contains(':'),
    ensures
        is_path_program(program),
{
}

/// What is said of an attribute that could not be set, and of a run that goes on without the ban.
pub proof fn failed_attributes_are_named(
    attribute: ProcessAttribute,
    degraded: bool,
    code: i32,
    detail: Seq<char>,
)
    ensures
        after_attribute(attribute, degraded, Some((code, detail))) matches AttributeStepView::Fail(e)
            ==> e == ErrorView::Windows(
            match attribute {
                ProcessAttribute::Security => "UpdateProcThreadAttribute(SECURITY_CAPABILITIES)"@,
                ProcessAttribute::ChildPolicy => "UpdateProcThreadAttribute(CHILD_PROCESS_POLICY)"@,
                ProcessAttribute::JobList => "UpdateProcThreadAttribute(JOB_LIST)"@,
            } + " failed: "@ + signed_decimal(code as int) + " ("@ + detail + ")"@,
        ),
        after_attribute(attribute, degraded, Some((code, detail))) matches
            AttributeStepView::StartOver(why) ==> why
            == "windows sandbox degraded mode: child-process restriction policy unavailable ("@
            + signed_decimal(code as int) + ": "@ + detail
            + "); job containment remains active"@,
{
}

} // verus!
