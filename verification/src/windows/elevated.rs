//! The helper process that has the rights of an administrator.
//!
//! The helper is a script that is told its task on its command line and in a file, and that
//! signals through files. What is written and what is read is worked out here.
use vstd::prelude::*;
use vstd::string::StringExecFns;

use crate::error::{ErrorView, IoFailure, IoFailureKind, SandboxError};
use crate::path::{display_text, path_views, push_part, with_part, PathStyle, SandboxPath};
use crate::path_shape::{
    below, is_on_drive, is_plain_windows_name, names_are_pushed_behind_a_backslash,
};
use crate::policy::SandboxCoarseNetworkPolicy;
use crate::text::{
    blank, chars_of, decimal, eq_ignore_ascii_case, has_text, is_blank, join, join_texts, lower,
    number, occurs_at, same_ignoring_case, split, split_text, starts_with, string_of, texts, trim,
    trimmed,
};
use crate::windows::access::{AclPlan, AclView};
use crate::windows::process::{call_failure, windows_error};
use crate::windows::quoting::{quote_windows_arg, quoted};

verus! {

/// How long to wait for the helper to be ready, in milliseconds.
pub const HELPER_READY_TIMEOUT_MS: u128 = 20_000;

/// How long to wait for the helper to allow connections to the own machine, in milliseconds.
pub const LOOPBACK_READY_TIMEOUT_MS: u128 = 5_000;

/// How long to wait for the helper to stop, in milliseconds.
pub const HELPER_STOP_TIMEOUT_MS: u32 = 5_000;

/// How long to sleep between two looks at the helper, in milliseconds.
pub const HELPER_POLL_INTERVAL_MS: u64 = 100;

/// How many lines of the helper's log an error quotes.
pub const PROGRESS_LINES: usize = 20;

/// What the helper does to the network.
#[derive(Debug, Clone, Copy, PartialEq, Eq, Structural)]
pub enum NetworkRuleMode {
    Untouched,
    BlockAll,
    OutboundOnly,
    Bidirectional,
}

impl NetworkRuleMode {
    /// The number that the helper is told.
    pub open spec fn code(self) -> i32 {
        match self {
            NetworkRuleMode::Untouched => 0,
            NetworkRuleMode::BlockAll => 1,
            NetworkRuleMode::OutboundOnly => 2,
            NetworkRuleMode::Bidirectional => 3,
        }
    }

    /// The number that the helper is told.
    pub fn as_int(self) -> (r: i32)
        ensures
            r == self.code(),
    {
        match self {
            NetworkRuleMode::Untouched => 0,
            NetworkRuleMode::BlockAll => 1,
            NetworkRuleMode::OutboundOnly => 2,
            NetworkRuleMode::Bidirectional => 3,
        }
    }

    /// What the helper does for a coarse network policy.
    pub fn for_policy(policy: SandboxCoarseNetworkPolicy) -> (r: Self)
        ensures
            r == match policy {
                SandboxCoarseNetworkPolicy::Disabled => NetworkRuleMode::BlockAll,
                SandboxCoarseNetworkPolicy::OutboundOnly => NetworkRuleMode::OutboundOnly,
                SandboxCoarseNetworkPolicy::Bidirectional => NetworkRuleMode::Bidirectional,
            },
    {
        match policy {
            SandboxCoarseNetworkPolicy::Disabled => NetworkRuleMode::BlockAll,
            SandboxCoarseNetworkPolicy::OutboundOnly => NetworkRuleMode::OutboundOnly,
            SandboxCoarseNetworkPolicy::Bidirectional => NetworkRuleMode::Bidirectional,
        }
    }
}

/// The lines of a task for some paths: the kind of the entry, a tab and the path.
pub open spec fn task_lines(kind: Seq<char>, paths: Seq<Seq<u8>>) -> Seq<Seq<char>> {
    Seq::new(paths.len(), |i: int| kind + display_text(PathStyle::Windows, paths[i]))
}

/// All lines of a task: denials first.
pub open spec fn all_task_lines(plan: AclView) -> Seq<Seq<char>> {
    task_lines("dn\t"@, plan.deny_access) + task_lines("dw\t"@, plan.deny_write) + task_lines(
        "ro\t"@,
        plan.allow_readonly,
    ) + task_lines("rw\t"@, plan.allow_readwrite)
}

/// The file that tells the helper its task: a line for each entry, and nothing for no entries.
pub open spec fn task_text(plan: AclView) -> Seq<char> {
    if all_task_lines(plan).len() == 0 {
        Seq::empty()
    } else {
        join(all_task_lines(plan), "\n"@) + "\n"@
    }
}

fn push_task_lines(out: &mut Vec<String>, kind: &str, paths: &Vec<SandboxPath>)
    ensures
        texts(final(out)@) == texts(old(out)@) + task_lines(kind@, path_views(paths@)),
{
    let ghost before = texts(out@);
    let ghost all = task_lines(kind@, path_views(paths@));
    assert(before =~= before + all.take(0));
    for i in 0..paths.len()
        invariant
            all == task_lines(kind@, path_views(paths@)),
            texts(out@) == before + all.take(i as int),
    {
        let ghost was = texts(out@);
        let line = kind.to_owned().concat(paths[i].display(PathStyle::Windows).as_str());
        out.push(line);
        assert(path_views(paths@)[i as int] == paths@[i as int]@);
        assert(all[i as int] == line@);
        assert(texts(out@) =~= was.push(line@));
        assert(was.push(line@) =~= before + all.take(i + 1));
    }
    assert(all.take(all.len() as int) =~= all);
}

/// The file that tells the helper its task.
pub fn serialize_acl_spec(plan: &AclPlan) -> (r: String)
    ensures
        r@ == task_text(plan@),
{
    let mut lines: Vec<String> = Vec::new();
    assert(texts(lines@) =~= Seq::empty());
    push_task_lines(&mut lines, "dn\t", &plan.deny_access_paths);
    push_task_lines(&mut lines, "dw\t", &plan.deny_write_paths);
    push_task_lines(&mut lines, "ro\t", &plan.allow_readonly_paths);
    push_task_lines(&mut lines, "rw\t", &plan.allow_readwrite_paths);
    assert(texts(lines@) =~= all_task_lines(plan@));
    if lines.len() == 0 {
        String::new()
    } else {
        join_texts(&lines, "\n").concat("\n")
    }
}

/// What the helper is told on its command line.
#[derive(Debug, PartialEq, Eq)]
pub struct HelperLaunch {
    pub script: SandboxPath,
    pub sid: String,
    pub container: String,
    pub task_file: SandboxPath,
    pub stop_file: SandboxPath,
    pub ready_file: SandboxPath,
    pub progress_file: SandboxPath,
    pub loopback_start_file: SandboxPath,
    pub loopback_ready_file: SandboxPath,
    pub parent_pid: u32,
    pub executable: SandboxPath,
    pub out_rule: String,
    pub in_rule: String,
    pub mode: NetworkRuleMode,
}

/// A path as an argument of a command line.
pub open spec fn path_argument(path: Seq<u8>) -> Seq<char> {
    quoted(display_text(PathStyle::Windows, path))
}

/// How PowerShell is started to run a script unseen.
pub open spec fn script_start() -> Seq<char> {
    "-NoProfile -NonInteractive -ExecutionPolicy Bypass -WindowStyle Hidden -File "@
}

/// The command line of the helper.
pub open spec fn launch_text(l: HelperLaunch) -> Seq<char> {
    script_start() + path_argument(l.script@) + " -Sid "@ + quoted(l.sid@) + " -AppContainerName "@
        + quoted(l.container@) + " -SpecFile "@ + path_argument(l.task_file@) + " -StopFile "@
        + path_argument(l.stop_file@) + " -ReadyFile "@ + path_argument(l.ready_file@)
        + " -ProgressFile "@ + path_argument(l.progress_file@) + " -LoopbackServerStartFile "@
        + path_argument(l.loopback_start_file@) + " -LoopbackServerReadyFile "@ + path_argument(
        l.loopback_ready_file@,
    ) + " -ParentPid "@ + decimal(l.parent_pid as nat) + " -Executable "@ + path_argument(
        l.executable@,
    ) + " -OutRule "@ + quoted(l.out_rule@) + " -InRule "@ + quoted(l.in_rule@)
        + " -NetworkRuleMode "@ + decimal(l.mode.code() as nat)
}

fn quote_path(path: &SandboxPath) -> (r: String)
    ensures
        r@ == path_argument(path@),
{
    let shown = path.display(PathStyle::Windows);
    quote_windows_arg(shown.as_str())
}

/// The command line of the helper.
pub fn elevated_powershell_parameters(l: &HelperLaunch) -> (r: String)
    ensures
        r@ == launch_text(*l),
{
    let mut line =
        "-NoProfile -NonInteractive -ExecutionPolicy Bypass -WindowStyle Hidden -File ".to_owned();
    line.append(quote_path(&l.script).as_str());
    line.append(" -Sid ");
    line.append(quote_windows_arg(l.sid.as_str()).as_str());
    line.append(" -AppContainerName ");
    line.append(quote_windows_arg(l.container.as_str()).as_str());
    line.append(" -SpecFile ");
    line.append(quote_path(&l.task_file).as_str());
    line.append(" -StopFile ");
    line.append(quote_path(&l.stop_file).as_str());
    line.append(" -ReadyFile ");
    line.append(quote_path(&l.ready_file).as_str());
    line.append(" -ProgressFile ");
    line.append(quote_path(&l.progress_file).as_str());
    line.append(" -LoopbackServerStartFile ");
    line.append(quote_path(&l.loopback_start_file).as_str());
    line.append(" -LoopbackServerReadyFile ");
    line.append(quote_path(&l.loopback_ready_file).as_str());
    line.append(" -ParentPid ");
    line.append(number(l.parent_pid as u128).as_str());
    line.append(" -Executable ");
    line.append(quote_path(&l.executable).as_str());
    line.append(" -OutRule ");
    line.append(quote_windows_arg(l.out_rule.as_str()).as_str());
    line.append(" -InRule ");
    line.append(quote_windows_arg(l.in_rule.as_str()).as_str());
    line.append(" -NetworkRuleMode ");
    line.append(number(l.mode.as_int() as u128).as_str());
    line
}

/// The command line of the helper that only blocks the network.
pub fn firewall_powershell_parameters(
    script: &SandboxPath,
    executable: &SandboxPath,
    rule_prefix: &str,
    stop_file: &SandboxPath,
    ready_file: &SandboxPath,
) -> (r: String)
    ensures
        r@ == script_start() + path_argument(script@) + " -Executable "@ + path_argument(
            executable@,
        ) + " -RulePrefix "@ + quoted(rule_prefix@) + " -StopFile "@ + path_argument(stop_file@)
            + " -ReadyFile "@ + path_argument(ready_file@),
{
    let mut line =
        "-NoProfile -NonInteractive -ExecutionPolicy Bypass -WindowStyle Hidden -File ".to_owned();
    line.append(quote_path(script).as_str());
    line.append(" -Executable ");
    line.append(quote_path(executable).as_str());
    line.append(" -RulePrefix ");
    line.append(quote_windows_arg(rule_prefix).as_str());
    line.append(" -StopFile ");
    line.append(quote_path(stop_file).as_str());
    line.append(" -ReadyFile ");
    line.append(quote_path(ready_file).as_str());
    line
}

/// The path of PowerShell below a Windows directory.
pub open spec fn powershell_below(windir: Seq<u8>) -> Seq<u8> {
    with_part(
        with_part(
            with_part(
                with_part(windir, vstd::utf8::encode_utf8("System32"@)),
                vstd::utf8::encode_utf8("WindowsPowerShell"@),
            ),
            vstd::utf8::encode_utf8("v1.0"@),
        ),
        vstd::utf8::encode_utf8("powershell.exe"@),
    )
}

/// The path of PowerShell. `windir` is the Windows directory, where the environment names it.
pub fn powershell_executable_path(windir: &Option<String>) -> (r: SandboxPath)
    ensures
        r@ == powershell_below(
            vstd::utf8::encode_utf8(
                match *windir {
                    Some(w) => w@,
                    None => "C:\\Windows"@,
                },
            ),
        ),
{
    let base = match windir {
        Some(w) => SandboxPath::from_text(w.as_str()),
        None => SandboxPath::from_text("C:\\Windows"),
    };
    let a = push_part(&base.bytes, SandboxPath::from_text("System32").bytes.as_slice());
    let b = push_part(&a, SandboxPath::from_text("WindowsPowerShell").bytes.as_slice());
    let c = push_part(&b, SandboxPath::from_text("v1.0").bytes.as_slice());
    let d = push_part(&c, SandboxPath::from_text("powershell.exe").bytes.as_slice());
    SandboxPath { bytes: d }
}

/// What a signal file says.
#[derive(Debug, PartialEq, Eq)]
pub enum ReadySignal {
    Pending,
    Ready,
    Error(String),
}

/// The mathematical value of a signal.
pub enum SignalView {
    Pending,
    Ready,
    Error(Seq<char>),
}

impl View for ReadySignal {
    type V = SignalView;

    open spec fn view(&self) -> SignalView {
        match *self {
            ReadySignal::Pending => SignalView::Pending,
            ReadySignal::Ready => SignalView::Ready,
            ReadySignal::Error(m) => SignalView::Error(m@),
        }
    }
}

/// What the contents of a signal file mean: nothing yet where it is blank, success where it says
/// so, and otherwise an error, with or without the word in front of it.
pub open spec fn signal_in(contents: Seq<char>) -> SignalView {
    let text = trim(contents);
    if text.len() == 0 {
        SignalView::Pending
    } else if same_ignoring_case(text, "ok"@) {
        SignalView::Ready
    } else if "error:"@.is_prefix_of(text) {
        SignalView::Error(trim(text.subrange("error:"@.len() as int, text.len() as int)))
    } else {
        SignalView::Error(text)
    }
}

/// What the contents of a signal file mean.
pub fn parse_ready_signal(contents: &str) -> (r: ReadySignal)
    ensures
        r@ == signal_in(contents@),
{
    let text = trimmed(contents);
    if text.as_str().is_empty() {
        return ReadySignal::Pending;
    }
    if eq_ignore_ascii_case(text.as_str(), "ok") {
        return ReadySignal::Ready;
    }
    if starts_with(text.as_str(), "error:") {
        let v = chars_of(text.as_str());
        let prefix = chars_of("error:");
        let rest = string_of(vstd::slice::slice_subrange(v.as_slice(), prefix.len(), v.len()));
        return ReadySignal::Error(trimmed(rest.as_str()));
    }
    ReadySignal::Error(text)
}

/// The number of the system's error for a file that is in use.
pub const SHARING_VIOLATION: i32 = 32;

/// What it means that a signal file cannot be read: nothing yet where it is not there or may not
/// be read, or where it is in use and that counts; and otherwise an error.
pub fn unread_ready_signal(failure: &IoFailure, in_use_counts: bool) -> (r: Result<
    ReadySignal,
    SandboxError,
>)
    ensures
        if failure.kind == IoFailureKind::NotFound || failure.kind
            == IoFailureKind::PermissionDenied || (in_use_counts && failure.raw_os_error == Some(
            SHARING_VIOLATION,
        )) {
            r matches Ok(s) && s@ == SignalView::Pending
        } else {
            r matches Err(e) && e@ == ErrorView::Io(
                failure.kind,
                failure.raw_os_error,
                failure.message@,
            )
        },
{
    let in_use = match failure.raw_os_error {
        Some(code) => code == SHARING_VIOLATION,
        None => false,
    };
    if failure.kind == IoFailureKind::NotFound || failure.kind == IoFailureKind::PermissionDenied
        || (in_use_counts && in_use) {
        Ok(ReadySignal::Pending)
    } else {
        Err(SandboxError::Io(failure.clone()))
    }
}

/// A line without the carriage return that it ends with.
pub open spec fn without_return(s: Seq<char>) -> Seq<char> {
    if s.len() > 0 && s.last() == '\r' {
        s.drop_last()
    } else {
        s
    }
}

/// The lines of a text. A line ends with a line feed, with or without a carriage return in front
/// of it; what follows the last line feed is a line where it is not empty.
pub open spec fn lines_of(s: Seq<char>) -> Seq<Seq<char>> {
    let pieces = split(s, '\n');
    let ended = pieces.drop_last();
    let lines = Seq::new(ended.len(), |i: int| without_return(ended[i]));
    if pieces.last().len() > 0 {
        lines.push(pieces.last())
    } else {
        lines
    }
}

/// The lines that hold more than white space.
pub open spec fn written_lines(lines: Seq<Seq<char>>) -> Seq<Seq<char>>
    decreases lines.len(),
{
    if lines.len() == 0 {
        lines
    } else if is_blank(lines.last()) {
        written_lines(lines.drop_last())
    } else {
        written_lines(lines.drop_last()).push(lines.last())
    }
}

/// The last of some lines, at most `max` of them.
pub open spec fn last_lines(lines: Seq<Seq<char>>, max: nat) -> Seq<Seq<char>> {
    if lines.len() <= max {
        lines
    } else {
        lines.subrange(lines.len() - max, lines.len() as int)
    }
}

/// How an error quotes the end of the helper's log.
pub open spec fn tail_text(content: Seq<char>, max: nat) -> Seq<char> {
    let lines = written_lines(lines_of(content));
    if lines.len() == 0 {
        "(no progress lines)"@
    } else {
        join(last_lines(lines, max), " || "@)
    }
}

fn split_lines(content: &str) -> (r: Vec<String>)
    ensures
        texts(r@) == lines_of(content@),
{
    let pieces = split_text(content, '\n');
    let ghost ps = texts(pieces@);
    proof {
        crate::text::lemma_split_nonempty(content@, '\n');
        assert(ps.len() == pieces.len());
    }
    let last: usize = pieces.len() - 1;
    let mut r: Vec<String> = Vec::new();
    for i in 0..last
        invariant
            ps == texts(pieces@),
            last + 1 == pieces.len(),
            r.len() == i,
            forall|j: int| 0 <= j < i ==> (#[trigger] r@[j])@ == without_return(ps[j]),
    {
        let v = chars_of(pieces[i].as_str());
        assert(ps[i as int] == pieces@[i as int]@);
        if v.len() > 0 && v[v.len() - 1] == '\r' {
            let line = string_of(vstd::slice::slice_subrange(v.as_slice(), 0, v.len() - 1));
            assert(line@ =~= without_return(ps[i as int]));
            r.push(line);
        } else {
            r.push(pieces[i].clone());
        }
    }
    let ghost ended = ps.drop_last();
    let ghost lines = Seq::new(ended.len(), |i: int| without_return(ended[i]));
    assert(texts(r@) =~= lines);
    assert(ps.last() == pieces@[last as int]@);
    if !pieces[last].as_str().is_empty() {
        let tail = pieces[last].clone();
        r.push(tail);
        assert(texts(r@) =~= lines.push(tail@));
    }
    r
}

/// How an error quotes the end of the helper's log.
pub fn progress_tail(content: &str, max_lines: usize) -> (r: String)
    ensures
        r@ == tail_text(content@, max_lines as nat),
{
    let all = split_lines(content);
    let ghost ls = texts(all@);
    let mut lines: Vec<String> = Vec::new();
    assert(texts(lines@) =~= written_lines(ls.take(0)));
    for i in 0..all.len()
        invariant
            ls == texts(all@),
            texts(lines@) == written_lines(ls.take(i as int)),
    {
        proof {
            assert(ls.take(i + 1).drop_last() =~= ls.take(i as int));
            assert(ls.take(i + 1).last() == all@[i as int]@);
        }
        if !blank(all[i].as_str()) {
            let ghost before = texts(lines@);
            lines.push(all[i].clone());
            assert(texts(lines@) =~= before.push(all@[i as int]@));
        }
    }
    assert(ls.take(ls.len() as int) =~= ls);
    assert(texts(lines@).len() == lines.len());
    if lines.len() == 0 {
        return "(no progress lines)".to_owned();
    }
    let start: usize = if lines.len() > max_lines {
        lines.len() - max_lines
    } else {
        0
    };
    let mut shown: Vec<String> = Vec::new();
    for i in start..lines.len()
        invariant
            start <= lines.len(),
            shown.len() == i - start,
            forall|j: int| 0 <= j < shown.len() ==> (#[trigger] shown@[j])@ == lines@[j + start]@,
    {
        shown.push(lines[i].clone());
    }
    assert(texts(shown@) =~= last_lines(texts(lines@), max_lines as nat));
    join_texts(&shown, " || ")
}

/// What an error says where the helper's log cannot be read.
pub fn unread_progress(failure: &IoFailure) -> (r: String)
    ensures
        r@ == if failure.kind == IoFailureKind::NotFound {
            "(progress file missing)"@
        } else {
            "(failed to read progress file: "@ + failure.message@ + ")"@
        },
{
    if failure.kind == IoFailureKind::NotFound {
        "(progress file missing)".to_owned()
    } else {
        let mut text = "(failed to read progress file: ".to_owned();
        text.append(failure.message.as_str());
        text.append(")");
        text
    }
}

/// What a helper is waited for.
#[derive(Debug, Clone, Copy, PartialEq, Eq, Structural)]
pub enum HelperPhase {
    /// That access lists and the network are set up.
    Setup,
    /// That connections to the own machine are allowed.
    LoopbackServer,
    /// That the network is blocked.
    Firewall,
}

/// How long a helper is waited for.
pub open spec fn phase_timeout(phase: HelperPhase) -> u128 {
    match phase {
        HelperPhase::LoopbackServer => LOOPBACK_READY_TIMEOUT_MS,
        _ => HELPER_READY_TIMEOUT_MS,
    }
}

/// What was seen of a helper: what it signals, whether it has ended and for how long it has been
/// waited for.
#[derive(Debug, PartialEq, Eq)]
pub struct HelperStatus {
    pub signal: ReadySignal,
    pub exit_code: Option<u32>,
    pub elapsed_ms: u128,
    /// The end of its log.
    pub progress: String,
    /// Where it works.
    pub workspace: SandboxPath,
}

/// The error that a helper reports itself.
pub open spec fn reported_error(phase: HelperPhase, message: Seq<char>, progress: Seq<char>) -> Seq<
    char,
> {
    match phase {
        HelperPhase::Setup => "automatic administrator elevated-ops initialization failed: "@
            + message + "; last progress: "@ + progress,
        HelperPhase::LoopbackServer =>
            "automatic administrator loopback-server initialization failed: "@ + message
                + "; last progress: "@ + progress,
        HelperPhase::Firewall =>
            "automatic administrator elevation helper initialization failed: "@ + message,
    }
}

/// The error for a helper that has ended too early.
pub open spec fn early_exit_error(
    phase: HelperPhase,
    code: u32,
    workspace: Seq<char>,
    progress: Seq<char>,
) -> Seq<char> {
    match phase {
        HelperPhase::Setup =>
            "automatic administrator elevated-ops helper exited before initialization (exit code "@
                + decimal(code as nat) + ", workspace: "@ + workspace + ", last progress: "@
                + progress + ")"@,
        HelperPhase::LoopbackServer =>
            "automatic administrator elevated-ops helper exited before loopback-server readiness (exit code "@
                + decimal(code as nat) + ", workspace: "@ + workspace + ", last progress: "@
                + progress + ")"@,
        HelperPhase::Firewall =>
            "automatic administrator elevation helper exited before initialization (exit code "@
                + decimal(code as nat) + ", workspace: "@ + workspace + ")"@,
    }
}

/// The error for a helper that takes too long.
pub open spec fn late_error(phase: HelperPhase, workspace: Seq<char>, progress: Seq<char>) -> Seq<
    char,
> {
    match phase {
        HelperPhase::Setup =>
            "automatic administrator elevated-ops helper timed out before readiness (workspace: "@
                + workspace + ", last progress: "@ + progress + ")"@,
        HelperPhase::LoopbackServer =>
            "automatic administrator loopback-server helper timed out before readiness (workspace: "@
                + workspace + ", last progress: "@ + progress + ")"@,
        HelperPhase::Firewall =>
            "automatic administrator elevation helper timed out before readiness (workspace: "@
                + workspace + ")"@,
    }
}

/// What to do about a helper that is waited for.
#[derive(Debug, PartialEq, Eq)]
pub enum HelperAction {
    /// It is ready.
    Proceed,
    /// Look again after this many milliseconds.
    Sleep(u64),
    /// Give up.
    Fail(SandboxError),
}

/// The mathematical value of an action.
pub enum ActionView {
    Proceed,
    Sleep(u64),
    Fail(ErrorView),
}

impl View for HelperAction {
    type V = ActionView;

    open spec fn view(&self) -> ActionView {
        match *self {
            HelperAction::Proceed => ActionView::Proceed,
            HelperAction::Sleep(ms) => ActionView::Sleep(ms),
            HelperAction::Fail(e) => ActionView::Fail(e@),
        }
    }
}

/// What to do about a helper: what it signals counts first, then whether it has ended, then the
/// time.
pub open spec fn action_for(phase: HelperPhase, s: HelperStatus) -> ActionView {
    let workspace = display_text(PathStyle::Windows, s.workspace@);
    match s.signal@ {
        SignalView::Ready => ActionView::Proceed,
        SignalView::Error(message) => ActionView::Fail(
            ErrorView::Denied(reported_error(phase, message, s.progress@)),
        ),
        SignalView::Pending => match s.exit_code {
            Some(code) => ActionView::Fail(
                ErrorView::Denied(early_exit_error(phase, code, workspace, s.progress@)),
            ),
            None => if s.elapsed_ms >= phase_timeout(phase) {
                ActionView::Fail(ErrorView::Denied(late_error(phase, workspace, s.progress@)))
            } else {
                ActionView::Sleep(HELPER_POLL_INTERVAL_MS)
            },
        },
    }
}

fn reported(phase: HelperPhase, message: &str, progress: &str) -> (r: String)
    ensures
        r@ == reported_error(phase, message@, progress@),
{
    let mut text = match phase {
        HelperPhase::Setup =>
            "automatic administrator elevated-ops initialization failed: ".to_owned(),
        HelperPhase::LoopbackServer =>
            "automatic administrator loopback-server initialization failed: ".to_owned(),
        HelperPhase::Firewall =>
            "automatic administrator elevation helper initialization failed: ".to_owned(),
    };
    text.append(message);
    if phase != HelperPhase::Firewall {
        text.append("; last progress: ");
        text.append(progress);
    }
    text
}

fn early_exit(phase: HelperPhase, code: u32, workspace: &str, progress: &str) -> (r: String)
    ensures
        r@ == early_exit_error(phase, code, workspace@, progress@),
{
    let mut text = match phase {
        HelperPhase::Setup =>
            "automatic administrator elevated-ops helper exited before initialization (exit code ".to_owned(),
        HelperPhase::LoopbackServer =>
            "automatic administrator elevated-ops helper exited before loopback-server readiness (exit code ".to_owned(),
        HelperPhase::Firewall =>
            "automatic administrator elevation helper exited before initialization (exit code ".to_owned(),
    };
    text.append(number(code as u128).as_str());
    text.append(", workspace: ");
    text.append(workspace);
    if phase != HelperPhase::Firewall {
        text.append(", last progress: ");
        text.append(progress);
    }
    text.append(")");
    text
}

fn late(phase: HelperPhase, workspace: &str, progress: &str) -> (r: String)
    ensures
        r@ == late_error(phase, workspace@, progress@),
{
    let mut text = match phase {
        HelperPhase::Setup =>
            "automatic administrator elevated-ops helper timed out before readiness (workspace: ".to_owned(),
        HelperPhase::LoopbackServer =>
            "automatic administrator loopback-server helper timed out before readiness (workspace: ".to_owned(),
        HelperPhase::Firewall =>
            "automatic administrator elevation helper timed out before readiness (workspace: ".to_owned(),
    };
    text.append(workspace);
    if phase != HelperPhase::Firewall {
        text.append(", last progress: ");
        text.append(progress);
    }
    text.append(")");
    text
}

/// What to do about a helper that is waited for.
pub fn helper_action(phase: HelperPhase, s: &HelperStatus) -> (r: HelperAction)
    ensures
        r@ == action_for(phase, *s),
{
    match &s.signal {
        ReadySignal::Ready => HelperAction::Proceed,
        ReadySignal::Error(message) => HelperAction::Fail(
            SandboxError::Denied(reported(phase, message.as_str(), s.progress.as_str())),
        ),
        ReadySignal::Pending => {
            let workspace = s.workspace.display(PathStyle::Windows);
            match s.exit_code {
                Some(code) => HelperAction::Fail(
                    SandboxError::Denied(
                        early_exit(phase, code, workspace.as_str(), s.progress.as_str()),
                    ),
                ),
                None => {
                    let limit: u128 = match phase {
                        HelperPhase::LoopbackServer => LOOPBACK_READY_TIMEOUT_MS,
                        _ => HELPER_READY_TIMEOUT_MS,
                    };
                    if s.elapsed_ms >= limit {
                        HelperAction::Fail(
                            SandboxError::Denied(
                                late(phase, workspace.as_str(), s.progress.as_str()),
                            ),
                        )
                    } else {
                        HelperAction::Sleep(HELPER_POLL_INTERVAL_MS)
                    }
                },
            }
        },
    }
}

/// What to do about a helper that was told to stop.
#[derive(Debug, Clone, Copy, PartialEq, Eq, Structural)]
pub enum StopAction {
    /// It has ended.
    Nothing,
    /// End it and wait for it.
    TerminateAndWait,
    /// End it.
    Terminate,
}

/// What to do about a helper that was told to stop: `Some(true)` says that it has ended,
/// `Some(false)` that it still runs, and `None` that this could not be found out.
pub fn stop_action(ended: Option<bool>) -> (r: StopAction)
    ensures
        r == match ended {
            Some(true) => StopAction::Nothing,
            Some(false) => StopAction::TerminateAndWait,
            None => StopAction::Terminate,
        },
{
    match ended {
        Some(e) => if e {
            StopAction::Nothing
        } else {
            StopAction::TerminateAndWait
        },
        None => StopAction::Terminate,
    }
}

/// The number of the system's error for a question that the user answered with no.
pub const CANCELLED: i32 = 1223;

/// The error of a helper that could not be started.
pub fn launch_error(code: i32, detail: &str) -> (r: SandboxError)
    ensures
        r@ == if code == CANCELLED {
            ErrorView::Denied("administrator elevation was cancelled by user"@)
        } else {
            call_failure("ShellExecuteExW(runas)"@, code as int, detail@)
        },
{
    if code == CANCELLED {
        SandboxError::Denied("administrator elevation was cancelled by user".to_owned())
    } else {
        windows_error("ShellExecuteExW(runas)", code, detail)
    }
}

/// Waiting for a helper goes on only while it has said nothing, runs and has time left.
pub proof fn waiting_goes_on_only_while_pending(phase: HelperPhase, s: HelperStatus)
    ensures
        action_for(phase, s) is Sleep <==> s.signal@ == SignalView::Pending && s.exit_code is None
            && s.elapsed_ms < phase_timeout(phase),
        action_for(phase, s) is Proceed <==> s.signal@ == SignalView::Ready,
{
}

/// Every failure to get a helper ready is reported as a denial.
pub proof fn helper_failures_are_denials(phase: HelperPhase, s: HelperStatus)
    ensures
        action_for(phase, s) matches ActionView::Fail(e) ==> e is Denied,
{
}

proof fn lemma_split_of_longer(a: Seq<char>, b: Seq<char>, sep: char)
    requires
        !b.contains(sep),
    ensures
        split(a + b, sep) == split(a, sep).update(
            split(a, sep).len() - 1,
            split(a, sep).last() + b,
        ),
    decreases b.len(),
{
    crate::text::lemma_split_nonempty(a, sep);
    let pieces = split(a, sep);
    let n = pieces.len() - 1;
    if b.len() == 0 {
        assert(a + b =~= a);
        assert(pieces.last() + b =~= pieces.last());
        assert(pieces.update(n, pieces.last()) =~= pieces);
    } else {
        let f = b.drop_last();
        assert(b.contains(b.last())) by {
            assert(b[b.len() - 1] == b.last());
        }
        assert forall|c: char| f.contains(c) implies b.contains(c) by {
            let i = choose|i: int| 0 <= i < f.len() && f[i] == c;
            assert(b[i] == c);
        }
        lemma_split_of_longer(a, f, sep);
        assert((a + b).drop_last() =~= a + f);
        assert((a + b).last() == b.last());
        assert((pieces.last() + f).push(b.last()) =~= pieces.last() + b);
        assert(split(a + b, sep) =~= pieces.update(n, pieces.last() + b));
    }
}

proof fn lemma_split_of_lines(lines: Seq<Seq<char>>)
    requires
        forall|i: int| 0 <= i < lines.len() ==> !(#[trigger] lines[i]).contains('\n'),
        lines.len() > 0,
    ensures
        split(join(lines, "\n"@), '\n') == lines,
    decreases lines.len(),
{
    reveal_strlit("\n");
    assert("\n"@ =~= seq!['\n']);
    assert(lines[lines.len() - 1] == lines.last());
    let empty = Seq::<char>::empty();
    if lines.len() == 1 {
        lemma_split_of_longer(empty, lines[0], '\n');
        assert(empty + lines[0] =~= lines[0]);
        assert(split(empty, '\n') =~= seq![empty]);
        assert(split(lines[0], '\n') =~= lines);
    } else {
        let f = lines.drop_last();
        let front = join(f, "\n"@);
        assert forall|i: int| 0 <= i < f.len() implies !(#[trigger] f[i]).contains('\n') by {
            assert(f[i] == lines[i]);
        }
        lemma_split_of_lines(f);
        let ended = front + "\n"@;
        assert(ended =~= front.push('\n'));
        assert(ended.drop_last() =~= front);
        assert(split(ended, '\n') == f.push(empty));
        lemma_split_of_longer(ended, lines.last(), '\n');
        assert(empty + lines.last() =~= lines.last());
        assert(f.push(empty).update(f.len() as int, lines.last()) =~= lines);
    }
}

/// The helper reads its task back line by line, as long as no path holds a line feed: behind the
/// line feed that ends the last line there is nothing.
pub proof fn tasks_can_be_read_back(plan: AclView)
    requires
        all_task_lines(plan).len() > 0,
        forall|i: int|
            0 <= i < all_task_lines(plan).len() ==> !(#[trigger] all_task_lines(plan)[i]).contains(
                '\n',
            ),
    ensures
        split(task_text(plan), '\n') == all_task_lines(plan).push(Seq::empty()),
{
    let lines = all_task_lines(plan);
    lemma_split_of_lines(lines);
    reveal_strlit("\n");
    assert("\n"@ =~= seq!['\n']);
    let text = task_text(plan);
    assert(text =~= join(lines, "\n"@).push('\n'));
    assert(text.drop_last() =~= join(lines, "\n"@));
}

/// The task of a helper holds a line for every path of the plan, in the way of its list, and no
/// other line.
pub proof fn tasks_name_every_path(plan: AclView, line: Seq<char>)
    ensures
        all_task_lines(plan).contains(line) <==> {
            ||| exists|i: int|
                0 <= i < plan.deny_access.len() && line == "dn\t"@ + display_text(
                    PathStyle::Windows,
                    #[trigger] plan.deny_access[i],
                )
            ||| exists|i: int|
                0 <= i < plan.deny_write.len() && line == "dw\t"@ + display_text(
                    PathStyle::Windows,
                    #[trigger] plan.deny_write[i],
                )
            ||| exists|i: int|
                0 <= i < plan.allow_readonly.len() && line == "ro\t"@ + display_text(
                    PathStyle::Windows,
                    #[trigger] plan.allow_readonly[i],
                )
            ||| exists|i: int|
                0 <= i < plan.allow_readwrite.len() && line == "rw\t"@ + display_text(
                    PathStyle::Windows,
                    #[trigger] plan.allow_readwrite[i],
                )
        },
{
    let w = PathStyle::Windows;
    let s = all_task_lines(plan);
    let a = plan.deny_access.len() as int;
    let b = a + plan.deny_write.len();
    let c = b + plan.allow_readonly.len();
    assert forall|i: int| 0 <= i < plan.deny_access.len() implies s[i] == "dn\t"@ + display_text(
        w,
        #[trigger] plan.deny_access[i],
    ) by {}
    assert forall|i: int| 0 <= i < plan.deny_write.len() implies s[a + i] == "dw\t"@ + display_text(
        w,
        #[trigger] plan.deny_write[i],
    ) by {}
    assert forall|i: int| 0 <= i < plan.allow_readonly.len() implies s[b + i] == "ro\t"@
        + display_text(w, #[trigger] plan.allow_readonly[i]) by {}
    assert forall|i: int| 0 <= i < plan.allow_readwrite.len() implies s[c + i] == "rw\t"@
        + display_text(w, #[trigger] plan.allow_readwrite[i]) by {}
    if s.contains(line) {
        let i = choose|i: int| 0 <= i < s.len() && s[i] == line;
        if i < a {
            assert(line == "dn\t"@ + display_text(w, plan.deny_access[i]));
        } else if i < b {
            assert(line == "dw\t"@ + display_text(w, plan.deny_write[i - a]));
        } else if i < c {
            assert(line == "ro\t"@ + display_text(w, plan.allow_readonly[i - b]));
        } else {
            assert(line == "rw\t"@ + display_text(w, plan.allow_readwrite[i - c]));
        }
    }
}

/// The modes of the network rules have different numbers, from zero to three.
pub proof fn modes_have_numbers(mode: NetworkRuleMode, other: NetworkRuleMode)
    ensures
        mode.code() == other.code() ==> mode == other,
        NetworkRuleMode::Untouched.code() == 0,
        NetworkRuleMode::BlockAll.code() == 1,
        NetworkRuleMode::OutboundOnly.code() == 2,
        NetworkRuleMode::Bidirectional.code() == 3,
{
}

/// A helper that has written nothing but white space is still at work. One that has written `ok`,
/// in whatever case and with whatever white space around it, is ready. Anything else is an error,
/// whose text is what it wrote, without the word in front.
pub proof fn signals_are_read(contents: Seq<char>, message: Seq<char>)
    ensures
        signal_in(contents) == SignalView::Pending <==> trim(contents).len() == 0,
        signal_in(contents) == SignalView::Ready <==> lower(trim(contents)) == "ok"@,
        trim(contents) == "error:"@ + message ==> signal_in(contents) == SignalView::Error(
            trim(message),
        ),
        trim(contents).len() > 0 && lower(trim(contents)) != "ok"@ && !"error:"@.is_prefix_of(
            trim(contents),
        ) ==> signal_in(contents) == SignalView::Error(trim(contents)),
{
    reveal_strlit("ok");
    reveal_strlit("error:");
    assert(lower("ok"@) =~= "ok"@);
    let text = trim(contents);
    assert(lower(text).len() == text.len());
    if text == "error:"@ + message {
        assert("error:"@.is_prefix_of(text));
        assert(text.subrange(6, text.len() as int) =~= message);
        assert(text.len() >= 6);
    }
}

/// A helper is waited for 20 seconds, and for its loopback server 5, a tenth of a second at a time.
pub proof fn helpers_are_waited_for(phase: HelperPhase, s: HelperStatus)
    ensures
        s.signal@ == SignalView::Pending && s.exit_code is None ==> {
            let limit: int = if phase == HelperPhase::LoopbackServer {
                5_000
            } else {
                20_000
            };
            &&& s.elapsed_ms < limit ==> action_for(phase, s) == ActionView::Sleep(100)
            &&& s.elapsed_ms >= limit ==> action_for(phase, s) is Fail
        },
        s.signal@ == SignalView::Pending && s.exit_code is Some ==> action_for(phase, s) is Fail,
        s.signal@ is Error ==> action_for(phase, s) is Fail,
        s.signal@ == SignalView::Ready ==> action_for(phase, s) == ActionView::Proceed,
{
}

/// Of the lines of a text, those that are not blank are kept in their order.
pub proof fn blank_lines_are_dropped_one_by_one(
    a: Seq<Seq<char>>,
    b: Seq<Seq<char>>,
    line: Seq<char>,
)
    ensures
        written_lines(a + b) == written_lines(a) + written_lines(b),
        is_blank(line) ==> written_lines(seq![line]).len() == 0,
        !is_blank(line) ==> written_lines(seq![line]) == seq![line],
    decreases b.len(),
{
    let one = seq![line];
    assert(one.drop_last() =~= Seq::empty());
    assert(written_lines(one.drop_last()) =~= Seq::empty());
    assert(!is_blank(line) ==> written_lines(one) =~= one);
    if b.len() == 0 {
        assert(a + b =~= a);
        assert(written_lines(a) + written_lines(b) =~= written_lines(a));
    } else {
        let f = b.drop_last();
        blank_lines_are_dropped_one_by_one(a, f, line);
        assert((a + b).drop_last() =~= a + f);
        assert((a + b).last() == b.last());
        assert(written_lines(a + b) =~= written_lines(a) + written_lines(b));
    }
}

/// The last lines of some are as many as are wanted, as far as there are so many.
pub proof fn last_lines_are_the_last(lines: Seq<Seq<char>>, max: nat, i: int)
    ensures
        last_lines(lines, max).len() == if lines.len() < max {
            lines.len()
        } else {
            max
        },
        0 <= i < last_lines(lines, max).len() ==> last_lines(lines, max)[i] == lines[lines.len()
            - last_lines(lines, max).len() + i],
{
}

/// What is said of a helper that failed holds what it said and how far it came.
pub proof fn failures_hold_what_was_said(phase: HelperPhase, s: HelperStatus)
    ensures
        ({
            let shown = display_text(PathStyle::Windows, s.workspace@);
            let r = action_for(phase, s);
            &&& phase == HelperPhase::Setup ==> (s.signal@ matches SignalView::Error(m) ==> r
                == ActionView::Fail(
                ErrorView::Denied(
                    "automatic administrator elevated-ops initialization failed: "@ + m
                        + "; last progress: "@ + s.progress@,
                ),
            ))
            &&& phase == HelperPhase::LoopbackServer ==> (s.signal@ matches SignalView::Error(m)
                ==> r == ActionView::Fail(
                ErrorView::Denied(
                    "automatic administrator loopback-server initialization failed: "@ + m
                        + "; last progress: "@ + s.progress@,
                ),
            ))
            &&& phase == HelperPhase::Firewall ==> (s.signal@ matches SignalView::Error(m) ==> r
                == ActionView::Fail(
                ErrorView::Denied(
                    "automatic administrator elevation helper initialization failed: "@ + m,
                ),
            ))
            &&& phase == HelperPhase::Firewall && s.signal@ == SignalView::Pending ==> (
            s.exit_code matches Some(code) ==> r == ActionView::Fail(
                ErrorView::Denied(
                    "automatic administrator elevation helper exited before initialization (exit code "@
                        + decimal(code as nat) + ", workspace: "@ + shown + ")"@,
                ),
            ))
        }),
{
}

/// The options with which a helper is started, each with its value: what the run and its files are
/// called, quoted where they need it, and the numbers of its parent and of its network mode.
pub open spec fn launch_options(l: HelperLaunch) -> Seq<(Seq<char>, Seq<char>)> {
    seq![
        (" -Sid "@, quoted(l.sid@)),
        (" -AppContainerName "@, quoted(l.container@)),
        (" -SpecFile "@, quoted(display_text(PathStyle::Windows, l.task_file@))),
        (" -StopFile "@, quoted(display_text(PathStyle::Windows, l.stop_file@))),
        (" -ReadyFile "@, quoted(display_text(PathStyle::Windows, l.ready_file@))),
        (" -ProgressFile "@, quoted(display_text(PathStyle::Windows, l.progress_file@))),
        (" -LoopbackServerStartFile "@, quoted(display_text(PathStyle::Windows, l.loopback_start_file@))),
        (" -LoopbackServerReadyFile "@, quoted(display_text(PathStyle::Windows, l.loopback_ready_file@))),
        (" -ParentPid "@, decimal(l.parent_pid as nat)),
        (" -Executable "@, quoted(display_text(PathStyle::Windows, l.executable@))),
        (" -OutRule "@, quoted(l.out_rule@)),
        (" -InRule "@, quoted(l.in_rule@)),
        (" -NetworkRuleMode "@, decimal(l.mode.code() as nat)),
    ]
}

/// A command line with some options behind it.
pub open spec fn with_options(
    start: Seq<char>,
    options: Seq<(Seq<char>, Seq<char>)>,
) -> Seq<char>
    decreases options.len(),
{
    if options.len() == 0 {
        start
    } else {
        with_options(start, options.drop_last()) + options.last().0 + options.last().1
    }
}

proof fn lemma_options_are_held(
    start: Seq<char>,
    options: Seq<(Seq<char>, Seq<char>)>,
    i: int,
)
    requires
        0 <= i < options.len(),
    ensures
        has_text(with_options(start, options), options[i].0 + options[i].1),
    decreases options.len(),
{
    let f = options.drop_last();
    let front = with_options(start, f);
    let all = with_options(start, options);
    let needle = options[i].0 + options[i].1;
    if i < f.len() {
        assert(f[i] == options[i]);
        lemma_options_are_held(start, f, i);
        let at = choose|at: int| occurs_at(front, needle, at);
        assert(all.subrange(at, at + needle.len()) =~= front.subrange(at, at + needle.len()));
        assert(occurs_at(all, needle, at));
    } else {
        let at = front.len() as int;
        assert(all.subrange(at, at + needle.len()) =~= needle);
        assert(occurs_at(all, needle, at));
    }
}

/// A helper is started with every one of its options, each with its value behind it, and with its
/// script in front of them.
pub proof fn helpers_are_started_with_their_options(l: HelperLaunch, i: int)
    requires
        0 <= i < launch_options(l).len(),
    ensures
        has_text(launch_text(l), launch_options(l)[i].0 + launch_options(l)[i].1),
        (script_start() + quoted(display_text(PathStyle::Windows, l.script@))).is_prefix_of(
            launch_text(l),
        ),
        "-NoProfile -NonInteractive"@.is_prefix_of(launch_text(l)),
{
    let o = launch_options(l);
    let start = script_start() + path_argument(l.script@);
    let p0 = start + " -Sid "@ + quoted(l.sid@);
    let p1 = p0 + " -AppContainerName "@ + quoted(l.container@);
    let p2 = p1 + " -SpecFile "@ + path_argument(l.task_file@);
    let p3 = p2 + " -StopFile "@ + path_argument(l.stop_file@);
    let p4 = p3 + " -ReadyFile "@ + path_argument(l.ready_file@);
    let p5 = p4 + " -ProgressFile "@ + path_argument(l.progress_file@);
    let p6 = p5 + " -LoopbackServerStartFile "@ + path_argument(l.loopback_start_file@);
    let p7 = p6 + " -LoopbackServerReadyFile "@ + path_argument(l.loopback_ready_file@);
    let p8 = p7 + " -ParentPid "@ + decimal(l.parent_pid as nat);
    let p9 = p8 + " -Executable "@ + path_argument(l.executable@);
    let p10 = p9 + " -OutRule "@ + quoted(l.out_rule@);
    let p11 = p10 + " -InRule "@ + quoted(l.in_rule@);
    let p12 = p11 + " -NetworkRuleMode "@ + decimal(l.mode.code() as nat);
    assert(o.take(0) =~= Seq::empty());
    assert(with_options(start, o.take(0)) == start);
    assert(o.take(1).drop_last() =~= o.take(0));
    assert(with_options(start, o.take(1)) == p0);
    assert(o.take(2).drop_last() =~= o.take(1));
    assert(with_options(start, o.take(2)) == p1);
    assert(o.take(3).drop_last() =~= o.take(2));
    assert(with_options(start, o.take(3)) == p2);
    assert(o.take(4).drop_last() =~= o.take(3));
    assert(with_options(start, o.take(4)) == p3);
    assert(o.take(5).drop_last() =~= o.take(4));
    assert(with_options(start, o.take(5)) == p4);
    assert(o.take(6).drop_last() =~= o.take(5));
    assert(with_options(start, o.take(6)) == p5);
    assert(o.take(7).drop_last() =~= o.take(6));
    assert(with_options(start, o.take(7)) == p6);
    assert(o.take(8).drop_last() =~= o.take(7));
    assert(with_options(start, o.take(8)) == p7);
    assert(o.take(9).drop_last() =~= o.take(8));
    assert(with_options(start, o.take(9)) == p8);
    assert(o.take(10).drop_last() =~= o.take(9));
    assert(with_options(start, o.take(10)) == p9);
    assert(o.take(11).drop_last() =~= o.take(10));
    assert(with_options(start, o.take(11)) == p10);
    assert(o.take(12).drop_last() =~= o.take(11));
    assert(with_options(start, o.take(12)) == p11);
    assert(o.take(13).drop_last() =~= o.take(12));
    assert(with_options(start, o.take(13)) == p12);
    assert(o.take(13) =~= o);
    assert(launch_text(l) == p12);
    lemma_options_are_held(start, o, i);
    lemma_options_come_behind(start, o);
    reveal_strlit("-NoProfile -NonInteractive");
    reveal_strlit(
        "-NoProfile -NonInteractive -ExecutionPolicy Bypass -WindowStyle Hidden -File ",
    );
    let text = launch_text(l);
    assert(text.subrange(0, start.len() as int) =~= start);
    assert(text.subrange(0, 26) =~= start.subrange(0, 26));
    assert(start.subrange(0, 26) =~= "-NoProfile -NonInteractive"@);
}

proof fn lemma_options_come_behind(start: Seq<char>, options: Seq<(Seq<char>, Seq<char>)>)
    ensures
        start.len() <= with_options(start, options).len(),
        with_options(start, options).subrange(0, start.len() as int) == start,
    decreases options.len(),
{
    if options.len() > 0 {
        let f = options.drop_last();
        lemma_options_come_behind(start, f);
        let front = with_options(start, f);
        let all = with_options(start, options);
        assert(all.subrange(0, start.len() as int) =~= front.subrange(0, start.len() as int));
    } else {
        assert(start.subrange(0, start.len() as int) =~= start);
    }
}

/// Lines that were written with line feeds behind them are read back, as long as none holds a line
/// feed or ends with a carriage return.
pub proof fn lines_are_read_back(lines: Seq<Seq<char>>)
    requires
        lines.len() > 0,
        forall|i: int|
            0 <= i < lines.len() ==> !(#[trigger] lines[i]).contains('\n') && !(lines[i].len() > 0
                && lines[i].last() == '\r'),
    ensures
        lines_of(join(lines, "\n"@) + "\n"@) == lines,
{
    lemma_split_of_lines(lines);
    reveal_strlit("\n");
    assert("\n"@ =~= seq!['\n']);
    let text = join(lines, "\n"@) + "\n"@;
    assert(text =~= join(lines, "\n"@).push('\n'));
    assert(text.drop_last() =~= join(lines, "\n"@));
    let pieces = split(text, '\n');
    assert(pieces == lines.push(Seq::empty()));
    assert(pieces.drop_last() =~= lines);
    assert forall|i: int| 0 <= i < lines.len() implies without_return(#[trigger] lines[i])
        == lines[i] by {}
    assert(lines_of(text) =~= lines);
}

/// Without a line that holds something there is no progress to show, and else the last lines are
/// shown with bars between them.
pub proof fn progress_is_shown(content: Seq<char>, max: nat)
    ensures
        written_lines(lines_of(content)).len() == 0 ==> tail_text(content, max)
            == "(no progress lines)"@,
        written_lines(lines_of(content)).len() > 0 ==> tail_text(content, max) == join(
            last_lines(written_lines(lines_of(content)), max),
            " || "@,
        ),
{
}

/// What is said of a helper that ended or ran out of time before it was ready, in each phase.
pub proof fn helpers_that_are_not_ready_are_explained(phase: HelperPhase, s: HelperStatus)
    ensures
        ({
            let shown = display_text(PathStyle::Windows, s.workspace@);
            let progress = s.progress@;
            let r = action_for(phase, s);
            let late = s.signal@ == SignalView::Pending && s.exit_code is None && r is Fail;
            &&& s.signal@ == SignalView::Pending ==> (s.exit_code matches Some(code) ==> r
                == ActionView::Fail(
                ErrorView::Denied(
                    match phase {
                        HelperPhase::Setup =>
                            "automatic administrator elevated-ops helper exited before initialization (exit code "@
                                + decimal(code as nat) + ", workspace: "@ + shown
                                + ", last progress: "@ + progress + ")"@,
                        HelperPhase::LoopbackServer =>
                            "automatic administrator elevated-ops helper exited before loopback-server readiness (exit code "@
                                + decimal(code as nat) + ", workspace: "@ + shown
                                + ", last progress: "@ + progress + ")"@,
                        HelperPhase::Firewall =>
                            "automatic administrator elevation helper exited before initialization (exit code "@
                                + decimal(code as nat) + ", workspace: "@ + shown + ")"@,
                    },
                ),
            ))
            &&& late ==> r == ActionView::Fail(
                ErrorView::Denied(
                    match phase {
                        HelperPhase::Setup =>
                            "automatic administrator elevated-ops helper timed out before readiness (workspace: "@
                                + shown + ", last progress: "@ + progress + ")"@,
                        HelperPhase::LoopbackServer =>
                            "automatic administrator loopback-server helper timed out before readiness (workspace: "@
                                + shown + ", last progress: "@ + progress + ")"@,
                        HelperPhase::Firewall =>
                            "automatic administrator elevation helper timed out before readiness (workspace: "@
                                + shown + ")"@,
                    },
                ),
            )
        }),
{
}

/// PowerShell is started from its place below the system's directory.
pub proof fn powershell_has_its_place(windir: Seq<u8>)
    requires
        is_on_drive(windir),
        windir.last() != 0x5c,
        windir.last() != 0x2f,
    ensures
        powershell_below(windir) == below(
            below(
                below(
                    below(windir, 0x5c, vstd::utf8::encode_utf8("System32"@)),
                    0x5c,
                    vstd::utf8::encode_utf8("WindowsPowerShell"@),
                ),
                0x5c,
                vstd::utf8::encode_utf8("v1.0"@),
            ),
            0x5c,
            vstd::utf8::encode_utf8("powershell.exe"@),
        ),
{
    reveal_strlit("System32");
    reveal_strlit("WindowsPowerShell");
    reveal_strlit("v1.0");
    reveal_strlit("powershell.exe");
    lemma_ascii_bytes("System32"@);
    lemma_ascii_bytes("WindowsPowerShell"@);
    lemma_ascii_bytes("v1.0"@);
    lemma_ascii_bytes("powershell.exe"@);
    let a = vstd::utf8::encode_utf8("System32"@);
    let b = vstd::utf8::encode_utf8("WindowsPowerShell"@);
    let c = vstd::utf8::encode_utf8("v1.0"@);
    let d = vstd::utf8::encode_utf8("powershell.exe"@);
    lemma_plain_word(a);
    lemma_plain_word(b);
    lemma_plain_word(c);
    lemma_plain_word(d);
    names_are_pushed_behind_a_backslash(windir, a);
    let x = below(windir, 0x5c, a);
    assert(x.last() == a.last());
    names_are_pushed_behind_a_backslash(x, b);
    let y = below(x, 0x5c, b);
    assert(y.last() == b.last());
    names_are_pushed_behind_a_backslash(y, c);
    let z = below(y, 0x5c, c);
    assert(z.last() == c.last());
    names_are_pushed_behind_a_backslash(z, d);
}

proof fn lemma_plain_word(s: Seq<u8>)
    requires
        s.len() > 2,
        forall|i: int| 0 <= i < s.len() ==> (#[trigger] s[i]) != 0x2f && s[i] != 0x5c,
        s[1] != 0x3a,
    ensures
        is_plain_windows_name(s),
        s.last() != 0x5c && s.last() != 0x2f,
{
    assert(s[s.len() - 1] != 0x5c);
}

proof fn lemma_ascii_bytes(s: Seq<char>)
    requires
        vstd::utf8::is_ascii_chars(s),
    ensures
        vstd::utf8::encode_utf8(s) == Seq::new(s.len(), |i: int| s[i] as u8),
{
    vstd::utf8::is_ascii_chars_encode_utf8(s);
    assert(vstd::utf8::encode_utf8(s) =~= Seq::new(s.len(), |i: int| s[i] as u8));
}

/// A carriage return at the end of a line is not part of it, and a text without a line feed is one
/// line.
pub proof fn returns_are_dropped(line: Seq<char>)
    ensures
        without_return(line.push('\r')) == line,
        line.len() > 0 && line.last() != '\r' ==> without_return(line) == line,
        line.len() > 0 && !line.contains('\n') ==> lines_of(line) == seq![line],
        lines_of(Seq::empty()).len() == 0,
{
    assert(line.push('\r').drop_last() =~= line);
    if line.len() > 0 && !line.contains('\n') {
        let one = seq![line];
        assert(!one[0].contains('\n'));
        lemma_split_of_lines(one);
        assert(join(one, "\n"@) == line);
        assert(lines_of(line) =~= seq![line]);
    }
    let none = Seq::<char>::empty();
    assert(split(none, '\n') =~= seq![none]);
}

} // verus!
