//! How long a command is waited for, and what is reported of it.
use std::time::Duration;

use vstd::prelude::*;

use crate::error::{IoFailure, IoFailureKind};
use crate::lossy::lossy_text;
use crate::output::SandboxExecOutput;

verus! {

/// How long to sleep between two looks at a running command, in milliseconds.
pub const POLL_INTERVAL_MS: u64 = 10;

/// The exit code of a command that ended without one.
pub const NO_EXIT_CODE: i32 = -1;

/// What to do about a command that was started.
#[derive(Debug, Clone, Copy, PartialEq, Eq, Structural)]
pub enum WaitAction {
    /// Wait until the command ends.
    AwaitExit,
    /// Stop the command and everything it started, and wait until it ends: its time is up.
    KillThenAwaitExit,
    /// Look again after this many milliseconds.
    Sleep(u64),
}

/// What to do about a command that has run for `elapsed_ms` milliseconds: without a time limit it
/// is waited for; with one, until it has ended or the limit is reached.
pub open spec fn action_for(exited: bool, elapsed_ms: u128, timeout_ms: Option<u64>) -> WaitAction {
    match timeout_ms {
        None => WaitAction::AwaitExit,
        Some(limit) => if exited {
            WaitAction::AwaitExit
        } else if elapsed_ms >= limit {
            WaitAction::KillThenAwaitExit
        } else {
            WaitAction::Sleep(POLL_INTERVAL_MS)
        },
    }
}

/// What to do about a command that has run for `elapsed_ms` milliseconds.
pub fn wait_action(exited: bool, elapsed_ms: u128, timeout_ms: Option<u64>) -> (r: WaitAction)
    ensures
        r == action_for(exited, elapsed_ms, timeout_ms),
{
    match timeout_ms {
        None => WaitAction::AwaitExit,
        Some(limit) => if exited {
            WaitAction::AwaitExit
        } else if elapsed_ms >= limit as u128 {
            WaitAction::KillThenAwaitExit
        } else {
            WaitAction::Sleep(POLL_INTERVAL_MS)
        },
    }
}

/// The report of a command that has ended. `code` is the exit code where there is one.
pub fn finished_output(
    code: Option<i32>,
    stdout: &[u8],
    stderr: &[u8],
    duration: Duration,
    timed_out: bool,
) -> (r: SandboxExecOutput)
    ensures
        r.reports(
            match code {
                Some(c) => c,
                None => NO_EXIT_CODE,
            },
            lossy_text(stdout@),
            lossy_text(stderr@),
            duration,
            timed_out,
        ),
{
    let exit_code: i32 = match code {
        Some(c) => c,
        None => NO_EXIT_CODE,
    };
    SandboxExecOutput::from_utf8_lossy(exit_code, stdout, stderr, duration, timed_out)
}

/// The failure of a command whose output cannot be read.
pub fn missing_pipe(is_stdout: bool) -> (r: IoFailure)
    ensures
        r@ == (
            IoFailureKind::Other,
            None::<i32>,
            if is_stdout {
                "child stdout pipe unavailable"@
            } else {
                "child stderr pipe unavailable"@
            },
        ),
{
    let message = if is_stdout {
        "child stdout pipe unavailable".to_owned()
    } else {
        "child stderr pipe unavailable".to_owned()
    };
    IoFailure { kind: IoFailureKind::Other, raw_os_error: None, message }
}

/// A command is stopped only when it has a time limit, has reached it and has not ended; and one
/// that has ended is never slept on.
pub proof fn only_overdue_commands_are_killed(
    exited: bool,
    elapsed_ms: u128,
    timeout_ms: Option<u64>,
)
    ensures
        action_for(exited, elapsed_ms, timeout_ms) == WaitAction::KillThenAwaitExit <==> !exited
            && timeout_ms is Some && timeout_ms->0 <= elapsed_ms,
        exited ==> action_for(exited, elapsed_ms, timeout_ms) == WaitAction::AwaitExit,
{
}

/// A command that still runs is stopped at every later look once it was stopped at one.
pub proof fn killing_is_monotone_in_time(
    elapsed_ms: u128,
    later_ms: u128,
    timeout_ms: Option<u64>,
)
    requires
        elapsed_ms <= later_ms,
        action_for(false, elapsed_ms, timeout_ms) == WaitAction::KillThenAwaitExit,
    ensures
        action_for(false, later_ms, timeout_ms) == WaitAction::KillThenAwaitExit,
{
}

/// A command is waited for without a limit exactly when it has ended or has none; one that still
/// runs within its time is looked at again after the interval, and at the limit it is stopped.
pub proof fn running_commands_are_looked_at_until_their_limit(
    exited: bool,
    elapsed_ms: u128,
    timeout_ms: Option<u64>,
    limit: u64,
)
    ensures
        action_for(exited, elapsed_ms, timeout_ms) is AwaitExit <==> exited || timeout_ms is None,
        elapsed_ms < limit ==> action_for(false, elapsed_ms, Some(limit)) == WaitAction::Sleep(10),
        elapsed_ms >= limit ==> action_for(false, elapsed_ms, Some(limit))
            == WaitAction::KillThenAwaitExit,
{
}

/// What is done about a running command follows from whether it has ended and from its time alone.
pub proof fn running_commands_are_stopped_at_their_limit(
    exited: bool,
    elapsed_ms: u128,
    timeout_ms: Option<u64>,
    action: WaitAction,
)
    requires
        call_ensures(wait_action, (exited, elapsed_ms, timeout_ms), action),
    ensures
        action is AwaitExit <==> exited || timeout_ms is None,
        action is Sleep <==> !exited && timeout_ms is Some && elapsed_ms < timeout_ms->0,
        action matches WaitAction::Sleep(ms) ==> ms == 10,
{
}

} // verus!
