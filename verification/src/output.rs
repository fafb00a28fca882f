//! What a finished run reports.
use std::time::Duration;

use vstd::prelude::*;
use vstd::string::StringExecFns;

use crate::lossy::{lossy_string, lossy_text};

verus! {

/// The exit code of a command that was stopped because its time was up.
pub const TIMEOUT_EXIT_CODE: i32 = 124;

/// What a finished run reports.
#[derive(Debug, PartialEq, Eq)]
pub struct SandboxExecOutput {
    pub exit_code: i32,
    pub stdout: String,
    pub stderr: String,
    pub aggregated_output: String,
    pub duration: Duration,
    pub timed_out: bool,
    pub degraded_mode_reason: Option<String>,
}

impl Clone for SandboxExecOutput {
    fn clone(&self) -> (r: Self)
        ensures
            r == *self,
    {
        SandboxExecOutput {
            exit_code: self.exit_code,
            stdout: self.stdout.clone(),
            stderr: self.stderr.clone(),
            aggregated_output: self.aggregated_output.clone(),
            duration: self.duration,
            timed_out: self.timed_out,
            degraded_mode_reason: match &self.degraded_mode_reason {
                Some(reason) => Some(reason.clone()),
                None => None,
            },
        }
    }
}

/// The exit code that is reported: a run that timed out always reports the same one.
pub open spec fn effective_exit_code(exit_code: i32, timed_out: bool) -> i32 {
    if timed_out {
        TIMEOUT_EXIT_CODE
    } else {
        exit_code
    }
}

impl SandboxExecOutput {
    /// The report of a run in which nothing was degraded: the error text follows the output text
    /// in the aggregated output.
    pub open spec fn reports(
        self,
        exit_code: i32,
        stdout: Seq<char>,
        stderr: Seq<char>,
        duration: Duration,
        timed_out: bool,
    ) -> bool {
        &&& self.exit_code == effective_exit_code(exit_code, timed_out)
        &&& self.stdout@ == stdout
        &&& self.stderr@ == stderr
        &&& self.aggregated_output@ == stdout + stderr
        &&& self.duration == duration
        &&& self.timed_out == timed_out
        &&& self.degraded_mode_reason is None
    }

    /// The report of a run with the given texts.
    pub fn from_text_output(
        exit_code: i32,
        stdout: String,
        stderr: String,
        duration: Duration,
        timed_out: bool,
    ) -> (r: Self)
        ensures
            r.reports(exit_code, stdout@, stderr@, duration, timed_out),
    {
        let effective: i32 = if timed_out {
            TIMEOUT_EXIT_CODE
        } else {
            exit_code
        };
        let aggregated_output = stdout.clone().concat(stderr.as_str());
        SandboxExecOutput {
            exit_code: effective,
            stdout,
            stderr,
            aggregated_output,
            duration,
            timed_out,
            degraded_mode_reason: None,
        }
    }

    /// The report of a run with the given output bytes.
    pub fn from_utf8_lossy(
        exit_code: i32,
        stdout: &[u8],
        stderr: &[u8],
        duration: Duration,
        timed_out: bool,
    ) -> (r: Self)
        ensures
            r.reports(
                exit_code,
                lossy_text(stdout@),
                lossy_text(stderr@),
                duration,
                timed_out,
            ),
    {
        let out = lossy_string(stdout);
        let err = lossy_string(stderr);
        Self::from_text_output(exit_code, out, err, duration, timed_out)
    }

    /// The same report with the reason why the run was degraded.
    pub fn with_degraded_mode_reason(self, reason: Option<String>) -> (r: Self)
        ensures
            r == (SandboxExecOutput { degraded_mode_reason: reason, ..self }),
    {
        SandboxExecOutput {
            exit_code: self.exit_code,
            stdout: self.stdout,
            stderr: self.stderr,
            aggregated_output: self.aggregated_output,
            duration: self.duration,
            timed_out: self.timed_out,
            degraded_mode_reason: reason,
        }
    }
}

/// A run that timed out reports the timeout exit code, whatever the command's own code was.
pub proof fn timeout_has_one_exit_code(a: i32, b: i32)
    ensures
        effective_exit_code(a, true) == TIMEOUT_EXIT_CODE,
        effective_exit_code(a, true) == effective_exit_code(b, true),
{
}

/// A run that was stopped at its limit is reported as such, with one exit code for all of them;
/// any other is reported with its own exit code. What it wrote is reported in full, once by stream
/// and once together.
pub proof fn runs_are_reported_in_full(
    out: SandboxExecOutput,
    exit_code: i32,
    stdout: Seq<char>,
    stderr: Seq<char>,
    duration: Duration,
    timed_out: bool,
)
    requires
        out.reports(exit_code, stdout, stderr, duration, timed_out),
    ensures
        out.timed_out == timed_out,
        timed_out ==> out.exit_code == 124,
        !timed_out ==> out.exit_code == exit_code,
        out.stdout@ == stdout && out.stderr@ == stderr,
        out.aggregated_output@.len() == stdout.len() + stderr.len(),
        out.aggregated_output@.take(stdout.len() as int) == stdout,
        out.aggregated_output@.subrange(
            stdout.len() as int,
            out.aggregated_output@.len() as int,
        ) == stderr,
        out.duration == duration,
        out.degraded_mode_reason is None,
{
    let all = out.aggregated_output@;
    assert(all.take(stdout.len() as int) =~= stdout);
    assert(all.subrange(stdout.len() as int, all.len() as int) =~= stderr);
}

} // verus!
