use std::time::Duration;

use procwarden::runner::{finished_output, missing_pipe, wait_action, WaitAction};
use procwarden::SandboxExecOutput;

#[test]
fn output_defaults_to_non_degraded_mode() {
    let output = SandboxExecOutput::from_text_output(
        0,
        "stdout".to_string(),
        "stderr".to_string(),
        Duration::from_millis(5),
        false,
    );

    assert!(output.degraded_mode_reason.is_none());
}

#[test]
fn output_can_carry_degraded_mode_reason() {
    let reason = "child policy unavailable".to_string();
    let output = SandboxExecOutput::from_text_output(
        0,
        String::new(),
        String::new(),
        Duration::from_millis(1),
        false,
    )
    .with_degraded_mode_reason(Some(reason.clone()));

    assert_eq!(
        output.degraded_mode_reason.as_deref(),
        Some(reason.as_str())
    );
}

#[test]
fn captures_stdout_stderr_and_exit_code() {
    let output = finished_output(Some(7), b"out", b"err", Duration::from_millis(3), false);

    assert_eq!(output.exit_code, 7);
    assert!(output.stdout.contains("out"));
    assert!(output.stderr.contains("err"));
    assert!(output.aggregated_output.contains("out"));
    assert!(output.aggregated_output.contains("err"));
    assert!(!output.timed_out);
    assert_eq!(output.aggregated_output, "outerr");
    assert_eq!(output.duration, Duration::from_millis(3));
}

#[test]
fn timeout_sets_expected_exit_code_and_flag() {
    assert_eq!(
        wait_action(false, 50, Some(50)),
        WaitAction::KillThenAwaitExit
    );
    let output = finished_output(None, b"", b"", Duration::from_millis(50), true);

    assert_eq!(output.exit_code, 124);
    assert!(output.timed_out);
}

#[test]
fn a_command_without_an_exit_code_reports_minus_one() {
    let output = finished_output(None, b"", b"", Duration::from_millis(1), false);
    assert_eq!(output.exit_code, -1);
}

#[test]
fn malformed_output_is_replaced() {
    let output = SandboxExecOutput::from_utf8_lossy(
        0,
        &[b'a', 0xff, b'b'],
        "\u{e9}".as_bytes(),
        Duration::from_millis(1),
        false,
    );
    assert_eq!(output.stdout, "a\u{fffd}b");
    assert_eq!(output.stderr, "\u{e9}");
    assert_eq!(output.aggregated_output, "a\u{fffd}b\u{e9}");
    assert_eq!(output.clone(), output);
}

#[test]
fn commands_are_waited_for_until_their_time_is_up() {
    assert_eq!(wait_action(false, 1_000_000, None), WaitAction::AwaitExit);
    assert_eq!(wait_action(true, 100, Some(10)), WaitAction::AwaitExit);
    assert_eq!(wait_action(false, 9, Some(10)), WaitAction::Sleep(10));
    assert_eq!(
        wait_action(false, 10, Some(10)),
        WaitAction::KillThenAwaitExit
    );
    assert_eq!(
        wait_action(false, 11, Some(10)),
        WaitAction::KillThenAwaitExit
    );
}

#[test]
fn missing_pipes_are_named() {
    assert_eq!(missing_pipe(true).message, "child stdout pipe unavailable");
    assert_eq!(missing_pipe(false).message, "child stderr pipe unavailable");
}
