use std::time::Duration;

use procwarden::error::{IoFailure, IoFailureKind};
use procwarden::probe::commands::{
    child_path, escape_single_quotes, exit_zero_command, network_probe_command,
    probe_directory_name, probe_variable_names, read_command, write_command, PROBE_TIMEOUT_MS,
};
use procwarden::probe::linux_script::{
    frontloaded_validation, linux_enforcement_steps, overlay_capability,
    readwrite_with_readonly_policy,
};
use procwarden::probe::macos_script::{
    macos_enforcement_steps, macos_network_cases, macos_summary,
};
use procwarden::probe::report::{
    average_ms, detail_can_be_cut, diagnosis_reason, extreme_samples, first_answer_line, is_windows_wfp_unavailable,
    join_samples, network_result_can_be_shown, parse_elevation_answer, probe_mode, render_unix_matrix_result,
    render_windows_matrix_result, render_windows_network_probe_result, sanitize_probe_message,
    timing_lines, truncate_probe_detail, ProbeMode,
};
use procwarden::probe::script::{judge_step, matrix_cases, Fixture, SkipCondition, Verdict};
use procwarden::probe::windows_script::{
    gateway_ports, reachable_gateway_lines, timing_notes, timing_step, unreachable_gateway_lines,
    windows_enforcement_steps, windows_network_steps, windows_timing_cases, ProbeTarget,
    TIMING_ITERATIONS,
};
use procwarden::{
    PathStyle, SandboxDefaultAccess, SandboxError, SandboxExecOutput, SandboxNetworkPolicy,
    SandboxPath, SandboxPathPermission,
};

fn path(text: &str) -> SandboxPath {
    SandboxPath::from_text(text)
}

fn fixture() -> Fixture {
    Fixture {
        runtime_cwd: path("/f/cwd"),
        deny_dir: path("/f/denied"),
        deny_seed: path("/f/denied/seed-deny.txt"),
        ro_dir: path("/f/readonly"),
        ro_seed: path("/f/readonly/seed-ro.txt"),
        rw_dir: path("/f/readwrite"),
        alias_rw_dir: path("/f/readwrite/../readwrite"),
        outside_dir: path("/f/outside"),
        nested_deny_dir: path("/f/readwrite/nested-deny"),
        nested_deny_seed: path("/f/readwrite/nested-deny/seed-nested-deny.txt"),
    }
}

type RunResult = Result<SandboxExecOutput, SandboxError>;

fn ended(exit_code: i32, stdout: &str, stderr: &str) -> RunResult {
    Ok(SandboxExecOutput::from_text_output(
        exit_code,
        stdout.to_string(),
        stderr.to_string(),
        Duration::from_millis(1),
        false,
    ))
}

fn no_mounts() -> RunResult {
    Err(SandboxError::Unavailable(
        "needs mount-namespace support:\nno".to_string(),
    ))
}

fn no_filters() -> RunResult {
    Err(SandboxError::Windows(
        "FwpmEngineOpen0 failed: 50 (not supported)".to_string(),
    ))
}

#[test]
fn commands_fit_the_system() {
    assert_eq!(
        exit_zero_command(PathStyle::Unix),
        vec!["/bin/sh", "-c", "exit 0"]
    );
    assert_eq!(
        exit_zero_command(PathStyle::Windows),
        vec!["cmd.exe", "/C", "exit 0"]
    );
    assert_eq!(
        read_command(PathStyle::Unix, &path("/a b")),
        vec!["/bin/cat", "/a b"]
    );
    assert_eq!(
        read_command(PathStyle::Windows, &path(r"C:\it's")),
        vec![
            "powershell.exe",
            "-NoProfile",
            "-NonInteractive",
            "-Command",
            r"try { [System.IO.File]::ReadAllText('C:\it''s') | Out-Null; exit 0 } catch { [Console]::Error.WriteLine($_.Exception.Message); exit 1 }"
        ]
    );
    assert_eq!(
        write_command(PathStyle::Unix, &path("/a"), "x'y"),
        vec!["/bin/sh", "-c", "printf '%s' \"$2\" > \"$1\"", "sh", "/a", "x'y"]
    );
    assert_eq!(
        write_command(PathStyle::Windows, &path(r"C:\a"), "x'y")[4],
        r"try { [System.IO.File]::WriteAllText('C:\a', 'x''y'); exit 0 } catch { [Console]::Error.WriteLine($_.Exception.Message); exit 1 }"
    );
    assert_eq!(
        network_probe_command("p.exe", "127.0.0.1", 80, 1500),
        vec!["p.exe", "--windows-net-probe", "127.0.0.1", "80", "1500"]
    );
    assert_eq!(escape_single_quotes("''a'"), "''''a''");
    assert_eq!(escape_single_quotes(""), "");
    assert_eq!(
        child_path(PathStyle::Unix, &path("/a"), "b"),
        path("/a/b")
    );
    assert_eq!(
        child_path(PathStyle::Windows, &path(r"C:\a"), "b"),
        path(r"C:\a\b")
    );
    for (dir, name, joined) in [
        ("C:", "b", "C:b"),
        (r"C:\", "b", r"C:\b"),
        ("C:/x/", "b", "C:/x/b"),
        ("", "b", "b"),
        (r"C:\a", r"D:\b", r"D:\b"),
        (r"C:\a", r"\b", r"C:\b"),
    ] {
        assert_eq!(
            child_path(PathStyle::Windows, &path(dir), name),
            path(joined),
            "{dir} {name}"
        );
    }
    for (dir, name) in [("/", "b"), ("", "b"), ("a/", "b"), ("/a", "/b"), ("/a", "")] {
        assert_eq!(
            child_path(PathStyle::Unix, &path(dir), name).display(PathStyle::Unix),
            std::path::Path::new(dir).join(name).to_string_lossy(),
            "{dir} {name}"
        );
    }
    assert_eq!(
        probe_variable_names(),
        vec![
            "PATH",
            "PATHEXT",
            "SystemRoot",
            "WINDIR",
            "HOME",
            "USERPROFILE",
            "TMP",
            "TEMP",
            "TMPDIR"
        ]
    );
    assert_eq!(
        probe_directory_name("x", 3, 99),
        "procwarden-ci-probe-x-3-99"
    );
    assert_eq!(PROBE_TIMEOUT_MS, 2_500);
}

#[test]
fn the_matrix_has_twelve_cases() {
    let names = |style| -> Vec<String> { matrix_cases(style).iter().map(|c| c.name.clone()).collect() };
    assert_eq!(
        names(PathStyle::Unix),
        vec![
            "readwrite_none",
            "readwrite_readwrite",
            "readwrite_readonly",
            "readwrite_deny",
            "readwrite_readonly_readwrite",
            "readwrite_readonly_deny",
            "readonly_none",
            "readonly_readonly",
            "readonly_readwrite",
            "readonly_deny",
            "readonly_readonly_readwrite",
            "readonly_readwrite_deny"
        ]
    );
    assert_eq!(
        names(PathStyle::Windows),
        vec![
            "readwrite_none",
            "readwrite_readwrite",
            "readwrite_readonly",
            "readwrite_readonly_readwrite",
            "readwrite_deny",
            "readwrite_readonly_deny",
            "readonly_none",
            "readonly_readonly",
            "readonly_readwrite",
            "readonly_readonly_readwrite",
            "readonly_deny",
            "readonly_readwrite_deny"
        ]
    );
    let case = &matrix_cases(PathStyle::Unix)[11];
    let policy = case.policy(&fixture());
    assert_eq!(policy.default_access, SandboxDefaultAccess::ReadOnly);
    assert_eq!(policy.network_policy, SandboxNetworkPolicy::disabled());
    assert_eq!(
        policy.path_permissions,
        vec![
            SandboxPathPermission::read_write("/f/readwrite"),
            SandboxPathPermission::deny("/f/denied")
        ]
    );
}

#[test]
fn results_are_shown_in_a_few_words() {
    let shown = |result: &RunResult| render_unix_matrix_result(result, "Debug\r\ntext");
    assert_eq!(shown(&ended(0, "", "")), "runnable");
    assert_eq!(shown(&ended(-1, "", "")), "command_failed(exit=-1)");
    assert_eq!(
        shown(&no_mounts()),
        "unavailable(needs mount-namespace support: no)"
    );
    assert_eq!(
        shown(&Err(SandboxError::InvalidRequest("x".to_string()))),
        "invalid_request(x)"
    );
    assert_eq!(
        shown(&Err(SandboxError::Denied("x".to_string()))),
        "denied(x)"
    );
    assert_eq!(
        shown(&Err(SandboxError::Io(IoFailure {
            kind: IoFailureKind::Other,
            raw_os_error: None,
            message: "x".to_string()
        }))),
        "io_error(x)"
    );
    assert_eq!(shown(&no_filters()), "unexpected(Debug  text)");
    assert_eq!(
        render_windows_matrix_result(&no_filters(), "d"),
        "windows_error(FwpmEngineOpen0 failed: 50 (not supported))"
    );
    assert_eq!(render_windows_matrix_result(&ended(0, "", ""), "d"), "runnable");
    assert_eq!(sanitize_probe_message("a\r\nb"), "a  b");
}

#[test]
fn connections_are_shown_with_shortened_output() {
    assert_eq!(
        render_windows_network_probe_result(&ended(0, "x", "y"), ""),
        "connect_ok"
    );
    assert_eq!(
        render_windows_network_probe_result(&ended(1, " a\nb ", "\n"), ""),
        "connect_failed(exit=1,stderr=none,stdout=a b)"
    );
    assert_eq!(truncate_probe_detail(&"x".repeat(160)), "x".repeat(160));
    assert_eq!(
        truncate_probe_detail(&"x".repeat(161)),
        format!("{}...", "x".repeat(160))
    );
    assert_eq!(
        truncate_probe_detail(&format!("{}\u{e9}\u{e9}", "x".repeat(158))),
        format!("{}\u{e9}...", "x".repeat(158))
    );
    assert!(!detail_can_be_cut(&format!("{}\u{e9}", "x".repeat(159))));
    assert!(detail_can_be_cut(&format!("{}\u{e9}", "x".repeat(158))));
    assert!(detail_can_be_cut(&"x".repeat(500)));
    assert!(detail_can_be_cut(""));
    assert!(network_result_can_be_shown(&no_filters()));
    let long = format!("{}\u{e9}", "x".repeat(159));
    assert!(network_result_can_be_shown(&ended(0, &long, "")));
    assert!(!network_result_can_be_shown(&ended(1, &long, "")));
    assert!(is_windows_wfp_unavailable(&no_filters()));
    assert!(!is_windows_wfp_unavailable(&no_mounts()));
    assert!(!is_windows_wfp_unavailable(&ended(1, "", "")));
}

#[test]
fn samples_are_summed_up() {
    let samples = vec![5u128, 1, 9, 2];
    assert_eq!(average_ms(&samples), 4);
    assert_eq!(join_samples(&samples), "5,1,9,2");
    assert_eq!(extreme_samples(&samples), (1, 9));
    assert_eq!(extreme_samples(&vec![]), (0, 0));
    assert_eq!(
        timing_lines("case", &samples),
        vec![
            "windows.timing.case.samples_ms=5,1,9,2",
            "windows.timing.case.avg_ms=4",
            "windows.timing.case.min_ms=1",
            "windows.timing.case.max_ms=9"
        ]
    );
    assert_eq!(TIMING_ITERATIONS, 3);
}

#[test]
fn answers_of_the_host_are_read() {
    assert_eq!(parse_elevation_answer(" True\r\n"), Ok(true));
    assert_eq!(parse_elevation_answer("False"), Ok(false));
    assert_eq!(
        parse_elevation_answer("what\n"),
        Err("unexpected powershell elevation probe output: what".to_string())
    );
    assert_eq!(
        first_answer_line("\n \r\n 10.0.0.1 \r\nx"),
        Some("10.0.0.1".to_string())
    );
    assert_eq!(first_answer_line(" \n"), None);
    assert_eq!(diagnosis_reason(0), "none");
    assert_eq!(diagnosis_reason(1), "private_network");
    assert_eq!(diagnosis_reason(2), "internet_client");
    assert_eq!(diagnosis_reason(3), "internet_client_server");
    assert_eq!(diagnosis_reason(4), "unknown");
}

#[test]
fn arguments_choose_the_mode() {
    let mode = |args: &[&str]| probe_mode(&args.iter().map(|a| a.to_string()).collect());
    assert_eq!(mode(&["p"]), ProbeMode::Matrix);
    assert_eq!(mode(&["p", "--other", "a", "1", "2"]), ProbeMode::Matrix);
    assert_eq!(
        mode(&["p", "--windows-net-probe", "10.0.0.1", "80", "1500"]),
        ProbeMode::Connect {
            host: "10.0.0.1".to_string(),
            port: 80,
            timeout_ms: 1500
        }
    );
    assert_eq!(
        mode(&["p", "--windows-net-probe", "h", "+65535", "18446744073709551615"]),
        ProbeMode::Connect {
            host: "h".to_string(),
            port: 65535,
            timeout_ms: u64::MAX
        }
    );
    for (port, timeout) in [
        ("65536", "1"),
        ("", "1"),
        ("+", "1"),
        ("-1", "1"),
        ("1", "18446744073709551616"),
        ("1", "x"),
        ("-0", "1"),
    ] {
        assert_eq!(
            mode(&["p", "--windows-net-probe", "h", port, timeout]),
            if port.parse::<u16>().is_ok() && timeout.parse::<u64>().is_ok() {
                ProbeMode::Connect {
                    host: "h".to_string(),
                    port: port.parse().unwrap(),
                    timeout_ms: timeout.parse().unwrap(),
                }
            } else {
                ProbeMode::Malformed
            },
            "{port} {timeout}"
        );
    }
    assert_eq!(
        mode(&["p", "--windows-net-probe", "h", "80"]),
        ProbeMode::Matrix
    );
}

#[test]
fn outcomes_are_judged_against_their_step() {
    let steps = linux_enforcement_steps(&fixture());
    let carve_out = &steps[0];
    assert!(carve_out.succeeds);
    assert_eq!(
        carve_out.context,
        "linux readonly+readwrite write carve-out"
    );
    assert_eq!(
        carve_out.command,
        write_command(
            PathStyle::Unix,
            &path("/f/readwrite/probe-readonly-rw.txt"),
            "ok"
        )
    );
    assert_eq!(
        judge_step(carve_out, &ended(0, "", ""), ""),
        Verdict::Continue
    );
    assert_eq!(
        judge_step(carve_out, &ended(2, "o", "e"), ""),
        Verdict::Fail("linux readonly+readwrite write carve-out failed unexpectedly: exit_code=2, stdout=o, stderr=e".to_string())
    );
    let outside = &steps[1];
    assert!(!outside.succeeds);
    assert_eq!(
        outside.lines,
        vec!["linux.enforcement.readonly_readwrite=ok"]
    );
    assert_eq!(
        judge_step(outside, &ended(0, "o", "e"), ""),
        Verdict::Fail(
            "linux readonly+readwrite outside write succeeded unexpectedly: stdout=o, stderr=e"
                .to_string()
        )
    );
    assert_eq!(judge_step(outside, &ended(1, "", ""), ""), Verdict::Continue);

    let bootstrap = &steps[2];
    assert_eq!(bootstrap.skip_when, SkipCondition::NoMountNamespaces);
    match judge_step(bootstrap, &no_mounts(), "") {
        Verdict::Skip(lines) => {
            assert_eq!(lines.len(), 6);
            assert_eq!(
                lines[0],
                "linux.readwrite_plus_readonly_enforcement=unavailable(needs mount-namespace support: no)"
            );
        }
        other => panic!("unexpected {other:?}"),
    }
    assert_eq!(
        judge_step(bootstrap, &Err(SandboxError::Denied("x".to_string())), "Denied(\"x\")"),
        Verdict::Fail("linux overlay bootstrap failed: Denied(\"x\")".to_string())
    );
    let last = &steps[steps.len() - 1];
    assert_eq!(
        last.lines,
        vec!["linux.enforcement.readonly_readwrite_deny=ok"]
    );
    assert_eq!(
        last.policy.path_permissions,
        vec![
            SandboxPathPermission::read_write("/f/cwd"),
            SandboxPathPermission::read_write("/f/readwrite"),
            SandboxPathPermission::deny("/f/readwrite/nested-deny"),
        ]
    );
}

#[test]
fn capabilities_are_told_from_failures() {
    assert_eq!(
        readwrite_with_readonly_policy(&fixture()).path_permissions,
        vec![SandboxPathPermission::read_only("/f/readonly")]
    );
    assert_eq!(
        overlay_capability(&ended(0, "", ""), ""),
        Ok(vec!["linux.overlay_subtractive=available".to_string()])
    );
    assert_eq!(
        overlay_capability(&no_mounts(), ""),
        Ok(vec![
            "linux.overlay_subtractive=unavailable".to_string(),
            "linux.unavailable_reason=needs mount-namespace support:\nno".to_string()
        ])
    );
    assert_eq!(
        overlay_capability(&no_filters(), "dbg"),
        Err("unexpected linux overlay capability result: dbg".to_string())
    );
    assert_eq!(
        overlay_capability(&ended(3, "o", "e"), ""),
        Err("linux bootstrap command failed unexpectedly: exit_code=3, stdout=o, stderr=e".to_string())
    );
    assert_eq!(
        frontloaded_validation(
            &Err(SandboxError::InvalidRequest(
                "read_only path does not exist: /x".to_string()
            )),
            ""
        ),
        Ok(vec![
            "manager.missing_path_validation=frontloaded_invalid_request".to_string()
        ])
    );
    assert_eq!(
        frontloaded_validation(&ended(0, "", ""), "Ok(..)"),
        Err("expected frontloaded InvalidRequest for missing policy path, got Ok(..)".to_string())
    );
}

#[test]
fn macos_runs_four_network_cases() {
    let cases = macos_network_cases(&fixture());
    let keys: Vec<&str> = cases.iter().map(|c| c.key.as_str()).collect();
    assert_eq!(
        keys,
        vec![
            "macos.network.disabled.runnable=",
            "macos.network.outbound_only.runnable=",
            "macos.network.bidirectional.runnable=",
            "macos.network.custom_ipv4_only="
        ]
    );
    assert_eq!(cases[3].policy.network_policy.coarse_policy(), None);
    let steps = macos_enforcement_steps(&fixture());
    assert_eq!(steps.len(), 3);
    assert_eq!(
        steps[0].policy.path_permissions[1],
        SandboxPathPermission::read_write("/f/readwrite/../readwrite")
    );
    assert_eq!(
        macos_summary(),
        vec![
            "macos.readonly_plus_readwrite=usable",
            "macos.path_deny=usable",
            "macos.alias_path_canonicalization=ok"
        ]
    );
}

#[test]
fn windows_runs_network_enforcement_and_timing() {
    let steps = windows_network_steps(&fixture());
    let keys: Vec<(&str, ProbeTarget)> = steps
        .iter()
        .map(|s| (s.case.key.as_str(), s.target))
        .collect();
    assert_eq!(
        keys,
        vec![
            ("windows.network.bidirectional.runnable=", ProbeTarget::Nothing),
            ("windows.network.outbound_only.runnable=", ProbeTarget::Nothing),
            ("windows.network.disabled.runnable=", ProbeTarget::Nothing),
            (
                "windows.network.loopback.same_binary_listener.bidirectional=",
                ProbeTarget::Loopback
            ),
            (
                "windows.network.loopback.same_binary_listener.outbound_only=",
                ProbeTarget::Loopback
            ),
            (
                "windows.network.loopback.same_binary_listener.disabled=",
                ProbeTarget::Loopback
            ),
            (
                "windows.network.private_network.bidirectional=",
                ProbeTarget::PrivateNetwork
            ),
            (
                "windows.network.private_network.outbound_only=",
                ProbeTarget::PrivateNetwork
            ),
            (
                "windows.network.private_network.disabled=",
                ProbeTarget::PrivateNetwork
            ),
        ]
    );
    assert_eq!(gateway_ports(), vec![53, 80, 443]);
    assert_eq!(
        reachable_gateway_lines("10.0.0.1", 53),
        vec![
            "windows.network.private_network.target=10.0.0.1:53",
            "windows.network.private_network.host_baseline=connect_ok"
        ]
    );
    assert_eq!(unreachable_gateway_lines().len(), 4);
    assert_eq!(
        unreachable_gateway_lines()[0],
        "windows.network.private_network.host_baseline=skipped(no_reachable_default_gateway_target)"
    );

    let enforcement = windows_enforcement_steps(&fixture());
    assert_eq!(enforcement.len(), 6);
    assert_eq!(enforcement[0].skip_when, SkipCondition::NoFilteringPlatform);
    match judge_step(&enforcement[0], &no_filters(), "") {
        Verdict::Skip(lines) => assert_eq!(
            lines,
            vec![
                "windows.enforcement.readonly_readwrite=wfp_unavailable",
                "windows.enforcement.readwrite_readonly=wfp_unavailable",
                "windows.enforcement.readonly_deny=wfp_unavailable",
                "windows.enforcement.readwrite_deny=wfp_unavailable",
                "windows.timing.skipped_reason=wfp_unavailable"
            ]
        ),
        other => panic!("unexpected {other:?}"),
    }
    assert_eq!(
        judge_step(&enforcement[1], &no_filters(), "dbg"),
        Verdict::Fail(
            "windows readonly+readwrite outside write returned unexpected manager error: dbg"
                .to_string()
        )
    );

    let timing = windows_timing_cases(&fixture());
    let names: Vec<&str> = timing.iter().map(|c| c.name.as_str()).collect();
    assert_eq!(
        names,
        vec![
            "readonly_none",
            "readonly_readwrite",
            "readonly_readonly",
            "readonly_deny",
            "readwrite_none",
            "readwrite_readonly",
            "readwrite_readwrite",
            "readwrite_deny"
        ]
    );
    assert_eq!(timing_notes().len(), 2);
    let step = timing_step(&timing[1]);
    assert_eq!(step.context, "readonly_readwrite");
    assert_eq!(
        judge_step(&step, &no_filters(), ""),
        Verdict::Skip(vec![
            "windows.timing.skipped_reason=wfp_unavailable".to_string()
        ])
    );
    assert_eq!(
        judge_step(&step, &Err(SandboxError::Denied("x".to_string())), "dbg"),
        Verdict::Fail("windows timing case readonly_readwrite failed to execute: dbg".to_string())
    );
}
