use procwarden::error::{IoFailure, IoFailureKind};
use procwarden::policy::SandboxCoarseNetworkPolicy;
use procwarden::windows::access::AclPlan;
use procwarden::windows::container::{
    capability_error, container_origin, exemption_kept, exemption_step, fresh_name, name_for,
    network_capabilities, parentless_executable, register_binary_result, rule_names,
    ContainerOrigin, ExemptionStep, NamePurpose,
};
use procwarden::windows::elevated::{
    elevated_powershell_parameters, firewall_powershell_parameters, helper_action, launch_error,
    parse_ready_signal, powershell_executable_path, progress_tail, serialize_acl_spec, stop_action,
    unread_progress, unread_ready_signal, HelperAction, HelperLaunch, HelperPhase, HelperStatus,
    NetworkRuleMode, ReadySignal, StopAction,
};
use procwarden::windows::environment::{
    apply_no_network_hardening, deny_stub_names, ensure_non_interactive_pager,
    get_env_case_insensitive, normalize_null_device_env, prepare_env, prepend_path,
    reorder_pathext_for_stubs,
};
use procwarden::windows::environment_block::{
    environment_block_for_create_process, make_env_block, merge_required, required_variable_names,
};
use procwarden::windows::firewall::{
    after_filter_failure, block_filter_name, block_layers, failed_elevation, filter_call_failure,
    following_filter_call, wfp_error, BlockLayer, FilterCall, FilterStep, WfpStatusError,
};
use procwarden::windows::process::{
    attribute_count, child_policy_degrade_allowed, child_policy_outcome, executable_lookup,
    following_attribute, next_wait, path_extensions, process_start, reported_exit_code,
    unresolved_executable, wait_verdict, windows_error, AttributeStep, ChildPolicyOutcome,
    ExecutableLookup, ProcessAttribute, WaitVerdict,
};
use procwarden::windows::quoting::{join_command_line, quote_windows_arg};
use procwarden::{EnvMap, PathStyle, SandboxError, SandboxPath};
use windows_sys::Win32::Foundation::{
    ERROR_ACCESS_DENIED, ERROR_BAD_LENGTH, ERROR_CANCELLED, ERROR_INVALID_PARAMETER,
    ERROR_NOT_SUPPORTED, WAIT_FAILED, WAIT_OBJECT_0, WAIT_TIMEOUT,
};
use windows_sys::Win32::System::Threading::{
    CREATE_UNICODE_ENVIRONMENT, EXTENDED_STARTUPINFO_PRESENT, INFINITE, STARTF_USESHOWWINDOW,
    STARTF_USESTDHANDLES,
};

fn path(text: &str) -> SandboxPath {
    SandboxPath::from_text(text)
}

fn env_of(pairs: &[(&str, &str)]) -> EnvMap {
    let mut env = EnvMap::new();
    for (key, value) in pairs {
        env.insert(key.to_string(), value.to_string());
    }
    env
}

fn failure(kind: IoFailureKind, raw_os_error: Option<i32>) -> IoFailure {
    IoFailure {
        kind,
        raw_os_error,
        message: "why".to_string(),
    }
}

#[test]
fn hardening_overwrites_mixed_case_proxy_and_git_guards() {
    let mut env = EnvMap::new();
    env.insert("Http_Proxy".to_string(), "http://attacker:8080".to_string());
    env.insert("NO_proxy".to_string(), "*".to_string());
    env.insert("git_allow_protocol".to_string(), "ssh".to_string());
    env.insert("GIT_PROTOCOL_FROM_USER".to_string(), "1".to_string());
    env.insert("Path".to_string(), r"C:\\Windows\\System32".to_string());
    env.insert("PATHEXT".to_string(), ".EXE;.CMD;.BAT".to_string());

    let denybin_dir = "/tmp/agena-sandbox-denybin-test-1";

    apply_no_network_hardening(&mut env, denybin_dir, &None, &None);

    assert_eq!(env.get("HTTP_PROXY"), Some("http://127.0.0.1:9".to_string()));
    assert_eq!(env.get("http_proxy"), Some("http://127.0.0.1:9".to_string()));
    assert_eq!(
        env.get("NO_PROXY"),
        Some("localhost,127.0.0.1,::1".to_string())
    );
    assert_eq!(
        env.get("no_proxy"),
        Some("localhost,127.0.0.1,::1".to_string())
    );
    assert_eq!(env.get("GIT_ALLOW_PROTOCOL"), Some("".to_string()));
    assert_eq!(env.get("GIT_ALLOW_PROTOCOLS"), Some("".to_string()));
    assert_eq!(env.get("GIT_PROTOCOL_FROM_USER"), Some("0".to_string()));
    assert_eq!(env.get("GIT_TERMINAL_PROMPT"), Some("0".to_string()));

    assert!(!env.contains_key("Http_Proxy"));
    assert!(!env.contains_key("NO_proxy"));
    assert!(!env.contains_key("git_allow_protocol"));
    assert!(!env.contains_key("Path"));

    let path = env.get("PATH").expect("PATH should be present");
    assert!(path.starts_with(denybin_dir));
    assert_eq!(env.get("PATHEXT"), Some(".BAT;.CMD;.EXE".to_string()));
    assert_eq!(path, r"/tmp/agena-sandbox-denybin-test-1;C:\\Windows\\System32");
    assert_eq!(env.get("GIT_SSH_COMMAND"), Some("cmd /c exit 1".to_string()));
    assert_eq!(env.get("CARGO_NET_OFFLINE"), Some("true".to_string()));
}

#[test]
fn prepend_path_keeps_existing_head_prefix_case_insensitively() {
    let mut env = EnvMap::new();
    env.insert(
        "Path".to_string(),
        r"C:\\sandbox-denybin;C:\\Windows\\System32".to_string(),
    );

    prepend_path(&mut env, r"c:\\SANDBOX-denybin", &None);

    assert_eq!(
        env.get("PATH"),
        Some(r"C:\\sandbox-denybin;C:\\Windows\\System32".to_string())
    );
    assert!(!env.contains_key("Path"));
}

#[test]
fn reorder_pathext_moves_bat_and_cmd_to_front() {
    let mut env = EnvMap::new();
    env.insert("PathExt".to_string(), ".EXE;.COM;.CMD;.BAT".to_string());

    reorder_pathext_for_stubs(&mut env, &None);

    assert_eq!(env.get("PATHEXT"), Some(".BAT;.CMD;.EXE;.COM".to_string()));
    assert!(!env.contains_key("PathExt"));
}

#[test]
fn the_search_path_of_the_process_is_used_where_none_is_given() {
    let mut env = EnvMap::new();
    prepend_path(&mut env, "p", &Some("q".to_string()));
    assert_eq!(env.get("PATH"), Some("p;q".to_string()));
    let mut env = EnvMap::new();
    prepend_path(&mut env, "p", &None);
    assert_eq!(env.get("PATH"), Some("p".to_string()));
    let mut env = EnvMap::new();
    reorder_pathext_for_stubs(&mut env, &None);
    assert_eq!(env.get("PATHEXT"), Some(".BAT;.CMD;.COM;.EXE".to_string()));
    let mut env = env_of(&[("PATHEXT", ".bat;;.BAT;.exe")]);
    reorder_pathext_for_stubs(&mut env, &None);
    assert_eq!(env.get("PATHEXT"), Some(".bat;.exe".to_string()));
}

#[test]
fn exact_names_come_before_other_spellings() {
    let env = env_of(&[("Path", "a"), ("PATH", "b")]);
    assert_eq!(get_env_case_insensitive(&env, "PATH"), Some("b".to_string()));
    assert_eq!(get_env_case_insensitive(&env, "Path"), Some("a".to_string()));
    assert_eq!(get_env_case_insensitive(&env, "PATHS"), None);
    let env = env_of(&[("pAtH", "c")]);
    assert_eq!(get_env_case_insensitive(&env, "PATH"), Some("c".to_string()));
}

#[test]
fn environments_are_prepared_for_windows() {
    let mut env = env_of(&[
        ("A", " /DEV/null "),
        ("B", r"\\dev\null"),
        ("C", r"\dev\null"),
        ("D", "x"),
    ]);
    normalize_null_device_env(&mut env);
    assert_eq!(env.get("A"), Some("NUL".to_string()));
    assert_eq!(env.get("B"), Some("NUL".to_string()));
    assert_eq!(env.get("C"), Some(r"\dev\null".to_string()));
    assert_eq!(env.get("D"), Some("x".to_string()));

    let mut env = env_of(&[("PAGER", "cat")]);
    ensure_non_interactive_pager(&mut env);
    assert_eq!(env.get("PAGER"), Some("cat".to_string()));
    assert_eq!(env.get("GIT_PAGER"), Some("more.com".to_string()));
    assert_eq!(env.get("LESS"), Some(String::new()));

    let prepared = prepare_env(&env_of(&[("X", "/dev/null")]), false, "stub", &None, &None);
    assert_eq!(prepared.get("X"), Some("NUL".to_string()));
    assert_eq!(prepared.get("HTTP_PROXY"), None);
    assert_eq!(prepared.len(), 4);
    let hardened = prepare_env(
        &EnvMap::new(),
        true,
        "stub",
        &Some("p".to_string()),
        &Some(".A".to_string()),
    );
    assert_eq!(hardened.get("PATH"), Some("stub;p".to_string()));
    assert_eq!(hardened.get("PATHEXT"), Some(".A".to_string()));
    assert_eq!(
        hardened.get("AGENA_SANDBOX_NETWORK_DISABLED"),
        Some("1".to_string())
    );
    assert_eq!(
        deny_stub_names(),
        vec![
            "ssh.bat", "ssh.cmd", "scp.bat", "scp.cmd", "sftp.bat", "sftp.cmd", "ftp.bat",
            "ftp.cmd", "telnet.bat", "telnet.cmd", "nc.bat", "nc.cmd", "ncat.bat", "ncat.cmd"
        ]
    );
}

#[test]
fn resolve_executable_honors_custom_path_and_pathext() {
    let env = env_of(&[("PATH", r"C:\tools"), ("PATHEXT", ".CMD;.EXE")]);
    assert_eq!(
        executable_lookup("demo", &env, &None, &None),
        ExecutableLookup::OnSearchPath {
            candidates: vec![
                "demo".to_string(),
                "demo.CMD".to_string(),
                "demo.EXE".to_string()
            ],
            search_path: r"C:\tools".to_string(),
        }
    );
}

#[test]
fn resolve_executable_does_not_fallback_to_path_for_relative_binary() {
    let lookup = executable_lookup(
        r".\missing-command",
        &EnvMap::new(),
        &Some(r"C:\Windows".to_string()),
        &None,
    );
    assert_eq!(lookup, ExecutableLookup::AtPath);
}

#[test]
fn programs_are_looked_for_by_their_names() {
    let env = EnvMap::new();
    let candidates = |program: &str| match executable_lookup(program, &env, &None, &None) {
        ExecutableLookup::OnSearchPath { candidates, .. } => candidates,
        ExecutableLookup::AtPath => vec![],
    };
    assert_eq!(candidates("a.exe"), vec!["a.exe"]);
    assert_eq!(
        candidates(".a"),
        vec![".a", ".a.COM", ".a.EXE", ".a.BAT", ".a.CMD"]
    );
    assert_eq!(candidates("a.").len(), 5);
    assert!(candidates("C:a").is_empty());
    assert!(candidates("d/a").is_empty());
    assert_eq!(
        path_extensions(&env_of(&[("PATHEXT", " .A ;; .B")]), &None),
        vec![".A", ".B"]
    );
    assert_eq!(
        unresolved_executable("x", &path(r"C:\cwd")).message(),
        r"invalid sandbox request: unable to resolve executable 'x' from cwd C:\cwd"
    );
}

#[test]
fn quote_windows_arg_handles_spaces_quotes_and_trailing_backslashes() {
    assert_eq!(quote_windows_arg("plain"), "plain");
    assert_eq!(quote_windows_arg("two words"), r#""two words""#);
    assert_eq!(
        quote_windows_arg(r#"a\"b"#),
        r#""a\\\"b""#,
        "embedded quote should be escaped with preceding backslashes"
    );
    assert_eq!(
        quote_windows_arg(r"path with tail\\"),
        r#""path with tail\\\\""#,
        "trailing backslashes must be doubled inside quoted arg"
    );
}

/// Takes a command line apart as the C runtime does.
fn read_back(line: &str) -> Vec<String> {
    let chars: Vec<char> = line.chars().collect();
    let mut out = Vec::new();
    let mut at = 0;
    while at < chars.len() {
        while at < chars.len() && (chars[at] == ' ' || chars[at] == '\t') {
            at += 1;
        }
        if at == chars.len() {
            break;
        }
        let mut arg = String::new();
        let mut quoted = false;
        while at < chars.len() && (quoted || (chars[at] != ' ' && chars[at] != '\t')) {
            let mut backslashes = 0;
            while at < chars.len() && chars[at] == '\\' {
                backslashes += 1;
                at += 1;
            }
            if at < chars.len() && chars[at] == '"' {
                arg.push_str(&"\\".repeat(backslashes / 2));
                if backslashes % 2 == 1 {
                    arg.push('"');
                } else {
                    quoted = !quoted;
                }
                at += 1;
            } else {
                arg.push_str(&"\\".repeat(backslashes));
                if at < chars.len() && (quoted || (chars[at] != ' ' && chars[at] != '\t')) {
                    arg.push(chars[at]);
                    at += 1;
                }
            }
        }
        out.push(arg);
    }
    out
}

#[test]
fn command_lines_are_read_back_as_written() {
    let args: Vec<String> = [
        "prog", "", " ", r"a\", r"a b\", r#"""#, r#"\""#, r#"a\\"b c"#, "tab\there", r"\\srv\x y\\",
        "line\nbreak",
    ]
    .iter()
    .map(|arg| arg.to_string())
    .collect();
    assert_eq!(read_back(&join_command_line(&args)), args);
    assert_eq!(quote_windows_arg(""), r#""""#);
    assert_eq!(
        join_command_line(&vec!["a".to_string(), "b c".to_string()]),
        r#"a "b c""#
    );
}

#[test]
fn block_layer_list_covers_connect_accept_and_resource_assignment() {
    assert_eq!(
        block_layers().len(),
        6,
        "expected IPv4/IPv6 layers for connect, recv_accept, and resource_assignment"
    );
    for layer in [
        BlockLayer::ConnectV4,
        BlockLayer::ConnectV6,
        BlockLayer::ReceiveAcceptV4,
        BlockLayer::ReceiveAcceptV6,
        BlockLayer::ResourceAssignmentV4,
        BlockLayer::ResourceAssignmentV6,
    ] {
        assert_eq!(block_layers().iter().filter(|l| **l == layer).count(), 1);
    }
}

#[test]
fn filter_failures_lead_to_elevation_only_where_it_may_help() {
    let status = |status: u32| WfpStatusError {
        context: "FwpmFilterAdd0".to_string(),
        status,
        detail: "text".to_string(),
    };
    assert!(status(ERROR_ACCESS_DENIED).should_try_auto_elevation());
    assert!(status(ERROR_NOT_SUPPORTED).should_try_auto_elevation());
    assert!(!status(87).should_try_auto_elevation());
    assert!(after_filter_failure(&status(5), false).is_none());
    assert_eq!(
        after_filter_failure(&status(5), true).map(|e| e.message()),
        Some("sandbox denied execution: FwpmFilterAdd0 failed with access denied (text): requires privileges to install temporary WFP filters".to_string())
    );
    assert_eq!(
        after_filter_failure(&status(87), false).map(|e| e.message()),
        Some("windows sandbox error: FwpmFilterAdd0 failed: 87 (text)".to_string())
    );
    assert_eq!(
        status(50).into_sandbox_error().message(),
        wfp_error("FwpmFilterAdd0", 50, "text").message()
    );
    assert_eq!(
        failed_elevation(&status(50), &SandboxError::Denied("no".to_string())).message(),
        "sandbox denied execution: windows sandbox error: FwpmFilterAdd0 failed: 50 (text); automatic administrator elevation failed: sandbox denied execution: no"
    );
    assert_eq!(block_filter_name(5), "procwarden-network-block-5");
}

/// The parts of a block, each up to a zero.
fn block_parts(block: &[u16]) -> Vec<String> {
    let text = String::from_utf16(block).expect("the block should be well formed");
    text.split('\0').map(|part| part.to_string()).collect()
}

#[test]
fn environment_blocks_are_sorted_and_terminated() {
    let block = make_env_block(&env_of(&[("b", "2"), ("A", "1"), ("B", "3"), ("a\u{1F600}", "x")]));
    assert_eq!(
        block_parts(&block),
        vec!["A=1", "a\u{1F600}=x", "B=3", "b=2", "", ""]
    );
    assert_eq!(make_env_block(&EnvMap::new()), vec![0, 0]);
}

#[test]
fn blocks_tell_environments_apart() {
    let variables = [("A", "1"), ("a", "1"), ("B", ""), ("C", "x=y")];
    let turned: Vec<(&str, &str)> = variables.iter().rev().copied().collect();
    assert_eq!(
        make_env_block(&env_of(&variables)),
        make_env_block(&env_of(&turned))
    );
    let environments = [
        env_of(&[]),
        env_of(&[("A", "1")]),
        env_of(&[("a", "1")]),
        env_of(&[("A", "")]),
        env_of(&[("A", "1"), ("B", "")]),
        env_of(&[("A", "1=B")]),
        env_of(&[("A", "\u{10000}")]),
        env_of(&[("A", "\u{10ffff}")]),
    ];
    for (i, a) in environments.iter().enumerate() {
        for (j, b) in environments.iter().enumerate() {
            assert_eq!(make_env_block(a) == make_env_block(b), i == j);
        }
    }
}

#[test]
fn required_variables_come_from_the_process() {
    let names = required_variable_names();
    assert_eq!(
        names,
        vec![
            "SystemRoot",
            "WINDIR",
            "PATH",
            "PATHEXT",
            "TEMP",
            "TMP",
            "COMSPEC",
            "USERPROFILE",
            "APPDATA",
            "LOCALAPPDATA"
        ]
    );
    let mut parent: Vec<Option<String>> = names.iter().map(|_| None).collect();
    parent[0] = Some(r"C:\W".to_string());
    parent[2] = Some("p".to_string());
    let merged = merge_required(&env_of(&[("Path", "own")]), &names, &parent);
    assert_eq!(merged.len(), 2);
    assert_eq!(merged.get("Path"), Some("own".to_string()));
    assert_eq!(merged.get("SystemRoot"), Some(r"C:\W".to_string()));

    let nothing: Vec<Option<String>> = names.iter().map(|_| None).collect();
    assert_eq!(
        environment_block_for_create_process(&EnvMap::new(), &names, &nothing),
        vec![0, 0]
    );
    let block = environment_block_for_create_process(&env_of(&[("X", "1")]), &names, &parent);
    assert_eq!(
        block_parts(&block),
        vec!["PATH=p", r"SystemRoot=C:\W", "X=1", "", ""]
    );
}

#[test]
fn waits_are_bounded_by_the_timeout() {
    let long: u64 = 1 << 32;
    assert_eq!(next_wait(77, None), INFINITE);
    assert_eq!(next_wait(0, Some(1500)), 1500);
    assert_eq!(next_wait(1499, Some(1500)), 1);
    assert_eq!(next_wait(1500, Some(1500)), 0);
    assert_eq!(next_wait(9999, Some(1500)), 0);
    assert_eq!(next_wait(0, Some(0)), 0);
    assert_eq!(next_wait(0, Some(0xffff_fffe)), 0xffff_fffe);
    assert_eq!(next_wait(0, Some(0xffff_ffff)), 0xffff_fffe);
    assert_eq!(next_wait(0, Some(long)), 0xffff_fffe);
    assert_eq!(next_wait(0xffff_fffe, Some(long)), 2);
    assert_eq!(next_wait(0, Some(u64::MAX)), 0xffff_fffe);

    assert_eq!(wait_verdict(WAIT_OBJECT_0, 0, Some(10)), WaitVerdict::Ended);
    assert_eq!(wait_verdict(WAIT_OBJECT_0, 99, Some(10)), WaitVerdict::Ended);
    assert_eq!(wait_verdict(WAIT_FAILED, 0, None), WaitVerdict::Ended);
    assert_eq!(
        wait_verdict(WAIT_TIMEOUT, 10, Some(10)),
        WaitVerdict::TimedOut
    );
    assert_eq!(
        wait_verdict(WAIT_TIMEOUT, 9, Some(10)),
        WaitVerdict::WaitAgain
    );
    assert_eq!(
        wait_verdict(WAIT_TIMEOUT, 0xffff_fffe, Some(long)),
        WaitVerdict::WaitAgain
    );
    assert_eq!(wait_verdict(WAIT_TIMEOUT, 0, None), WaitVerdict::WaitAgain);

    assert_eq!(reported_exit_code(true, 3), 124);
    assert_eq!(reported_exit_code(false, 3), 3);
    assert_eq!(reported_exit_code(false, 0xc000_0005), -1073741819);
}

#[test]
fn long_timeouts_do_not_end_a_command_early() {
    // The process ends by itself after one second.
    let timeout = Some(4_294_967_296);
    assert!(next_wait(0, timeout) > 1_000);
    assert_eq!(
        wait_verdict(WAIT_OBJECT_0, 1_000, timeout),
        WaitVerdict::Ended
    );
    assert_eq!(reported_exit_code(false, 0), 0);

    // A process that never ends is stopped when its time is up, and not before.
    let mut elapsed: u128 = 0;
    let mut waits = 0;
    loop {
        elapsed += u128::from(next_wait(elapsed, timeout));
        waits += 1;
        match wait_verdict(WAIT_TIMEOUT, elapsed, timeout) {
            WaitVerdict::WaitAgain => {}
            verdict => {
                assert_eq!(verdict, WaitVerdict::TimedOut);
                break;
            }
        }
    }
    assert_eq!((elapsed, waits), (4_294_967_296, 2));
}

#[test]
fn attributes_are_set_one_after_the_other() {
    let failed = |code: i32| Some((code, "bad".to_string()));
    let security = ProcessAttribute::Security;
    let child_policy = ProcessAttribute::ChildPolicy;
    let job_list = ProcessAttribute::JobList;
    assert_eq!(
        following_attribute(security, false, &None),
        AttributeStep::Next(child_policy)
    );
    assert_eq!(
        following_attribute(security, true, &None),
        AttributeStep::Next(job_list)
    );
    assert_eq!(
        following_attribute(child_policy, false, &None),
        AttributeStep::Next(job_list)
    );
    assert_eq!(
        following_attribute(job_list, false, &None),
        AttributeStep::Done
    );
    assert!(matches!(
        following_attribute(child_policy, false, &failed(87)),
        AttributeStep::StartOver(_)
    ));
    let message = |step| match step {
        AttributeStep::Fail(error) => error.message(),
        other => panic!("unexpected {other:?}"),
    };
    assert_eq!(
        message(following_attribute(security, false, &failed(87))),
        "windows sandbox error: UpdateProcThreadAttribute(SECURITY_CAPABILITIES) failed: 87 (bad)"
    );
    assert_eq!(
        message(following_attribute(child_policy, false, &failed(6))),
        "windows sandbox error: UpdateProcThreadAttribute(CHILD_PROCESS_POLICY) failed: 6 (bad)"
    );
    assert_eq!(
        message(following_attribute(job_list, true, &failed(5))),
        "windows sandbox error: UpdateProcThreadAttribute(JOB_LIST) failed: 5 (bad)"
    );
    assert_eq!((attribute_count(false), attribute_count(true)), (3, 2));

    let start = process_start();
    assert_eq!(
        start.startup_flags,
        STARTF_USESTDHANDLES | STARTF_USESHOWWINDOW
    );
    assert_eq!(
        start.creation_flags,
        CREATE_UNICODE_ENVIRONMENT | EXTENDED_STARTUPINFO_PRESENT
    );
    assert_eq!((start.show_window, start.child_policy), (0, 1));
    assert!(start.inherits_handles);
}

#[test]
fn filters_are_installed_in_one_transaction() {
    let mut calls = vec![FilterCall::Begin];
    loop {
        match following_filter_call(calls[calls.len() - 1], 0) {
            FilterStep::Next(call) => calls.push(call),
            step => {
                assert_eq!(step, FilterStep::Done);
                break;
            }
        }
    }
    let mut expected = vec![FilterCall::Begin];
    expected.extend((0..block_layers().len()).map(FilterCall::Add));
    expected.push(FilterCall::Commit);
    assert_eq!(calls, expected);

    assert_eq!(
        following_filter_call(FilterCall::Begin, 5),
        FilterStep::Fail
    );
    assert_eq!(
        following_filter_call(FilterCall::Add(3), 5),
        FilterStep::AbortThenFail
    );
    assert_eq!(
        following_filter_call(FilterCall::Commit, 5),
        FilterStep::AbortThenFail
    );
    for (call, name) in [
        (FilterCall::Begin, "FwpmTransactionBegin0"),
        (FilterCall::Add(1), "FwpmFilterAdd0"),
        (FilterCall::Commit, "FwpmTransactionCommit0"),
    ] {
        let failure = filter_call_failure(call, 87, "bad");
        assert_eq!(failure.context, name);
        assert_eq!((failure.status, failure.detail.as_str()), (87, "bad"));
    }
}

#[test]
fn missing_child_policies_degrade_the_run() {
    for code in [
        ERROR_ACCESS_DENIED,
        ERROR_BAD_LENGTH,
        ERROR_INVALID_PARAMETER,
        ERROR_NOT_SUPPORTED,
    ] {
        assert!(child_policy_degrade_allowed(code as i32), "{code}");
    }
    assert!(!child_policy_degrade_allowed(6));
    assert_eq!(child_policy_outcome(&None), ChildPolicyOutcome::Restricted);
    assert_eq!(
        child_policy_outcome(&Some((87, "bad".to_string()))),
        ChildPolicyOutcome::Degraded("windows sandbox degraded mode: child-process restriction policy unavailable (87: bad); job containment remains active".to_string())
    );
    match child_policy_outcome(&Some((6, "bad".to_string()))) {
        ChildPolicyOutcome::Failed(error) => assert_eq!(
            error.message(),
            "windows sandbox error: UpdateProcThreadAttribute(CHILD_PROCESS_POLICY) failed: 6 (bad)"
        ),
        other => panic!("unexpected {other:?}"),
    }
    assert_eq!(
        windows_error("CreatePipe(stdin)", -3, "d").message(),
        "windows sandbox error: CreatePipe(stdin) failed: -3 (d)"
    );
}

#[test]
fn names_carry_the_process_and_a_number() {
    assert_eq!(name_for(NamePurpose::Container, 12, 7), "procwarden_12_7");
    assert_eq!(
        name_for(NamePurpose::HelperDirectory, 1, 2),
        "procwarden-elevated-ops-1-2"
    );
    assert_eq!(
        name_for(NamePurpose::HelperRules, 1, 2),
        "procwarden-elevated-all-1-2"
    );
    assert_eq!(
        name_for(NamePurpose::FirewallDirectory, 1, 2),
        "procwarden-elevated-wfp-1-2"
    );
    assert_eq!(
        name_for(NamePurpose::FirewallRules, 1, 2),
        "procwarden-elevated-1-2"
    );
    assert_eq!(
        rule_names("p"),
        ("p-out".to_string(), "p-in".to_string())
    );
    let name = fresh_name(NamePurpose::Container, 4294967295);
    let nonce = name
        .strip_prefix("procwarden_4294967295_")
        .expect("the name should begin with the process");
    assert!(nonce.parse::<u32>().is_ok());
    let names: Vec<String> = (0..8)
        .map(|_| fresh_name(NamePurpose::Container, 1))
        .collect();
    assert!(names.iter().any(|other| *other != names[0]));
}

#[test]
fn containers_are_created_or_derived() {
    assert!(matches!(container_origin(0, -1), Ok(ContainerOrigin::Created)));
    assert!(matches!(container_origin(-1, 0), Ok(ContainerOrigin::Derived)));
    match container_origin(-2147024891, -1) {
        Err(error) => assert_eq!(error.message(), "windows sandbox error: CreateAppContainerProfile/DeriveAppContainerSidFromAppContainerName failed: 0x80070005/0xffffffff"),
        other => panic!("unexpected {other:?}"),
    }
    assert!(register_binary_result(1).is_ok());
    match register_binary_result(-2147024809) {
        Err(error) => assert_eq!(
            error.message(),
            "windows sandbox error: NetworkIsolationSetupAppContainerBinaries failed: 0x80070057"
        ),
        Ok(()) => panic!("the failure should be reported"),
    }
    assert_eq!(
        parentless_executable(&path(r"C:\")).message(),
        r"invalid sandbox request: resolved executable has no parent directory: C:\"
    );
    assert!(network_capabilities(SandboxCoarseNetworkPolicy::Disabled).is_empty());
    assert_eq!(
        network_capabilities(SandboxCoarseNetworkPolicy::OutboundOnly),
        vec!["S-1-15-3-1", "S-1-15-3-2", "S-1-15-3-3"]
    );
    assert_eq!(
        capability_error("S-1-15-3-1", 87, "bad").message(),
        "windows sandbox error: ConvertStringSidToSidW failed for network capability SID S-1-15-3-1: 87 (bad)"
    );
    assert_eq!(exemption_step(true), ExemptionStep::AlreadyThere);
    assert_eq!(exemption_step(false), ExemptionStep::Add);
    assert!(exemption_kept(true).is_ok());
    match exemption_kept(false) {
        Err(error) => assert_eq!(error.message(), "windows sandbox error: NetworkIsolationSetAppContainerConfig did not retain the requested AppContainer SID"),
        Ok(()) => panic!("the failure should be reported"),
    }
}

fn helper_launch() -> HelperLaunch {
    HelperLaunch {
        script: path(r"C:\t\a b.ps1"),
        sid: "S-1".to_string(),
        container: "procwarden_1_2".to_string(),
        task_file: path("s"),
        stop_file: path("stop"),
        ready_file: path("ready"),
        progress_file: path("progress"),
        loopback_start_file: path("ls"),
        loopback_ready_file: path("lr"),
        parent_pid: 77,
        executable: path(r"C:\x.exe"),
        out_rule: "o".to_string(),
        in_rule: "i".to_string(),
        mode: NetworkRuleMode::OutboundOnly,
    }
}

#[test]
fn helpers_are_started_with_all_parameters() {
    assert_eq!(
        elevated_powershell_parameters(&helper_launch()),
        r#"-NoProfile -NonInteractive -ExecutionPolicy Bypass -WindowStyle Hidden -File "C:\t\a b.ps1" -Sid S-1 -AppContainerName procwarden_1_2 -SpecFile s -StopFile stop -ReadyFile ready -ProgressFile progress -LoopbackServerStartFile ls -LoopbackServerReadyFile lr -ParentPid 77 -Executable C:\x.exe -OutRule o -InRule i -NetworkRuleMode 2"#
    );
    assert_eq!(
        firewall_powershell_parameters(&path("a"), &path("b c"), "p", &path("d"), &path("e")),
        r#"-NoProfile -NonInteractive -ExecutionPolicy Bypass -WindowStyle Hidden -File a -Executable "b c" -RulePrefix p -StopFile d -ReadyFile e"#
    );
    assert_eq!(
        powershell_executable_path(&None).display(PathStyle::Windows),
        r"C:\Windows\System32\WindowsPowerShell\v1.0\powershell.exe"
    );
    assert_eq!(
        powershell_executable_path(&Some(r"D:\W\".to_string())).display(PathStyle::Windows),
        r"D:\W\System32\WindowsPowerShell\v1.0\powershell.exe"
    );
    assert_eq!(
        powershell_executable_path(&Some(r"\\?\D:\\W\".to_string())).display(PathStyle::Windows),
        r"\\?\D:\W\System32\WindowsPowerShell\v1.0\powershell.exe"
    );
    assert_eq!(
        [
            NetworkRuleMode::Untouched.as_int(),
            NetworkRuleMode::BlockAll.as_int(),
            NetworkRuleMode::OutboundOnly.as_int(),
            NetworkRuleMode::Bidirectional.as_int()
        ],
        [0, 1, 2, 3]
    );
}

#[test]
fn tasks_are_listed_denials_first() {
    let plan = AclPlan {
        deny_access_paths: vec![path("a")],
        allow_readonly_paths: vec![path("b")],
        allow_readwrite_paths: vec![path("c"), SandboxPath::from_bytes(vec![0xed, 0xa0, 0x80])],
        deny_write_paths: vec![path("d")],
    };
    assert_eq!(
        serialize_acl_spec(&plan),
        "dn\ta\ndw\td\nro\tb\nrw\tc\nrw\t\u{fffd}\n"
    );
    let nothing = AclPlan {
        deny_access_paths: vec![],
        allow_readonly_paths: vec![],
        allow_readwrite_paths: vec![],
        deny_write_paths: vec![],
    };
    assert_eq!(serialize_acl_spec(&nothing), "");
}

#[test]
fn signals_are_read() {
    assert_eq!(parse_ready_signal(" \n"), ReadySignal::Pending);
    assert_eq!(parse_ready_signal(" Ok\r\n"), ReadySignal::Ready);
    assert_eq!(
        parse_ready_signal("error: it broke \n"),
        ReadySignal::Error("it broke".to_string())
    );
    assert_eq!(
        parse_ready_signal("what"),
        ReadySignal::Error("what".to_string())
    );
    assert_eq!(
        parse_ready_signal("Error: x"),
        ReadySignal::Error("Error: x".to_string())
    );
    for kind in [IoFailureKind::NotFound, IoFailureKind::PermissionDenied] {
        assert!(matches!(
            unread_ready_signal(&failure(kind, None), false),
            Ok(ReadySignal::Pending)
        ));
    }
    assert!(matches!(
        unread_ready_signal(&failure(IoFailureKind::Other, Some(32)), true),
        Ok(ReadySignal::Pending)
    ));
    assert!(matches!(
        unread_ready_signal(&failure(IoFailureKind::Other, Some(32)), false),
        Err(SandboxError::Io(_))
    ));
}

#[test]
fn progress_is_shown_from_its_end() {
    assert_eq!(progress_tail("a\r\n\n b\nc", 2), " b || c");
    assert_eq!(progress_tail("a\nb", 20), "a || b");
    assert_eq!(progress_tail(" \n\t\n", 20), "(no progress lines)");
    assert_eq!(progress_tail("a\rb\n", 1), "a\rb");
    assert_eq!(
        unread_progress(&failure(IoFailureKind::NotFound, None)),
        "(progress file missing)"
    );
    assert_eq!(
        unread_progress(&failure(IoFailureKind::Other, None)),
        "(failed to read progress file: why)"
    );
}

#[test]
fn helpers_are_waited_for() {
    let status = |signal, exit_code, elapsed_ms| HelperStatus {
        signal,
        exit_code,
        elapsed_ms,
        progress: "tail".to_string(),
        workspace: path(r"C:\w"),
    };
    let failed = |action| match action {
        HelperAction::Fail(SandboxError::Denied(message)) => message,
        other => panic!("unexpected {other:?}"),
    };
    let setup = HelperPhase::Setup;
    assert!(matches!(
        helper_action(setup, &status(ReadySignal::Pending, None, 19_999)),
        HelperAction::Sleep(100)
    ));
    assert!(matches!(
        helper_action(setup, &status(ReadySignal::Ready, Some(1), 99_999)),
        HelperAction::Proceed
    ));
    assert_eq!(
        failed(helper_action(setup, &status(ReadySignal::Pending, None, 20_000))),
        r"automatic administrator elevated-ops helper timed out before readiness (workspace: C:\w, last progress: tail)"
    );
    assert_eq!(
        failed(helper_action(setup, &status(ReadySignal::Pending, Some(3), 0))),
        r"automatic administrator elevated-ops helper exited before initialization (exit code 3, workspace: C:\w, last progress: tail)"
    );
    assert_eq!(
        failed(helper_action(
            setup,
            &status(ReadySignal::Error("e".to_string()), Some(3), 0)
        )),
        "automatic administrator elevated-ops initialization failed: e; last progress: tail"
    );
    let loopback = HelperPhase::LoopbackServer;
    assert_eq!(
        failed(helper_action(loopback, &status(ReadySignal::Pending, None, 5_000))),
        r"automatic administrator loopback-server helper timed out before readiness (workspace: C:\w, last progress: tail)"
    );
    assert_eq!(
        failed(helper_action(loopback, &status(ReadySignal::Pending, Some(1), 0))),
        r"automatic administrator elevated-ops helper exited before loopback-server readiness (exit code 1, workspace: C:\w, last progress: tail)"
    );
    assert_eq!(
        failed(helper_action(
            loopback,
            &status(ReadySignal::Error("e".to_string()), None, 0)
        )),
        "automatic administrator loopback-server initialization failed: e; last progress: tail"
    );
    let firewall = HelperPhase::Firewall;
    assert_eq!(
        failed(helper_action(firewall, &status(ReadySignal::Pending, None, 20_000))),
        r"automatic administrator elevation helper timed out before readiness (workspace: C:\w)"
    );
    assert_eq!(
        failed(helper_action(firewall, &status(ReadySignal::Pending, Some(9), 0))),
        r"automatic administrator elevation helper exited before initialization (exit code 9, workspace: C:\w)"
    );
    assert_eq!(
        failed(helper_action(
            firewall,
            &status(ReadySignal::Error("e".to_string()), None, 0)
        )),
        "automatic administrator elevation helper initialization failed: e"
    );
    assert_eq!(stop_action(Some(true)), StopAction::Nothing);
    assert_eq!(stop_action(Some(false)), StopAction::TerminateAndWait);
    assert_eq!(stop_action(None), StopAction::Terminate);
    assert_eq!(
        launch_error(ERROR_CANCELLED as i32, "x").message(),
        "sandbox denied execution: administrator elevation was cancelled by user"
    );
    assert_eq!(
        launch_error(2, "x").message(),
        "windows sandbox error: ShellExecuteExW(runas) failed: 2 (x)"
    );
}
