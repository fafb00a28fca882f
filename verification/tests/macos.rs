use procwarden::macos::{
    build_sbpl_profile, plan_macos_run, quote_sbpl_string, sandbox_exec_path,
    MACOS_SANDBOX_EXEC_ENV,
};
use procwarden::{
    SandboxDefaultAccess, SandboxError, SandboxNetworkPolicy, SandboxPath, SandboxPathPermission,
    SandboxPolicy,
};

fn profile_of(
    default_access: SandboxDefaultAccess,
    network_policy: SandboxNetworkPolicy,
    path_permissions: Vec<SandboxPathPermission>,
) -> String {
    build_sbpl_profile(&SandboxPolicy {
        default_access,
        network_policy,
        path_permissions,
    })
    .expect("the policy should have a profile")
}

fn assert_line_before(profile: &str, earlier: &str, later: &str) {
    let earlier_index = profile
        .find(earlier)
        .unwrap_or_else(|| panic!("missing earlier line: {earlier}"));
    let later_index = profile
        .find(later)
        .unwrap_or_else(|| panic!("missing later line: {later}"));
    assert!(
        earlier_index < later_index,
        "expected `{earlier}` before `{later}` in profile:\n{profile}"
    );
}

#[test]
fn read_only_profile_denies_writes_before_write_carveouts() {
    let writable = "/private/tmp/procwarden/rw";
    let profile = profile_of(
        SandboxDefaultAccess::ReadOnly,
        SandboxNetworkPolicy::disabled(),
        vec![SandboxPathPermission::read_write(writable)],
    );

    assert_line_before(
        &profile,
        "(deny file-write*)",
        &format!("(allow file-write* (literal \"{writable}\"))"),
    );
}

#[test]
fn read_only_profile_emits_global_write_deny_without_global_read_deny() {
    let writable = "/private/tmp/procwarden/rw";
    let profile = profile_of(
        SandboxDefaultAccess::ReadOnly,
        SandboxNetworkPolicy::disabled(),
        vec![SandboxPathPermission::read_write(writable)],
    );

    assert!(
        !profile.contains("(deny file-read*)"),
        "read-only default should not emit a global read deny"
    );
    assert_line_before(
        &profile,
        "(deny file-write*)",
        &format!("(allow file-write* (literal \"{writable}\"))"),
    );
}

#[test]
fn read_write_profile_emits_subtractive_overlays_only() {
    let read_only = "/private/tmp/procwarden/ro";
    let profile = profile_of(
        SandboxDefaultAccess::ReadWrite,
        SandboxNetworkPolicy::disabled(),
        vec![SandboxPathPermission::read_only(read_only)],
    );

    assert!(
        profile.contains(&format!("(deny file-write* (literal \"{read_only}\"))")),
        "read-write default should make read_only paths write-denied"
    );
    assert!(
        !profile.contains("(allow file-write*"),
        "read-write default should not need write allow carveouts"
    );
}

#[test]
fn deny_paths_emit_read_and_write_denies() {
    let denied = "/private/tmp/procwarden/deny";
    let profile = profile_of(
        SandboxDefaultAccess::ReadWrite,
        SandboxNetworkPolicy::disabled(),
        vec![SandboxPathPermission::deny(denied)],
    );

    assert!(
        profile.contains(&format!("(deny file-read* (literal \"{denied}\"))")),
        "deny paths should emit read deny rules"
    );
    assert!(
        profile.contains(&format!("(deny file-write* (literal \"{denied}\"))")),
        "deny paths should emit write deny rules"
    );
}

#[test]
fn deny_rules_follow_write_carveouts_in_readonly_profiles() {
    let writable = "/private/tmp/procwarden/rw";
    let denied = "/private/tmp/procwarden/rw/blocked";
    let profile = profile_of(
        SandboxDefaultAccess::ReadOnly,
        SandboxNetworkPolicy::disabled(),
        vec![
            SandboxPathPermission::read_write(writable),
            SandboxPathPermission::deny(denied),
        ],
    );

    assert_line_before(
        &profile,
        &format!("(allow file-write* (literal \"{writable}\"))"),
        &format!("(deny file-write* (literal \"{denied}\"))"),
    );
}

#[test]
fn profile_contains_network_deny_when_disabled() {
    let profile = build_sbpl_profile(&SandboxPolicy {
        network_policy: SandboxNetworkPolicy::disabled(),
        ..SandboxPolicy::default()
    })
    .expect("the policy should have a profile");

    assert!(profile.contains("(deny network*)"));
}

#[test]
fn custom_network_policy_is_rejected_on_macos() {
    let result = plan_macos_run(
        &vec!["/usr/bin/true".to_string()],
        &SandboxPolicy {
            default_access: SandboxDefaultAccess::ReadOnly,
            network_policy: SandboxNetworkPolicy {
                allow_unix: true,
                allow_ipv4: true,
                allow_ipv6: false,
                allow_connect: false,
                allow_bind: false,
                allow_listen: false,
                allow_accept: false,
            },
            path_permissions: vec![SandboxPathPermission::read_write("/f/runtime-cwd")],
        },
        &None,
        true,
    );

    match result {
        Err(SandboxError::Unavailable(message)) => {
            assert!(
                message.contains("only supports SandboxNetworkPolicy::disabled(), ::outbound_only(), or ::bidirectional()"),
                "unexpected macOS unavailable message: {message}"
            );
        }
        other => panic!("expected macOS custom policy to fail closed, got {other:?}"),
    }
}

#[test]
fn execute_fails_closed_when_sandbox_executable_is_missing() {
    let result = plan_macos_run(
        &vec!["true".to_string()],
        &SandboxPolicy::default(),
        &Some("/definitely/not/installed/sandbox-exec".to_string()),
        false,
    );
    let message = match result {
        Err(SandboxError::Unavailable(message)) => message,
        other => panic!("expected unavailable error, got {other:?}"),
    };
    assert!(message.contains(MACOS_SANDBOX_EXEC_ENV));
    assert_eq!(
        message,
        "macOS sandbox executable not found at /definitely/not/installed/sandbox-exec; set PROCWARDEN_MACOS_SANDBOX_EXEC to override the path"
    );
}

#[test]
fn a_whole_profile_is_as_expected() {
    let profile = profile_of(
        SandboxDefaultAccess::ReadOnly,
        SandboxNetworkPolicy::outbound_only(),
        vec![
            SandboxPathPermission::deny("/d"),
            SandboxPathPermission::read_write("/w"),
            SandboxPathPermission::read_only("/r"),
        ],
    );
    assert_eq!(
        profile,
        "(version 1)\n\
         (allow default)\n\
         (deny network-bind)\n\
         (deny network-inbound)\n\
         (deny file-write*)\n\
         (allow file-write* (literal \"/w\"))\n\
         (allow file-write* (subpath \"/w\"))\n\
         (deny file-read* (literal \"/d\"))\n\
         (deny file-read* (subpath \"/d\"))\n\
         (deny file-write* (literal \"/d\"))\n\
         (deny file-write* (subpath \"/d\"))"
    );
    let open = profile_of(
        SandboxDefaultAccess::ReadWrite,
        SandboxNetworkPolicy::bidirectional(),
        vec![],
    );
    assert_eq!(open, "(version 1)\n(allow default)");
}

#[test]
fn quotation_marks_and_backslashes_are_escaped() {
    assert_eq!(
        quote_sbpl_string(&SandboxPath::from_text("/a\"b\\c")),
        "\"/a\\\"b\\\\c\""
    );
    assert_eq!(quote_sbpl_string(&SandboxPath::from_text("")), "\"\"");
}

#[test]
fn malformed_path_bytes_are_shown_as_replacement_characters() {
    let path = SandboxPath::from_bytes(vec![b'/', b'a', 0xff, b'b']);
    assert_eq!(quote_sbpl_string(&path), "\"/a\u{fffd}b\"");
}

#[test]
fn the_sandbox_program_can_be_named_by_the_environment() {
    assert_eq!(sandbox_exec_path(&None), "/usr/bin/sandbox-exec");
    assert_eq!(
        sandbox_exec_path(&Some(" \t".to_string())),
        "/usr/bin/sandbox-exec"
    );
    assert_eq!(sandbox_exec_path(&Some("/opt/s".to_string())), "/opt/s");
}

#[test]
fn the_command_follows_the_profile() {
    let argv = plan_macos_run(
        &vec!["echo".to_string(), "a b".to_string()],
        &SandboxPolicy {
            default_access: SandboxDefaultAccess::ReadWrite,
            network_policy: SandboxNetworkPolicy::bidirectional(),
            path_permissions: vec![],
        },
        &None,
        true,
    )
    .expect("the run should be planned");
    assert_eq!(
        argv,
        vec![
            "/usr/bin/sandbox-exec",
            "-p",
            "(version 1)\n(allow default)",
            "--",
            "echo",
            "a b"
        ]
    );
}
