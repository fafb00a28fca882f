use procwarden::env::{sanitize_env_vars, starts_with_ascii_case_insensitive};
use procwarden::manager::sanitize_policy_for_execution;
use procwarden::{
    EnvMap, PathProbe, PathStyle, SandboxCommandRequest, SandboxDefaultAccess, SandboxError,
    SandboxManager, SandboxNetworkPolicy, SandboxPath, SandboxPathPermission, SandboxPolicy,
};

fn found(path: &str) -> PathProbe {
    PathProbe::Resolved {
        canonical: SandboxPath::from_text(path),
        is_dir: true,
    }
}

fn env(pairs: &[(&str, &str)]) -> EnvMap {
    let mut env = EnvMap::new();
    for (key, value) in pairs {
        env.insert(key.to_string(), value.to_string());
    }
    env
}

fn request(command: &[&str], cwd: &str) -> SandboxCommandRequest {
    SandboxCommandRequest {
        command: command.iter().map(|token| token.to_string()).collect(),
        cwd: SandboxPath::from_text(cwd),
        env: EnvMap::new(),
        timeout_ms: Some(100),
    }
}

fn policy(
    default_access: SandboxDefaultAccess,
    path_permissions: Vec<SandboxPathPermission>,
) -> SandboxPolicy {
    SandboxPolicy {
        default_access,
        network_policy: SandboxNetworkPolicy::disabled(),
        path_permissions,
    }
}

fn invalid_request(error: SandboxError) -> String {
    match error {
        SandboxError::InvalidRequest(message) => message,
        other => panic!("expected InvalidRequest, got {other:?}"),
    }
}

#[test]
fn policy_paths_are_canonicalized_and_deduped_before_dispatch() {
    let sanitized = sanitize_policy_for_execution(
        PathStyle::Unix,
        &policy(
            SandboxDefaultAccess::ReadOnly,
            vec![
                SandboxPathPermission::read_write("/tmp/canonicalize-policy-paths/real/../real"),
                SandboxPathPermission::read_write("/tmp/canonicalize-policy-paths/real"),
            ],
        ),
        &vec![
            found("/tmp/canonicalize-policy-paths/real"),
            found("/tmp/canonicalize-policy-paths/real"),
        ],
    )
    .expect("policy should sanitize successfully");

    assert_eq!(
        sanitized.path_permissions,
        vec![SandboxPathPermission::read_write(
            "/tmp/canonicalize-policy-paths/real"
        )]
    );
}

#[test]
fn missing_policy_paths_fail_frontloaded_validation() {
    let missing_path = "/tmp/missing-policy-path/missing";
    let error = sanitize_policy_for_execution(
        PathStyle::Unix,
        &policy(
            SandboxDefaultAccess::ReadWrite,
            vec![SandboxPathPermission::read_only(missing_path)],
        ),
        &vec![PathProbe::Missing],
    )
    .expect_err("missing path should fail validation");

    let message = invalid_request(error);
    assert!(message.contains("read_only path does not exist"));
    assert!(message.contains(missing_path));
}

#[test]
fn default_readonly_redundant_entries_are_removed_before_dispatch() {
    let sanitized = sanitize_policy_for_execution(
        PathStyle::Unix,
        &policy(
            SandboxDefaultAccess::ReadOnly,
            vec![
                SandboxPathPermission::read_only("/t/root"),
                SandboxPathPermission::read_write("/t/root"),
                SandboxPathPermission::read_write("/t/root/child"),
            ],
        ),
        &vec![found("/t/root"), found("/t/root"), found("/t/root/child")],
    )
    .expect("policy should sanitize successfully");

    assert_eq!(
        sanitized.path_permissions,
        vec![SandboxPathPermission::read_write("/t/root")]
    );
}

#[test]
fn default_readwrite_redundant_entries_are_removed_before_dispatch() {
    let sanitized = sanitize_policy_for_execution(
        PathStyle::Unix,
        &policy(
            SandboxDefaultAccess::ReadWrite,
            vec![
                SandboxPathPermission::read_write("/t/root"),
                SandboxPathPermission::read_only("/t/root"),
                SandboxPathPermission::read_only("/t/root/child"),
            ],
        ),
        &vec![found("/t/root"), found("/t/root"), found("/t/root/child")],
    )
    .expect("policy should sanitize successfully");

    assert_eq!(
        sanitized.path_permissions,
        vec![SandboxPathPermission::read_only("/t/root")]
    );
}

#[test]
fn conflicting_same_path_entries_collapse_to_effective_overlay_before_dispatch() {
    let sanitized = sanitize_policy_for_execution(
        PathStyle::Unix,
        &policy(
            SandboxDefaultAccess::ReadWrite,
            vec![
                SandboxPathPermission::read_only("/t/target"),
                SandboxPathPermission::read_write("/t/target"),
            ],
        ),
        &vec![found("/t/target"), found("/t/target")],
    )
    .expect("policy should sanitize successfully");

    assert_eq!(
        sanitized.path_permissions,
        vec![SandboxPathPermission::read_only("/t/target")]
    );
}

#[test]
fn deny_wins_same_path_conflicts_before_dispatch() {
    let sanitized = sanitize_policy_for_execution(
        PathStyle::Unix,
        &policy(
            SandboxDefaultAccess::ReadOnly,
            vec![
                SandboxPathPermission::read_write("/t/target"),
                SandboxPathPermission::deny("/t/target"),
            ],
        ),
        &vec![found("/t/target"), found("/t/target")],
    )
    .expect("policy should sanitize successfully");

    assert_eq!(
        sanitized.path_permissions,
        vec![SandboxPathPermission::deny("/t/target")]
    );
}

#[test]
fn deny_descendants_are_retained_as_more_restrictive_overlays() {
    let sanitized = sanitize_policy_for_execution(
        PathStyle::Unix,
        &policy(
            SandboxDefaultAccess::ReadWrite,
            vec![
                SandboxPathPermission::read_only("/t/root"),
                SandboxPathPermission::deny("/t/root/child"),
            ],
        ),
        &vec![found("/t/root"), found("/t/root/child")],
    )
    .expect("policy should sanitize successfully");

    assert_eq!(
        sanitized.path_permissions,
        vec![
            SandboxPathPermission::read_only("/t/root"),
            SandboxPathPermission::deny("/t/root/child"),
        ]
    );
}

#[test]
fn reopening_inside_deny_fails_closed_before_dispatch() {
    let error = sanitize_policy_for_execution(
        PathStyle::Unix,
        &policy(
            SandboxDefaultAccess::ReadOnly,
            vec![
                SandboxPathPermission::deny("/t/root"),
                SandboxPathPermission::read_write("/t/root/child"),
            ],
        ),
        &vec![found("/t/root"), found("/t/root/child")],
    )
    .expect_err("reopening inside deny should fail");

    let message = invalid_request(error);
    assert!(message.contains("read_write path cannot reopen access under deny ancestor"));
    assert_eq!(
        message,
        "read_write path cannot reopen access under deny ancestor /t/root: /t/root/child"
    );
}

#[test]
fn rejects_empty_command_vector() {
    let error = SandboxManager::new()
        .execute(
            PathStyle::Unix,
            &request(&[], "/work"),
            &SandboxPolicy::default(),
            &found("/work"),
            &vec![],
        )
        .expect_err("empty command should be rejected");
    assert!(matches!(error, SandboxError::InvalidRequest(_)));
    assert_eq!(
        error.message(),
        "invalid sandbox request: command must contain at least one token"
    );
}

#[test]
fn rejects_blank_executable_token() {
    let error = SandboxManager::new()
        .execute(
            PathStyle::Unix,
            &request(&["   "], "/work"),
            &SandboxPolicy::default(),
            &found("/work"),
            &vec![],
        )
        .expect_err("blank executable should be rejected");
    assert!(matches!(error, SandboxError::InvalidRequest(_)));
    assert_eq!(
        invalid_request(error),
        "command executable must not be empty"
    );
}

#[test]
fn rejects_nonexistent_cwd_before_platform_dispatch() {
    let error = SandboxManager::new()
        .execute(
            PathStyle::Unix,
            &request(
                &["echo", "ok"],
                "/work/definitely-missing-cwd-for-procwarden-tests",
            ),
            &SandboxPolicy::default(),
            &PathProbe::Missing,
            &vec![],
        )
        .expect_err("missing cwd should be rejected");
    assert!(matches!(error, SandboxError::InvalidRequest(_)));
    assert_eq!(
        invalid_request(error),
        "sandbox cwd does not exist: /work/definitely-missing-cwd-for-procwarden-tests"
    );
}

#[test]
fn rejects_nonexistent_allow_path_before_platform_dispatch() {
    let error = SandboxManager::new()
        .execute(
            PathStyle::Unix,
            &request(&["definitely-not-executed"], "/work"),
            &SandboxPolicy {
                path_permissions: vec![SandboxPathPermission::read_write(
                    "/work/definitely-missing-allow-path-for-procwarden-tests",
                )],
                ..SandboxPolicy::default()
            },
            &found("/work"),
            &vec![PathProbe::Missing],
        )
        .expect_err("missing allow path should be rejected");
    let message = invalid_request(error);
    assert!(message.contains("allow path does not exist"));
    assert!(message.contains("definitely-missing-allow-path-for-procwarden-tests"));
}

#[test]
fn rejects_empty_allow_path_before_platform_dispatch() {
    let error = SandboxManager::new()
        .execute(
            PathStyle::Unix,
            &request(&["definitely-not-executed"], "/work"),
            &SandboxPolicy {
                path_permissions: vec![SandboxPathPermission::read_only("")],
                ..SandboxPolicy::default()
            },
            &found("/work"),
            &vec![found("/work")],
        )
        .expect_err("empty allow path should be rejected");
    let message = invalid_request(error);
    assert!(message.contains("allow path must not be empty"));
    assert!(message.starts_with("read_only path must not be empty"));
}

#[test]
fn linux_overlay_backed_readonly_paths_require_existing_targets() {
    let error = SandboxManager::new()
        .execute(
            PathStyle::Unix,
            &request(&["/bin/sh", "-c", "exit 0"], "/f/runtime-cwd"),
            &policy(
                SandboxDefaultAccess::ReadWrite,
                vec![
                    SandboxPathPermission::read_write("/f/runtime-cwd"),
                    SandboxPathPermission::read_only("/f/readonly/future-readonly.txt"),
                ],
            ),
            &found("/f/runtime-cwd"),
            &vec![found("/f/runtime-cwd"), PathProbe::Missing],
        )
        .expect_err("a missing read-only path should be rejected");
    assert!(invalid_request(error).contains("read_only path does not exist"));
}

#[test]
fn strips_loader_and_shell_injection_env_when_sandboxed() {
    let sanitized = sanitize_env_vars(&env(&[
        ("PATH", "/usr/bin"),
        ("LD_PRELOAD", "evil.so"),
        ("DYLD_INSERT_LIBRARIES", "evil.dylib"),
        ("BASH_ENV", "/tmp/rc"),
    ]));

    assert!(sanitized.contains_key("PATH"));
    assert!(!sanitized.contains_key("LD_PRELOAD"));
    assert!(!sanitized.contains_key("DYLD_INSERT_LIBRARIES"));
    assert!(!sanitized.contains_key("BASH_ENV"));
}

#[test]
fn strips_blocked_prefixes_case_insensitively() {
    let sanitized = sanitize_env_vars(&env(&[
        ("dyld_insert_libraries", "evil.dylib"),
        ("Ld_PreLoAd", "evil.so"),
        ("BaSh_FuNc_x", "() { :; }"),
        ("SAFE_VAR", "1"),
    ]));

    assert!(!sanitized.contains_key("dyld_insert_libraries"));
    assert!(!sanitized.contains_key("Ld_PreLoAd"));
    assert!(!sanitized.contains_key("BaSh_FuNc_x"));
    assert_eq!(sanitized.get("SAFE_VAR"), Some("1".to_string()));
}

#[test]
fn request_sanitization_preserves_non_env_fields() {
    let request = SandboxCommandRequest {
        command: vec!["echo".to_string(), "hello".to_string()],
        cwd: SandboxPath::from_text("/tmp"),
        env: env(&[("PATH", "/usr/bin"), ("LD_PRELOAD", "evil.so")]),
        timeout_ms: Some(1234),
    };

    let sanitized = request
        .sanitized_for_execution(PathStyle::Unix, &found("/tmp"))
        .expect("request should sanitize");
    assert_eq!(sanitized.command, request.command);
    assert_eq!(sanitized.cwd, request.cwd);
    assert_eq!(sanitized.timeout_ms, request.timeout_ms);
    assert_eq!(sanitized.env.get("PATH"), Some("/usr/bin".to_string()));
    assert!(!sanitized.env.contains_key("LD_PRELOAD"));
}

#[test]
fn blocks_exact_loader_keys_case_insensitively() {
    let sanitized = sanitize_env_vars(&env(&[
        ("ld_library_path", "/tmp/lib"),
        ("Ld_AuDiT", "evil.so"),
    ]));

    assert!(!sanitized.contains_key("ld_library_path"));
    assert!(!sanitized.contains_key("Ld_AuDiT"));
}

#[test]
fn prefix_check_rejects_shorter_candidate_without_panicking() {
    assert!(!starts_with_ascii_case_insensitive("LD", "LD_PRE"));
    assert!(starts_with_ascii_case_insensitive("DyLd_Value", "DYLD_"));
}

#[test]
fn data_driven_blocked_keys_and_prefixes_are_removed() {
    let blocked_keys = [
        "LD_PRELOAD",
        "ld_library_path",
        "Ld_AuDiT",
        "DYLD_INSERT_LIBRARIES",
        "dyld_anything",
        "BASH_FUNC_payload",
        "bash_func_payload",
        "ENV",
        "bash_env",
    ];

    for blocked in blocked_keys {
        let sanitized = sanitize_env_vars(&env(&[(blocked, "evil"), ("SAFE_KEY", "ok")]));
        assert!(
            !sanitized.contains_key(blocked),
            "blocked key should be removed: {blocked}"
        );
        assert_eq!(sanitized.get("SAFE_KEY"), Some("ok".to_string()));
    }
}

#[test]
fn prefix_check_handles_text_outside_ascii() {
    assert!(!starts_with_ascii_case_insensitive("LÐ_X", "LD_"));
    assert!(!starts_with_ascii_case_insensitive("é", "LD_"));
    assert!(starts_with_ascii_case_insensitive("ld_é", "LD_"));
    assert!(starts_with_ascii_case_insensitive("anything", ""));
}

#[test]
fn sanitizing_an_environment_keeps_the_rest_and_is_idempotent() {
    let source = env(&[
        ("ENVIRONMENT", "kept"),
        ("LDX", "kept too"),
        ("Env", "dropped"),
        ("LD_X", "dropped"),
    ]);
    let once = sanitize_env_vars(&source);
    let twice = sanitize_env_vars(&once);
    assert_eq!(once.len(), 2);
    assert_eq!(once.get("ENVIRONMENT"), Some("kept".to_string()));
    assert_eq!(once.get("LDX"), Some("kept too".to_string()));
    assert_eq!(twice.len(), 2);
    assert_eq!(twice.get("LDX"), Some("kept too".to_string()));
    assert_eq!(source.len(), 4);
}

#[test]
fn environment_entries_replace_and_disappear() {
    let mut e = env(&[("A", "1"), ("B", "2"), ("A", "3")]);
    assert_eq!(e.len(), 2);
    assert_eq!(e.get("A"), Some("3".to_string()));
    e.remove("A");
    assert!(!e.contains_key("A"));
    assert_eq!(e.get("B"), Some("2".to_string()));
    e.remove("missing");
    assert_eq!(e.len(), 1);
    assert_eq!(e.entries().len(), 1);
}

#[test]
fn unresolvable_and_non_directory_paths_are_named() {
    let request = request(&["echo"], "/work/file");
    let broken = request
        .validate(PathStyle::Unix, &PathProbe::Unresolvable("loop".to_string()))
        .expect_err("an unresolvable directory should be rejected");
    assert_eq!(
        invalid_request(broken),
        "sandbox cwd cannot be canonicalized: /work/file: loop"
    );
    let file = request
        .validate(
            PathStyle::Unix,
            &PathProbe::Resolved {
                canonical: SandboxPath::from_text("/work/file"),
                is_dir: false,
            },
        )
        .expect_err("a file should be rejected");
    assert_eq!(
        invalid_request(file),
        "sandbox cwd is not a directory: /work/file"
    );
    assert_eq!(request.validate(PathStyle::Unix, &found("/work/file")), Ok(()));
}

#[test]
fn a_bad_command_is_reported_before_a_bad_directory() {
    let error = request(&[], "/missing")
        .validate(PathStyle::Unix, &PathProbe::Missing)
        .expect_err("the request should be rejected");
    assert_eq!(
        invalid_request(error),
        "command must contain at least one token"
    );
}

#[test]
fn a_missing_denied_path_is_not_called_an_allow_path() {
    let error = sanitize_policy_for_execution(
        PathStyle::Unix,
        &policy(
            SandboxDefaultAccess::ReadOnly,
            vec![SandboxPathPermission::deny("/gone")],
        ),
        &vec![PathProbe::Missing],
    )
    .expect_err("a missing path should be rejected");
    assert_eq!(
        invalid_request(error),
        "deny path does not exist: /gone"
    );
}

#[test]
fn the_first_bad_rule_is_reported() {
    let error = sanitize_policy_for_execution(
        PathStyle::Unix,
        &policy(
            SandboxDefaultAccess::ReadOnly,
            vec![
                SandboxPathPermission::read_write("/ok"),
                SandboxPathPermission::deny(""),
                SandboxPathPermission::deny("/gone"),
            ],
        ),
        &vec![found("/ok"), PathProbe::Missing, PathProbe::Missing],
    )
    .expect_err("an empty path should be rejected");
    assert_eq!(invalid_request(error), "deny path must not be empty");
}

#[test]
fn enforced_rules_are_ordered_and_stable() {
    let source = policy(
        SandboxDefaultAccess::ReadOnly,
        vec![
            SandboxPathPermission::deny("/b/x/y"),
            SandboxPathPermission::read_write("/b/x"),
            SandboxPathPermission::read_write("/a/z"),
            SandboxPathPermission::read_only("/c"),
            SandboxPathPermission::deny("/a"),
            SandboxPathPermission::deny("/b/x/y/z"),
        ],
    );
    let probes = |p: &SandboxPolicy| -> Vec<PathProbe> {
        p.path_permissions
            .iter()
            .map(|rule| PathProbe::Resolved {
                canonical: rule.path.clone(),
                is_dir: true,
            })
            .collect()
    };
    let error = sanitize_policy_for_execution(PathStyle::Unix, &source, &probes(&source))
        .expect_err("a rule below a denied path should be rejected");
    assert_eq!(
        invalid_request(error),
        "read_write path cannot reopen access under deny ancestor /a: /a/z"
    );

    let mut accepted = source.clone();
    accepted.path_permissions.remove(2);
    let enforced = sanitize_policy_for_execution(PathStyle::Unix, &accepted, &probes(&accepted))
        .expect("the other rules should be accepted");
    assert_eq!(
        enforced.path_permissions,
        vec![
            SandboxPathPermission::deny("/a"),
            SandboxPathPermission::read_write("/b/x"),
            SandboxPathPermission::deny("/b/x/y"),
        ]
    );
    let again = sanitize_policy_for_execution(PathStyle::Unix, &enforced, &probes(&enforced))
        .expect("enforced rules should be accepted");
    assert_eq!(again, enforced);
}

#[test]
fn windows_paths_lose_their_verbatim_prefix_and_ignore_case() {
    let enforced = sanitize_policy_for_execution(
        PathStyle::Windows,
        &policy(
            SandboxDefaultAccess::ReadOnly,
            vec![
                SandboxPathPermission::read_write(r"C:\Work"),
                SandboxPathPermission::read_write(r"C:\WORK\Sub"),
            ],
        ),
        &vec![found(r"\\?\C:\Work"), found(r"\\?\C:\WORK\Sub")],
    )
    .expect("policy should sanitize successfully");
    assert_eq!(
        enforced.path_permissions,
        vec![SandboxPathPermission::read_write(r"C:\Work")]
    );
}

#[test]
fn errors_have_texts() {
    let text = "x".to_string();
    assert_eq!(
        SandboxError::Denied(text.clone()).message(),
        "sandbox denied execution: x"
    );
    assert_eq!(
        SandboxError::AuditFailed(text.clone()).message(),
        "sandbox audit failed: x"
    );
    assert_eq!(
        SandboxError::Unavailable(text.clone()).message(),
        "sandbox is unavailable on this platform: x"
    );
    assert_eq!(
        SandboxError::Windows(text.clone()).message(),
        "windows sandbox error: x"
    );
    assert_eq!(
        SandboxError::Io(procwarden::error::IoFailure {
            kind: procwarden::error::IoFailureKind::Other,
            raw_os_error: None,
            message: text,
        })
        .message(),
        "io error: x"
    );
}

#[test]
fn environments_are_equal_however_they_were_set() {
    let one = env(&[("B", "2"), ("A", "1"), ("a", "3")]);
    let mut other = env(&[("a", "x"), ("C", "9"), ("A", "1"), ("B", "2")]);
    assert_ne!(one, other);
    other.remove("C");
    other.insert("a".to_string(), "3".to_string());
    assert_eq!(one, other);
    let names: Vec<String> = other.entries().iter().map(|entry| entry.key.clone()).collect();
    assert_eq!(names, vec!["A", "B", "a"]);

    let with = |env| SandboxCommandRequest {
        env,
        ..request(&["x"], "/")
    };
    assert_eq!(with(one), with(other));
}
