use procwarden::error::{IoFailure, IoFailureKind};
use procwarden::windows::access::{
    collect_acl_plan, command_argument_candidates, default_access_scope_paths,
    ensure_safe_allow_path, filter_paths_not_under_roots, is_path_argument,
    looks_like_filesystem_path, materialize_path_candidate, resolve_acl_conflicts,
    runtime_bootstrap_readonly_paths, single_quoted_segments, AclPlan, AllowProbe, CandidateProbe,
};
use procwarden::windows::acl::{
    access_steps, ace_request, following_call, AceCall, AceKind, AclRollback, DENY_ACCESS,
    INHERIT_BELOW, READ_ONLY_ALLOW_MASK, READ_WRITE_ALLOW_MASK, REVOKE_ACCESS, SET_ACCESS,
    WRITE_MASK,
};
use procwarden::windows::audit::{
    allows_writing, audit_goes_on, audit_outcome, gather_candidates, unreadable_list, AUDIT_CHECK_LIMIT,
    AUDIT_TIME_LIMIT_NS,
};
use procwarden::windows::elevated::NetworkRuleMode;
use procwarden::windows::plan::{
    setup_course, validate_policy_shape, wants_loopback_server, SetupCourse,
};
use procwarden::policy::SandboxCoarseNetworkPolicy;
use procwarden::{
    EnvMap, SandboxDefaultAccess, SandboxError, SandboxNetworkPolicy, SandboxPath,
    SandboxPathPermission, SandboxPolicy,
};
use windows_sys::Win32::Storage::FileSystem::{
    FILE_GENERIC_EXECUTE, FILE_GENERIC_READ, FILE_GENERIC_WRITE,
};

fn path(text: &str) -> SandboxPath {
    SandboxPath::from_text(text)
}

fn paths(texts: &[&str]) -> Vec<SandboxPath> {
    texts.iter().map(|text| path(text)).collect()
}

fn plan(deny: &[&str], readonly: &[&str], readwrite: &[&str], deny_write: &[&str]) -> AclPlan {
    AclPlan {
        deny_access_paths: paths(deny),
        allow_readonly_paths: paths(readonly),
        allow_readwrite_paths: paths(readwrite),
        deny_write_paths: paths(deny_write),
    }
}

#[test]
fn readwrite_default_readonly_roots_are_excluded_from_readwrite_scope() {
    let readonly_root = path(r"C:\Temp\Readonly");
    let readonly_child = path(r"C:\Temp\Readonly\child.txt");
    let outside = path(r"C:\Temp\Outside");

    let plan = collect_acl_plan(
        &SandboxPolicy {
            path_permissions: vec![SandboxPathPermission::read_only(readonly_root.clone())],
            default_access: SandboxDefaultAccess::ReadWrite,
            network_policy: SandboxNetworkPolicy::disabled(),
        },
        &vec![outside.clone(), readonly_root.clone(), readonly_child],
    );

    assert!(plan.deny_access_paths.is_empty());
    assert_eq!(plan.allow_readonly_paths, vec![readonly_root.clone()]);
    assert_eq!(plan.deny_write_paths, vec![readonly_root]);
    assert_eq!(plan.allow_readwrite_paths, vec![outside]);
}

#[test]
fn deny_roots_are_excluded_from_all_allow_scopes() {
    let denied_root = path(r"C:\Temp\Denied");
    let denied_child = path(r"C:\Temp\Denied\child.txt");
    let writable_root = path(r"C:\Temp\Writable");
    let outside = path(r"C:\Temp\Outside");

    let plan = collect_acl_plan(
        &SandboxPolicy {
            path_permissions: vec![
                SandboxPathPermission::deny(denied_root.clone()),
                SandboxPathPermission::read_write(writable_root.clone()),
            ],
            default_access: SandboxDefaultAccess::ReadOnly,
            network_policy: SandboxNetworkPolicy::disabled(),
        },
        &vec![outside.clone(), denied_root.clone(), denied_child],
    );

    assert_eq!(plan.deny_access_paths, vec![denied_root]);
    assert_eq!(plan.allow_readonly_paths, vec![outside]);
    assert_eq!(plan.allow_readwrite_paths, vec![writable_root]);
    assert!(plan.deny_write_paths.is_empty());
}

#[test]
fn readonly_root_filter_is_case_insensitive_and_descendant_aware() {
    let filtered = filter_paths_not_under_roots(
        &vec![
            path(r"c:\temp\readonly\child.txt"),
            path(r"C:\Temp\Other\child.txt"),
        ],
        &vec![path(r"C:\Temp\Readonly")],
    );

    assert_eq!(filtered, vec![path(r"C:\Temp\Other\child.txt")]);
}

#[test]
fn rollback_tracks_paths_for_future_revoke() {
    let mut rollback = AclRollback::new();
    rollback.track(path(r"C:\temp\one"));
    rollback.track(path(r"C:\temp\two"));
    assert_eq!(rollback.tracked_len(), 2);
    assert_eq!(rollback.paths, paths(&[r"C:\temp\one", r"C:\temp\two"]));
}

#[test]
fn a_read_write_grant_wins_over_the_weaker_entries_for_one_path() {
    let resolved = resolve_acl_conflicts(plan(
        &[r"C:\d"],
        &[r"C:\A", r"C:\b"],
        &[r"c:\a"],
        &[r"C:\a", r"C:\b"],
    ));
    assert_eq!(resolved, plan(&[r"C:\d"], &[r"C:\b"], &[r"c:\a"], &[r"C:\b"]));
}

#[test]
fn quoted_segments_are_found() {
    assert_eq!(
        single_quoted_segments(r"Get-Content 'C:\a' 'it''s' '' x'open"),
        vec![r"C:\a", "it's", "open"]
    );
    assert!(single_quoted_segments("no quotes").is_empty());
    assert_eq!(single_quoted_segments("''''"), vec!["'"]);
}

#[test]
fn some_arguments_look_like_paths() {
    for argument in ["/a", "./a", "../a", r".\a", r"..\a", r"a\b", "C:x", "::"] {
        assert!(looks_like_filesystem_path(argument), "{argument}");
    }
    for argument in ["", "a", "a/b", "-x", "..", "\u{e9}:"] {
        assert!(!looks_like_filesystem_path(argument), "{argument}");
    }
    assert_eq!(
        command_argument_candidates(r"type 'C:\a b' and 'plain' and C:\x"),
        vec![r"type 'C:\a b' and 'plain' and C:\x", r"C:\a b"]
    );
    assert_eq!(
        command_argument_candidates(r"cat ' \x' now"),
        vec![r"cat ' \x' now", r" \x"]
    );
    assert!(command_argument_candidates("   ").is_empty());
}

#[test]
fn candidates_are_paths_that_exist_or_their_parents() {
    let probe = |exists, parent: Option<&str>| CandidateProbe {
        absolute: path(r"C:\a\b"),
        exists,
        existing_parent: parent.map(path),
    };
    assert_eq!(
        materialize_path_candidate(&probe(true, None)),
        Some(path(r"C:\a\b"))
    );
    assert_eq!(
        materialize_path_candidate(&probe(false, Some(r"C:\a"))),
        Some(path(r"C:\a"))
    );
    assert_eq!(materialize_path_candidate(&probe(false, None)), None);
}

#[test]
fn the_scope_names_all_paths_of_a_run() {
    let policy = SandboxPolicy {
        path_permissions: vec![
            SandboxPathPermission::deny(r"C:\d"),
            SandboxPathPermission::read_write(r"C:\w"),
        ],
        ..SandboxPolicy::default()
    };
    assert_eq!(
        default_access_scope_paths(
            &path(r"C:\cwd"),
            &path(r"C:\bin\x.exe"),
            &Some(path(r"C:\bin")),
            &policy,
            &paths(&[r"C:\named"]),
        ),
        paths(&[
            r"C:\cwd",
            r"C:\bin\x.exe",
            r"C:\bin",
            r"C:\d",
            r"C:\w",
            r"C:\named"
        ])
    );
    assert_eq!(
        runtime_bootstrap_readonly_paths(
            &path(r"C:\cwd"),
            &path(r"C:\bin\x.exe"),
            &None,
            &Some(path(r"C:\s\run.py")),
            &Some(path(r"C:\s")),
        ),
        paths(&[r"C:\cwd", r"C:\bin\x.exe", r"C:\s\run.py", r"C:\s"])
    );
    assert!(is_path_argument(&path("x"), true));
    assert!(is_path_argument(&path(r"a\b"), false));
    assert!(!is_path_argument(&path("a"), false));
}

#[test]
fn allow_paths_have_to_exist() {
    match ensure_safe_allow_path(&path(r"C:\gone"), &AllowProbe::Missing) {
        Err(SandboxError::InvalidRequest(message)) => {
            assert_eq!(message, r"allow path does not exist: C:\gone")
        }
        other => panic!("unexpected {other:?}"),
    }
    let failure = || IoFailure {
        kind: IoFailureKind::PermissionDenied,
        raw_os_error: Some(5),
        message: "denied".to_string(),
    };
    match ensure_safe_allow_path(&path(r"C:\x"), &AllowProbe::Failed(failure())) {
        Err(SandboxError::Io(io)) => assert_eq!(io, failure()),
        other => panic!("unexpected {other:?}"),
    }
    match ensure_safe_allow_path(&path(r"C:\x"), &AllowProbe::Resolved(path(r"C:\y"))) {
        Ok(resolved) => assert_eq!(resolved, path(r"C:\y")),
        other => panic!("unexpected {other:?}"),
    }
}

#[test]
fn masks_are_those_of_the_file_system() {
    let read = FILE_GENERIC_READ;
    let write = FILE_GENERIC_WRITE;
    let execute = FILE_GENERIC_EXECUTE;
    assert_eq!(READ_ONLY_ALLOW_MASK, read | execute);
    assert_eq!(READ_WRITE_ALLOW_MASK, read | write | execute);
    assert_eq!(WRITE_MASK, write);

    let deny = ace_request(AceKind::DenyAccess);
    assert_eq!(
        (deny.permissions, deny.mode, deny.inheritance),
        (read | write | execute, DENY_ACCESS, INHERIT_BELOW)
    );
    let deny_write = ace_request(AceKind::DenyWrite);
    assert_eq!((deny_write.permissions, deny_write.mode), (write, DENY_ACCESS));
    let readonly = ace_request(AceKind::AllowReadOnly);
    assert_eq!((readonly.permissions, readonly.mode), (read | execute, SET_ACCESS));
    let readwrite = ace_request(AceKind::AllowReadWrite);
    assert_eq!(
        (readwrite.permissions, readwrite.mode),
        (read | write | execute, SET_ACCESS)
    );
    assert_eq!(ace_request(AceKind::Revoke).mode, REVOKE_ACCESS);
    assert_eq!(ace_request(AceKind::Revoke).permissions, 0);
    assert_eq!(
        ace_request(AceKind::NullDevice).permissions,
        read | write | execute
    );
}

#[test]
fn denials_come_before_grants() {
    let steps = access_steps(&plan(&["a"], &["b"], &["c"], &["d"]));
    let shown: Vec<(String, AceKind)> = steps
        .iter()
        .map(|step| (String::from_utf8_lossy(&step.path.bytes).to_string(), step.kind))
        .collect();
    assert_eq!(
        shown,
        vec![
            ("a".to_string(), AceKind::DenyAccess),
            ("d".to_string(), AceKind::DenyWrite),
            ("b".to_string(), AceKind::AllowReadOnly),
            ("c".to_string(), AceKind::AllowReadWrite),
        ]
    );
}

#[test]
fn failing_calls_are_reported_with_their_path() {
    let next = |call| match following_call(call, 0, &path(r"C:\x")) {
        Ok(next) => next,
        Err(error) => panic!("unexpected {error:?}"),
    };
    assert_eq!(next(AceCall::ReadList), Some(AceCall::AddEntry));
    assert_eq!(next(AceCall::AddEntry), Some(AceCall::WriteList));
    assert_eq!(next(AceCall::WriteList), None);
    for (call, expected) in [
        (
            AceCall::ReadList,
            r"GetNamedSecurityInfoW failed with code 5 for C:\x",
        ),
        (
            AceCall::AddEntry,
            r"SetEntriesInAclW failed with code 5 for C:\x",
        ),
        (
            AceCall::WriteList,
            r"SetNamedSecurityInfoW failed with code 5 for C:\x",
        ),
    ] {
        match following_call(call, 5, &path(r"C:\x")) {
            Err(SandboxError::Windows(message)) => assert_eq!(message, expected),
            other => panic!("unexpected {other:?}"),
        }
    }
}

#[test]
fn the_audit_looks_at_the_likely_directories() {
    let mut env = EnvMap::new();
    env.insert("PATH".to_string(), r"C:\p;;C:\q;c:\P".to_string());
    assert_eq!(
        gather_candidates(
            &paths(&[r"C:\allowed"]),
            &env,
            &path(r"C:\cwd"),
            &Some(r"C:\unused".to_string())
        ),
        paths(&[r"C:\allowed", r"C:\cwd", r"C:\p", r"C:\q"])
    );
    assert_eq!(
        gather_candidates(
            &vec![],
            &EnvMap::new(),
            &path(r"C:\cwd"),
            &Some(r" C:\CWD ; ;C:\z".to_string())
        ),
        paths(&[r"C:\cwd", r"C:\z"])
    );
}

#[test]
fn the_audit_is_bounded_and_fails_on_writable_directories() {
    assert!(audit_goes_on(0, 0));
    assert!(audit_goes_on(AUDIT_TIME_LIMIT_NS, AUDIT_CHECK_LIMIT));
    assert!(!audit_goes_on(AUDIT_TIME_LIMIT_NS + 1, 0));
    assert!(!audit_goes_on(0, AUDIT_CHECK_LIMIT + 1));
    assert!(allows_writing(Some(WRITE_MASK | 1)));
    assert!(!allows_writing(Some(WRITE_MASK & !2)));
    assert!(!allows_writing(None));
    assert!(audit_outcome(&vec![]).is_ok());
    let message = |flagged: &[&str]| match audit_outcome(&paths(flagged)) {
        Err(SandboxError::AuditFailed(message)) => message,
        other => panic!("unexpected {other:?}"),
    };
    assert_eq!(
        message(&["a"]),
        "world-writable directories detected before sandbox launch:\n - a"
    );
    assert_eq!(
        message(&["1", "2", "3", "4", "5", "6", "7", "8", "9"]),
        "world-writable directories detected before sandbox launch:\n - 1\n - 2\n - 3\n - 4\n - 5\n - 6\n - 7\n - 8"
    );
    assert_eq!(
        unreadable_list(&path("x")).message(),
        "sandbox audit failed: failed to inspect DACL for x"
    );
}

#[test]
fn only_coarse_network_policies_run() {
    let shape = |network_policy| {
        validate_policy_shape(&SandboxPolicy {
            network_policy,
            ..SandboxPolicy::default()
        })
    };
    assert!(matches!(
        shape(SandboxNetworkPolicy::outbound_only()),
        Ok(SandboxCoarseNetworkPolicy::OutboundOnly)
    ));
    assert!(matches!(
        shape(SandboxNetworkPolicy {
            allow_bind: true,
            ..SandboxNetworkPolicy::disabled()
        }),
        Err(SandboxError::Unavailable(_))
    ));
}

#[test]
fn elevated_processes_set_up_offline_runs_themselves() {
    let base = || plan(&["d"], &["r"], &["w"], &[]);
    let bootstrap = paths(&["b", "W"]);
    match setup_course(base(), &bootstrap, true, SandboxCoarseNetworkPolicy::Disabled) {
        SetupCourse::Own { plan: own, block_network } => {
            assert_eq!(own, base());
            assert!(block_network);
        }
        other => panic!("unexpected {other:?}"),
    }
    match setup_course(base(), &bootstrap, false, SandboxCoarseNetworkPolicy::Disabled) {
        SetupCourse::Helper { plan: helped, mode } => {
            assert_eq!(helped, plan(&["d"], &["r", "b"], &["w"], &[]));
            assert_eq!(mode, NetworkRuleMode::BlockAll);
        }
        other => panic!("unexpected {other:?}"),
    }
    match setup_course(
        base(),
        &bootstrap,
        true,
        SandboxCoarseNetworkPolicy::Bidirectional,
    ) {
        SetupCourse::Helper { mode, .. } => {
            assert_eq!(mode, NetworkRuleMode::Bidirectional);
            assert!(wants_loopback_server(mode));
        }
        other => panic!("unexpected {other:?}"),
    }
    assert!(!wants_loopback_server(NetworkRuleMode::OutboundOnly));
}
