use std::path::{Component, Path, PathBuf};

use procwarden::error::{IoFailure, IoFailureKind};
use procwarden::linux::filter::{FamilyTable, SyscallTable};
use procwarden::linux::mounts::{
    bind_flags, c_path, mount_steps, placeholder_name, private_flags, read_only_ruleset,
    readonly_flags, scratch_name, unenforced_ruleset, MountStep,
};
use procwarden::linux::namespace::{
    id_map_line, is_overlay_namespace_unavailable_error, mapping_failure, report_failure,
    MappingStep, NamespaceStep,
};
use procwarden::linux::overlays::{
    collect_deny_overlay_entries, collect_readwrite_overlay_entries, lexically_normalize_path,
    normalize_existing_overlay_paths, normalize_scope_path, overlay_context_label, OverlayProbe,
    ReadWriteOverlayEntry, ReadWriteOverlayKind,
};
use procwarden::linux::plan::{plan_linux_run, LinuxNumbers};
use procwarden::linux::process::{
    close_is_settled, descriptor_of_name, descriptor_range, descriptors_to_close, ErrnoTable,
};
use procwarden::{
    EnvMap, PathProbe, PathStyle, SandboxCommandRequest, SandboxDefaultAccess, SandboxError,
    SandboxManager, SandboxNetworkPolicy, SandboxPath, SandboxPathPermission, SandboxPolicy,
};

fn path(text: &str) -> SandboxPath {
    SandboxPath::from_text(text)
}

fn text(path: &SandboxPath) -> String {
    path.display(PathStyle::Unix)
}

fn errno() -> ErrnoTable {
    ErrnoTable {
        eperm: libc::EPERM,
        ebadf: libc::EBADF,
        einval: libc::EINVAL,
        enosys: libc::ENOSYS,
        eopnotsupp: libc::EOPNOTSUPP,
    }
}

fn numbers(architecture: &str) -> LinuxNumbers {
    LinuxNumbers {
        calls: SyscallTable {
            socket: libc::SYS_socket as u32,
            socketpair: libc::SYS_socketpair as u32,
            connect: libc::SYS_connect as u32,
            accept: libc::SYS_accept as u32,
            accept4: libc::SYS_accept4 as u32,
            bind: libc::SYS_bind as u32,
            listen: libc::SYS_listen as u32,
            getpeername: libc::SYS_getpeername as u32,
            getsockname: libc::SYS_getsockname as u32,
            shutdown: libc::SYS_shutdown as u32,
            sendto: libc::SYS_sendto as u32,
            sendmsg: libc::SYS_sendmsg as u32,
            sendmmsg: libc::SYS_sendmmsg as u32,
            recvmsg: libc::SYS_recvmsg as u32,
            recvmmsg: libc::SYS_recvmmsg as u32,
            getsockopt: libc::SYS_getsockopt as u32,
            setsockopt: libc::SYS_setsockopt as u32,
            ptrace: libc::SYS_ptrace as u32,
        },
        families: FamilyTable {
            unix: libc::AF_UNIX as u32,
            inet: libc::AF_INET as u32,
            inet6: libc::AF_INET6 as u32,
        },
        errno: errno(),
        architecture: architecture.to_string(),
    }
}

fn failure(kind: IoFailureKind, raw_os_error: Option<i32>) -> IoFailure {
    IoFailure {
        kind,
        raw_os_error,
        message: "why".to_string(),
    }
}

fn existing(paths: &[&str]) -> Vec<OverlayProbe> {
    paths
        .iter()
        .map(|p| OverlayProbe {
            resolved: path(p),
            exists: true,
        })
        .collect()
}

fn policy(
    default_access: SandboxDefaultAccess,
    path_permissions: Vec<SandboxPathPermission>,
) -> SandboxPolicy {
    SandboxPolicy {
        default_access,
        network_policy: SandboxNetworkPolicy::disabled(),
        path_permissions,
    }
}

#[test]
fn policy_shape_matrix_acceptance_contract() {
    let (ro_dir, rw_dir, deny_dir) = ("/fixture/ro", "/fixture/rw", "/fixture/deny");
    let manager = SandboxManager::new();
    let request = SandboxCommandRequest {
        command: vec![
            "/bin/sh".to_string(),
            "-c".to_string(),
            "exit 0".to_string(),
        ],
        cwd: path("/fixture/cwd"),
        env: EnvMap::new(),
        timeout_ms: Some(2_500),
    };
    let found = |p: &str| PathProbe::Resolved {
        canonical: path(p),
        is_dir: true,
    };

    let cases = [
        ("read_write_default_no_overlays", false, false, false, false),
        ("read_write_default_read_write_overlay", false, true, false, false),
        ("read_write_default_read_only_overlay", true, false, false, true),
        ("read_write_default_read_only_and_read_write_overlay", true, true, false, true),
        ("read_write_default_deny_overlay", false, false, true, true),
        ("read_write_default_read_only_and_deny_overlay", true, false, true, true),
        ("read_write_default_read_write_and_deny_overlay", false, true, true, true),
        ("read_write_default_read_only_read_write_and_deny_overlay", true, true, true, true),
        ("read_only_default_no_overlays", false, false, false, false),
        ("read_only_default_read_only_overlay", true, false, false, false),
        ("read_only_default_read_write_overlay", false, true, false, false),
        ("read_only_default_read_only_and_read_write_overlay", true, true, false, false),
        ("read_only_default_deny_overlay", false, false, true, true),
        ("read_only_default_read_only_and_deny_overlay", true, false, true, true),
        ("read_only_default_read_write_and_deny_overlay", false, true, true, true),
        ("read_only_default_read_only_read_write_and_deny_overlay", true, true, true, true),
    ];

    for (name, with_read_only, with_read_write, with_deny, depends_on_host) in cases {
        let default_access = if name.starts_with("read_write_default") {
            SandboxDefaultAccess::ReadWrite
        } else {
            SandboxDefaultAccess::ReadOnly
        };
        let mut path_permissions = Vec::new();
        let mut probes = Vec::new();
        if with_read_only {
            path_permissions.push(SandboxPathPermission::read_only(ro_dir));
            probes.push(found(ro_dir));
        }
        if with_read_write {
            path_permissions.push(SandboxPathPermission::read_write(rw_dir));
            probes.push(found(rw_dir));
        }
        if with_deny {
            path_permissions.push(SandboxPathPermission::deny(deny_dir));
            probes.push(found(deny_dir));
        }

        let prepared = manager
            .execute(
                PathStyle::Unix,
                &request,
                &policy(default_access, path_permissions),
                &found("/fixture/cwd"),
                &probes,
            )
            .unwrap_or_else(|error| panic!("{name}: expected runnable policy, got {error:?}"));
        let read_only: Vec<OverlayProbe> = prepared
            .policy
            .read_only_paths()
            .iter()
            .map(|p| OverlayProbe {
                resolved: p.clone(),
                exists: true,
            })
            .collect();
        let denied: Vec<OverlayProbe> = prepared
            .policy
            .denied_paths()
            .iter()
            .map(|p| OverlayProbe {
                resolved: p.clone(),
                exists: true,
            })
            .collect();
        let plan = plan_linux_run(&prepared.policy, &read_only, &denied, &numbers("x86_64"))
            .unwrap_or_else(|error| panic!("{name}: expected a plan, got {error:?}"));

        // Only mounts depend on what the host allows.
        assert_eq!(!plan.overlays.is_empty(), depends_on_host, "{name}");
        assert_eq!(
            plan.file_rules.is_some(),
            default_access == SandboxDefaultAccess::ReadOnly,
            "{name}"
        );
        assert!(matches!(plan.filter, Ok(Some(_))), "{name}");
    }
}

#[test]
fn plans_hold_mounts_file_rules_and_a_filter() {
    let rules = || {
        vec![
            SandboxPathPermission::deny("/a/b"),
            SandboxPathPermission::read_only("/a"),
            SandboxPathPermission::read_write("/w"),
        ]
    };
    let plan = plan_linux_run(
        &policy(SandboxDefaultAccess::ReadWrite, rules()),
        &existing(&["/a"]),
        &existing(&["/a/b"]),
        &numbers("aarch64"),
    )
    .expect("there should be a plan");
    let shown: Vec<(String, ReadWriteOverlayKind)> = plan
        .overlays
        .iter()
        .map(|entry| (text(&entry.path), entry.kind))
        .collect();
    assert_eq!(
        shown,
        vec![
            ("/a/b".to_string(), ReadWriteOverlayKind::Deny),
            ("/a".to_string(), ReadWriteOverlayKind::ReadOnly),
        ]
    );
    assert!(plan.file_rules.is_none());
    assert!(matches!(plan.filter, Ok(Some(_))));

    let plan = plan_linux_run(
        &policy(SandboxDefaultAccess::ReadOnly, rules()),
        &existing(&["/a"]),
        &existing(&["/a/b"]),
        &numbers("x86_64"),
    )
    .expect("there should be a plan");
    assert_eq!(plan.overlays.len(), 1);
    let file_rules = plan.file_rules.expect("there should be file rules");
    let shown: Vec<(String, u64)> = file_rules
        .rules
        .iter()
        .map(|rule| (text(&rule.path), rule.rights))
        .collect();
    assert_eq!(
        shown,
        vec![
            ("/".to_string(), 13),
            ("/dev/null".to_string(), 0xffff),
            ("/w".to_string(), 0xffff),
        ]
    );
}

#[test]
fn plans_without_a_filter_fail_closed() {
    let offline = policy(SandboxDefaultAccess::ReadOnly, vec![]);
    let plan = plan_linux_run(&offline, &vec![], &vec![], &numbers("riscv64"))
        .expect("the paths are in order");
    match plan.filter {
        Err(io) => {
            assert_eq!(io.kind, IoFailureKind::Unsupported);
            assert_eq!(io.raw_os_error, None);
            assert_eq!(io.message, "unsupported architecture for seccomp sandbox");
        }
        other => panic!("unexpected {other:?}"),
    }
    // The new process hands on the number of its error alone, and an error without one as EINVAL.
    let invalid = || {
        SandboxError::Io(IoFailure {
            kind: IoFailureKind::InvalidInput,
            raw_os_error: Some(libc::EINVAL),
            message: "Invalid argument (os error 22)".to_string(),
        })
    };
    assert!(matches!(
        report_failure(true, invalid(), errno()),
        SandboxError::Unavailable(_)
    ));
    assert!(matches!(
        report_failure(false, invalid(), errno()),
        SandboxError::Io(_)
    ));
    let online = SandboxPolicy {
        network_policy: SandboxNetworkPolicy::bidirectional(),
        ..SandboxPolicy::default()
    };
    let plan = plan_linux_run(&online, &vec![], &vec![], &numbers("riscv64"))
        .expect("no filter is needed");
    assert!(matches!(plan.filter, Ok(None)));
}

#[test]
fn missing_overlay_targets_are_named() {
    let missing = vec![OverlayProbe {
        resolved: path("/r"),
        exists: false,
    }];
    let message = |result: Result<Vec<SandboxPath>, SandboxError>| match result {
        Err(SandboxError::InvalidRequest(message)) => message,
        other => panic!("unexpected {other:?}"),
    };
    assert_eq!(
        message(normalize_existing_overlay_paths(
            &vec![path("/d")],
            "deny",
            overlay_context_label(SandboxDefaultAccess::ReadOnly),
            &missing,
        )),
        "linux backend requires existing deny overlay targets for default_access=ReadOnly with deny overlays: /d"
    );
    assert_eq!(
        overlay_context_label(SandboxDefaultAccess::ReadWrite),
        "default_access=ReadWrite"
    );
    assert_eq!(
        normalize_existing_overlay_paths(&vec![path("/d")], "deny", "", &existing(&["/real"]))
            .expect("the target exists"),
        vec![path("/real")]
    );
}

fn std_normalize(p: &Path) -> PathBuf {
    let mut normalized = PathBuf::new();
    for component in p.components() {
        match component {
            Component::CurDir => {}
            Component::ParentDir => {
                let _ = normalized.pop();
            }
            Component::Prefix(_) | Component::RootDir | Component::Normal(_) => {
                normalized.push(component.as_os_str());
            }
        }
    }
    normalized
}

#[test]
fn paths_are_normalized_by_their_text() {
    for sample in [
        "/", "/a/../b", "/a/./b//c", "/../..", "/a/b/../../..", "/a/..", "/a/../../b/c/..", "a/..",
        "../x", "/.", "/x/",
    ] {
        assert_eq!(
            text(&lexically_normalize_path(&path(sample))),
            std_normalize(Path::new(sample)).to_string_lossy(),
            "{sample}"
        );
    }
    assert_eq!(
        normalize_scope_path(&path("/a/../b"), Some(&path("/real"))),
        path("/real")
    );
    assert_eq!(normalize_scope_path(&path("/a/../b"), None), path("/b"));
}

#[test]
fn deeper_paths_are_mounted_first() {
    let shown = |entries: Vec<ReadWriteOverlayEntry>| -> Vec<(String, bool)> {
        entries
            .iter()
            .map(|e| (text(&e.path), e.kind == ReadWriteOverlayKind::Deny))
            .collect()
    };
    assert_eq!(
        shown(collect_readwrite_overlay_entries(
            &vec![path("/b"), path("/a/x"), path("/a"), path("/both")],
            &vec![path("/both"), path("/a/y/z")],
        )),
        vec![
            ("/a/y/z".to_string(), true),
            ("/a/x".to_string(), false),
            ("/a".to_string(), false),
            ("/b".to_string(), false),
            ("/both".to_string(), true),
        ]
    );
    assert_eq!(
        shown(collect_deny_overlay_entries(&vec![
            path("/b"),
            path("/a"),
            path("/a/c"),
            path("/b")
        ])),
        vec![
            ("/a/c".to_string(), true),
            ("/a".to_string(), true),
            ("/b".to_string(), true),
            ("/b".to_string(), true),
        ]
    );
}

#[test]
fn mount_flags_are_those_of_the_system() {
    assert_eq!(private_flags(), libc::MS_REC | libc::MS_PRIVATE);
    assert_eq!(bind_flags(false), libc::MS_BIND);
    assert_eq!(bind_flags(true), libc::MS_BIND | libc::MS_REC);
    assert_eq!(
        readonly_flags(false),
        libc::MS_BIND | libc::MS_REMOUNT | libc::MS_RDONLY
    );
    assert_eq!(
        readonly_flags(true),
        libc::MS_BIND | libc::MS_REMOUNT | libc::MS_RDONLY | libc::MS_REC
    );
    assert_eq!(
        mount_steps(ReadWriteOverlayKind::ReadOnly, true),
        vec![
            MountStep::BindSelf(bind_flags(true)),
            MountStep::Remount(readonly_flags(true))
        ]
    );
    assert_eq!(
        mount_steps(ReadWriteOverlayKind::Deny, false),
        vec![
            MountStep::CreateFile,
            MountStep::BindPlaceholder(bind_flags(false)),
            MountStep::Remount(readonly_flags(false)),
            MountStep::RemoveFile,
        ]
    );
    assert_eq!(
        mount_steps(ReadWriteOverlayKind::Deny, true)[0],
        MountStep::CreateDirectory
    );
    assert_eq!(scratch_name(42), "procwarden-linux-overlay-42");
    assert_eq!(placeholder_name(true, 0), "deny-dir-0");
    assert_eq!(placeholder_name(false, 11), "deny-file-11");
}

#[test]
fn rights_are_those_of_the_file_system_interface() {
    let set = read_only_ruleset(&vec![path("/w")]);
    assert_eq!(set.handled, 0xffff);
    assert_eq!(set.rules.len(), 3);
    // Running, reading a file, listing a directory.
    assert_eq!(set.rules[0].rights, 1 | 4 | 8);
    assert_eq!(set.rules[2].rights, 0xffff);
    assert_eq!(set.rules[2].path, path("/w"));
    let failure = unenforced_ruleset();
    assert_eq!(failure.kind, IoFailureKind::PermissionDenied);
    assert_eq!(
        failure.message,
        "landlock could not enforce all filesystem rules"
    );
}

#[test]
fn paths_with_zero_bytes_are_not_handed_on() {
    assert_eq!(c_path(&path("/a")), Ok(path("/a")));
    let error = c_path(&path("/a\0b")).expect_err("the path cannot be handed on");
    assert_eq!(error.kind, IoFailureKind::InvalidInput);
    assert_eq!(error.message, "path contains interior NUL bytes: /a\0b");
}

#[test]
fn namespaces_are_left_together_or_one_by_one() {
    let denied = || Err(failure(IoFailureKind::PermissionDenied, Some(libc::EPERM)));
    let broken = || Err(failure(IoFailureKind::Other, Some(libc::EIO)));
    let table = errno();

    let step = NamespaceStep::UnshareBoth.next(Ok(()), table);
    assert_eq!(step, NamespaceStep::MapUserWithMounts);
    let step = step.next(Ok(()), table);
    assert_eq!(step, NamespaceStep::MakePrivate);
    assert_eq!(step.next(Ok(()), table), NamespaceStep::Done);

    let step = NamespaceStep::UnshareBoth.next(denied(), table);
    assert_eq!(step, NamespaceStep::UnshareUser);
    assert_eq!(step.next(denied(), table), NamespaceStep::UnshareMounts);
    assert_eq!(
        NamespaceStep::UnshareUser.next(Ok(()), table),
        NamespaceStep::MapUserBeforeMounts
    );
    assert_eq!(
        NamespaceStep::MapUserBeforeMounts.next(Ok(()), table),
        NamespaceStep::UnshareMounts
    );

    let failed = |step: NamespaceStep| match step {
        NamespaceStep::Failed(failure) => failure,
        other => panic!("unexpected {other:?}"),
    };
    let end = failed(NamespaceStep::UnshareBoth.next(broken(), table));
    assert_eq!(
        end.message,
        "unshare(CLONE_NEWUSER|CLONE_NEWNS) failed: why"
    );
    assert_eq!(end.raw_os_error, None);
    assert_eq!(
        failed(NamespaceStep::UnshareUser.next(broken(), table)).message,
        "unshare(CLONE_NEWUSER) failed: why"
    );
    assert_eq!(
        failed(NamespaceStep::UnshareMounts.next(denied(), table)).message,
        "unshare(CLONE_NEWNS) failed: why"
    );
    assert_eq!(
        failed(NamespaceStep::MakePrivate.next(denied(), table)).message,
        "mount(MS_PRIVATE) failed: why"
    );
    assert_eq!(
        failed(NamespaceStep::MapUserWithMounts.next(denied(), table)),
        failure(IoFailureKind::PermissionDenied, Some(libc::EPERM))
    );
}

#[test]
fn users_are_mapped_to_the_root_of_their_namespace() {
    assert_eq!(id_map_line(1000), "0 1000 1\n");
    assert_eq!(
        mapping_failure(
            MappingStep::WriteSetgroups,
            &failure(IoFailureKind::NotFound, None)
        ),
        None
    );
    let message = |step| {
        mapping_failure(step, &failure(IoFailureKind::Other, None))
            .expect("the failure should be reported")
            .message
    };
    assert_eq!(
        message(MappingStep::WriteSetgroups),
        "writing /proc/self/setgroups failed: why"
    );
    assert_eq!(
        message(MappingStep::WriteUidMap),
        "writing /proc/self/uid_map failed: why"
    );
    assert_eq!(
        message(MappingStep::WriteGidMap),
        "writing /proc/self/gid_map failed: why"
    );
    assert_eq!(message(MappingStep::SetGroup), "setresgid(0,0,0) failed: why");
    assert_eq!(message(MappingStep::SetUser), "setresuid(0,0,0) failed: why");
}

#[test]
fn missing_mount_support_makes_the_sandbox_unavailable() {
    for code in [libc::EPERM, libc::EOPNOTSUPP, libc::EINVAL, libc::ENOSYS] {
        assert!(is_overlay_namespace_unavailable_error(
            &failure(IoFailureKind::Other, Some(code)),
            errno()
        ));
    }
    assert!(is_overlay_namespace_unavailable_error(
        &failure(IoFailureKind::Unsupported, None),
        errno()
    ));
    assert!(!is_overlay_namespace_unavailable_error(
        &failure(IoFailureKind::NotFound, Some(libc::ENOENT)),
        errno()
    ));
    let denied = || SandboxError::Io(failure(IoFailureKind::PermissionDenied, None));
    assert_eq!(
        report_failure(true, denied(), errno()).message(),
        "sandbox is unavailable on this platform: linux path overlays require mount-namespace support (CLONE_NEWUSER/CLONE_NEWNS or CAP_SYS_ADMIN): why"
    );
    assert_eq!(
        report_failure(false, denied(), errno()).message(),
        "io error: why"
    );
    assert_eq!(
        report_failure(true, SandboxError::Denied("x".to_string()), errno()).message(),
        "sandbox denied execution: x"
    );
}

#[test]
fn all_descriptors_but_the_standard_streams_are_closed() {
    assert_eq!(descriptors_to_close(&vec![0, 9, 2, 3, 1, -1]), vec![9, 3]);
    assert_eq!(descriptor_range(Some(6)), vec![3, 4, 5]);
    assert_eq!(descriptor_range(Some(2)), Vec::<i32>::new());
    assert_eq!(descriptor_range(None).len(), 1_048_573);
    assert_eq!(descriptor_range(Some(u64::MAX)).len(), 1_048_573);
    for name in [
        "0", "7", "007", "+7", "-7", "-0", "", "+", "-", "7a", "a", "2147483647", "2147483648",
        "-2147483648", "-2147483649", "99999999999999999999", "\u{663}",
    ] {
        assert_eq!(descriptor_of_name(name), name.parse().ok(), "{name}");
    }
    assert!(close_is_settled(Some(libc::EBADF), errno()));
    assert!(!close_is_settled(Some(libc::EIO), errno()));
    assert!(!close_is_settled(None, errno()));
}
