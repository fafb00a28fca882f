use procwarden::error::IoFailureKind;
use procwarden::linux::filter::{
    compile_network_filter, filter_outcome, network_filter, FamilyTable, SyscallTable,
};
use procwarden::SandboxNetworkPolicy;

const ALLOW: u32 = 0x7fff_0000;
const DENY: u32 = 0x0005_0001;
const AUDIT_ARCH_X86_64: u32 = 0xc000_003e;
const AUDIT_ARCH_AARCH64: u32 = 0xc000_00b7;

fn calls() -> SyscallTable {
    SyscallTable {
        socket: libc::SYS_socket as u32,
        socketpair: libc::SYS_socketpair as u32,
        connect: libc::SYS_connect as u32,
        accept: libc::SYS_accept as u32,
        accept4: libc::SYS_accept4 as u32,
        bind: libc::SYS_bind as u32,
        listen: libc::SYS_listen as u32,
        getpeername: libc::SYS_getpeername as u32,
        getsockname: libc::SYS_getsockname as u32,
        shutdown: libc::SYS_shutdown as u32,
        sendto: libc::SYS_sendto as u32,
        sendmsg: libc::SYS_sendmsg as u32,
        sendmmsg: libc::SYS_sendmmsg as u32,
        recvmsg: libc::SYS_recvmsg as u32,
        recvmmsg: libc::SYS_recvmmsg as u32,
        getsockopt: libc::SYS_getsockopt as u32,
        setsockopt: libc::SYS_setsockopt as u32,
        ptrace: libc::SYS_ptrace as u32,
    }
}

fn families() -> FamilyTable {
    FamilyTable {
        unix: libc::AF_UNIX as u32,
        inet: libc::AF_INET as u32,
        inet6: libc::AF_INET6 as u32,
    }
}

fn custom_policy() -> SandboxNetworkPolicy {
    SandboxNetworkPolicy {
        allow_unix: false,
        allow_ipv4: false,
        allow_ipv6: false,
        allow_connect: false,
        allow_bind: false,
        allow_listen: false,
        allow_accept: false,
    }
}

/// Runs a filter on the data that the kernel hands to it.
fn run(program: &[(u16, u8, u8, u32)], audit_arch: u32, number: u32, args: [u64; 6]) -> u32 {
    let mut data: Vec<u8> = Vec::new();
    data.extend_from_slice(&number.to_le_bytes());
    data.extend_from_slice(&audit_arch.to_le_bytes());
    data.extend_from_slice(&0u64.to_le_bytes());
    for arg in args {
        data.extend_from_slice(&arg.to_le_bytes());
    }
    let mut pc = 0usize;
    let mut acc = 0u32;
    loop {
        let (code, jt, jf, k) = program[pc];
        pc += 1;
        match code {
            0x20 => {
                let at = k as usize;
                acc = u32::from_le_bytes([data[at], data[at + 1], data[at + 2], data[at + 3]]);
            }
            0x54 => acc &= k,
            0x05 => pc += k as usize,
            0x15 => pc += if acc == k { jt } else { jf } as usize,
            0x25 => pc += if acc > k { jt } else { jf } as usize,
            0x35 => pc += if acc >= k { jt } else { jf } as usize,
            0x06 => return k,
            other => panic!("unexpected instruction code {other:#x}"),
        }
    }
}

fn verdict(policy: SandboxNetworkPolicy, number: i64, first_argument: u64) -> u32 {
    match compile_network_filter(policy, calls(), families(), libc::EPERM as u32, "x86_64") {
        Ok(Some(program)) => run(
            &program,
            AUDIT_ARCH_X86_64,
            number as u32,
            [first_argument, 0, 0, 0, 0, 0],
        ),
        Ok(None) => ALLOW,
        Err(error) => panic!("the filter should compile: {error:?}"),
    }
}

fn socket_is_allowed(policy: SandboxNetworkPolicy, family: i32) -> bool {
    let socket = verdict(policy, libc::SYS_socket, family as u64);
    let pair = verdict(policy, libc::SYS_socketpair, family as u64);
    assert_eq!(socket, pair);
    assert!(socket == ALLOW || socket == DENY);
    socket == ALLOW
}

fn call_is_allowed(policy: SandboxNetworkPolicy, number: i64) -> bool {
    let result = verdict(policy, number, 3);
    assert!(result == ALLOW || result == DENY);
    result == ALLOW
}

#[test]
fn unix_socket_creation_is_blocked_when_unix_family_is_disabled() {
    assert!(!socket_is_allowed(custom_policy(), libc::AF_UNIX));
}

#[test]
fn unix_socket_creation_is_allowed_when_unix_family_is_enabled() {
    let policy = SandboxNetworkPolicy {
        allow_unix: true,
        ..custom_policy()
    };
    assert!(socket_is_allowed(policy, libc::AF_UNIX));
}

#[test]
fn ipv4_socket_creation_is_blocked_when_ipv4_family_is_disabled() {
    assert!(!socket_is_allowed(custom_policy(), libc::AF_INET));
}

#[test]
fn ipv4_socket_creation_is_allowed_when_ipv4_family_is_enabled() {
    let policy = SandboxNetworkPolicy {
        allow_ipv4: true,
        ..custom_policy()
    };
    assert!(socket_is_allowed(policy, libc::AF_INET));
}

#[test]
fn ipv6_socket_creation_is_blocked_when_ipv6_family_is_disabled() {
    let policy = SandboxNetworkPolicy {
        allow_ipv4: true,
        ..custom_policy()
    };
    assert!(!socket_is_allowed(policy, libc::AF_INET6));
}

#[test]
fn ipv6_socket_creation_is_allowed_when_ipv6_family_is_enabled() {
    let policy = SandboxNetworkPolicy {
        allow_ipv6: true,
        ..custom_policy()
    };
    assert!(socket_is_allowed(policy, libc::AF_INET6));
}

#[test]
fn connect_is_blocked_when_connect_permission_is_disabled() {
    let policy = SandboxNetworkPolicy {
        allow_ipv4: true,
        ..custom_policy()
    };
    assert!(!call_is_allowed(policy, libc::SYS_connect));
}

#[test]
fn connect_is_allowed_when_connect_permission_is_enabled() {
    let policy = SandboxNetworkPolicy {
        allow_ipv4: true,
        allow_connect: true,
        ..custom_policy()
    };
    assert!(socket_is_allowed(policy, libc::AF_INET));
    assert!(call_is_allowed(policy, libc::SYS_connect));
    assert!(call_is_allowed(policy, libc::SYS_sendto));
}

#[test]
fn bind_is_blocked_when_bind_permission_is_disabled() {
    let policy = SandboxNetworkPolicy {
        allow_ipv4: true,
        ..custom_policy()
    };
    assert!(!call_is_allowed(policy, libc::SYS_bind));
}

#[test]
fn bind_is_allowed_when_bind_permission_is_enabled() {
    let policy = SandboxNetworkPolicy {
        allow_ipv4: true,
        allow_bind: true,
        ..custom_policy()
    };
    assert!(socket_is_allowed(policy, libc::AF_INET));
    assert!(call_is_allowed(policy, libc::SYS_setsockopt));
    assert!(call_is_allowed(policy, libc::SYS_bind));
}

#[test]
fn listen_is_blocked_when_listen_permission_is_disabled() {
    let policy = SandboxNetworkPolicy {
        allow_ipv4: true,
        allow_bind: true,
        ..custom_policy()
    };
    assert!(!call_is_allowed(policy, libc::SYS_listen));
}

#[test]
fn listen_is_allowed_when_listen_permission_is_enabled() {
    let policy = SandboxNetworkPolicy {
        allow_ipv4: true,
        allow_bind: true,
        allow_listen: true,
        ..custom_policy()
    };
    assert!(call_is_allowed(policy, libc::SYS_bind));
    assert!(call_is_allowed(policy, libc::SYS_listen));
}

#[test]
fn accept_is_blocked_when_accept_permission_is_disabled() {
    let policy = SandboxNetworkPolicy {
        allow_ipv4: true,
        allow_bind: true,
        allow_listen: true,
        ..custom_policy()
    };
    assert!(!call_is_allowed(policy, libc::SYS_accept));
    assert!(!call_is_allowed(policy, libc::SYS_accept4));
}

#[test]
fn accept_is_allowed_when_accept_permission_is_enabled() {
    let policy = SandboxNetworkPolicy {
        allow_ipv4: true,
        allow_bind: true,
        allow_listen: true,
        allow_accept: true,
        ..custom_policy()
    };
    assert!(call_is_allowed(policy, libc::SYS_accept));
    assert!(call_is_allowed(policy, libc::SYS_accept4));
}

#[test]
fn disabled_network_denies_everything_but_unix_sockets() {
    let policy = SandboxNetworkPolicy::disabled();
    assert!(socket_is_allowed(policy, libc::AF_UNIX));
    assert!(!socket_is_allowed(policy, libc::AF_INET));
    assert!(!socket_is_allowed(policy, libc::AF_INET6));
    assert!(!socket_is_allowed(policy, libc::AF_NETLINK));
    for number in [
        libc::SYS_connect,
        libc::SYS_accept,
        libc::SYS_accept4,
        libc::SYS_bind,
        libc::SYS_listen,
        libc::SYS_getpeername,
        libc::SYS_getsockname,
        libc::SYS_shutdown,
        libc::SYS_sendto,
        libc::SYS_sendmsg,
        libc::SYS_sendmmsg,
        libc::SYS_recvmsg,
        libc::SYS_recvmmsg,
        libc::SYS_getsockopt,
        libc::SYS_setsockopt,
        libc::SYS_ptrace,
    ] {
        assert!(!call_is_allowed(policy, number), "call {number}");
    }
    assert!(call_is_allowed(policy, libc::SYS_read));
    assert!(call_is_allowed(policy, libc::SYS_openat));
}

#[test]
fn outbound_network_connects_and_does_not_listen() {
    let policy = SandboxNetworkPolicy::outbound_only();
    assert!(socket_is_allowed(policy, libc::AF_INET));
    assert!(socket_is_allowed(policy, libc::AF_INET6));
    assert!(call_is_allowed(policy, libc::SYS_connect));
    assert!(call_is_allowed(policy, libc::SYS_recvmsg));
    assert!(!call_is_allowed(policy, libc::SYS_bind));
    assert!(!call_is_allowed(policy, libc::SYS_listen));
    assert!(!call_is_allowed(policy, libc::SYS_accept));
}

#[test]
fn bidirectional_network_needs_no_filter() {
    let policy = SandboxNetworkPolicy::bidirectional();
    assert!(network_filter(policy, calls(), families()).is_none());
    assert_eq!(
        compile_network_filter(policy, calls(), families(), 1, "x86_64"),
        Ok(None)
    );
    assert_eq!(
        compile_network_filter(policy, calls(), families(), 1, "sparc64"),
        Ok(None)
    );
}

#[test]
fn every_policy_gates_every_call_on_its_own() {
    for bits in 0u32..128 {
        let policy = SandboxNetworkPolicy {
            allow_unix: bits & 1 != 0,
            allow_ipv4: bits & 2 != 0,
            allow_ipv6: bits & 4 != 0,
            allow_connect: bits & 8 != 0,
            allow_bind: bits & 16 != 0,
            allow_listen: bits & 32 != 0,
            allow_accept: bits & 64 != 0,
        };
        if policy == SandboxNetworkPolicy::bidirectional() {
            continue;
        }
        assert_eq!(socket_is_allowed(policy, libc::AF_UNIX), policy.allow_unix);
        assert_eq!(socket_is_allowed(policy, libc::AF_INET), policy.allow_ipv4);
        assert_eq!(socket_is_allowed(policy, libc::AF_INET6), policy.allow_ipv6);
        assert!(!socket_is_allowed(policy, libc::AF_PACKET));
        assert_eq!(call_is_allowed(policy, libc::SYS_connect), policy.allow_connect);
        assert_eq!(call_is_allowed(policy, libc::SYS_bind), policy.allow_bind);
        assert_eq!(call_is_allowed(policy, libc::SYS_listen), policy.allow_listen);
        assert_eq!(call_is_allowed(policy, libc::SYS_accept), policy.allow_accept);
        assert_eq!(call_is_allowed(policy, libc::SYS_accept4), policy.allow_accept);
        let isolated = bits & !1 == 0;
        assert_eq!(call_is_allowed(policy, libc::SYS_sendmsg), !isolated);
        assert_eq!(call_is_allowed(policy, libc::SYS_ptrace), !isolated);
    }
}

#[test]
fn only_the_low_half_of_an_argument_names_the_family() {
    let policy = SandboxNetworkPolicy::disabled();
    let program = compile_network_filter(policy, calls(), families(), 1, "x86_64")
        .expect("the filter should compile")
        .expect("the policy should need a filter");
    let high = 0xdead_beef_0000_0000u64 | libc::AF_UNIX as u64;
    assert_eq!(
        run(
            &program,
            AUDIT_ARCH_X86_64,
            libc::SYS_socket as u32,
            [high, 0, 0, 0, 0, 0]
        ),
        ALLOW
    );
}

#[test]
fn the_error_number_and_the_architecture_are_those_given() {
    let policy = SandboxNetworkPolicy::disabled();
    let program = compile_network_filter(policy, calls(), families(), 13, "aarch64")
        .expect("the filter should compile")
        .expect("the policy should need a filter");
    assert_eq!(
        run(
            &program,
            AUDIT_ARCH_AARCH64,
            libc::SYS_connect as u32,
            [0; 6]
        ),
        0x0005_000d
    );
    let foreign = run(
        &program,
        AUDIT_ARCH_X86_64,
        libc::SYS_read as u32,
        [0; 6],
    );
    assert_ne!(foreign, ALLOW);
}

#[test]
fn other_architectures_are_not_supported() {
    let error = compile_network_filter(
        SandboxNetworkPolicy::disabled(),
        calls(),
        families(),
        1,
        "riscv64",
    )
    .expect_err("no filter should be made");
    assert_eq!(error.kind, IoFailureKind::Unsupported);
    assert_eq!(error.raw_os_error, None);
    assert_eq!(error.message, "unsupported architecture for seccomp sandbox");
}

#[test]
fn a_compiler_error_is_one_of_permission() {
    let error = filter_outcome(Err(seccompiler::BackendError::EmptyRule))
        .expect_err("an error should stay one");
    assert_eq!(error.kind, IoFailureKind::PermissionDenied);
    assert_eq!(
        error.message,
        "The condition vector of a rule cannot be empty."
    );
    assert_eq!(filter_outcome(Ok(vec![(6, 0, 0, 1)])), Ok(vec![(6, 0, 0, 1)]));
}
