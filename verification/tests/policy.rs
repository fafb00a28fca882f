use procwarden::policy::SandboxCoarseNetworkPolicy;
use procwarden::{
    PathStyle, SandboxDefaultAccess, SandboxNetworkPolicy, SandboxPath, SandboxPathAccess,
    SandboxPathPermission, SandboxPolicy,
};

fn sample_policy() -> SandboxPolicy {
    SandboxPolicy {
        path_permissions: vec![
            SandboxPathPermission::read_only("/tmp/ro"),
            SandboxPathPermission::read_write("/tmp/rw"),
            SandboxPathPermission::deny("/tmp/no"),
        ],
        ..SandboxPolicy::default()
    }
}

#[test]
fn collects_policy_paths_by_access_level() {
    let policy = sample_policy();

    assert_eq!(policy.read_only_paths().len(), 1);
    assert_eq!(policy.read_write_paths().len(), 1);
    assert_eq!(policy.writable_paths().len(), 1);
    assert_eq!(policy.denied_paths().len(), 1);
    assert_eq!(policy.readable_paths().len(), 2);
}

#[test]
fn keeps_permission_order_within_extractors() {
    let policy = SandboxPolicy {
        path_permissions: vec![
            SandboxPathPermission::read_only("/tmp/a"),
            SandboxPathPermission::read_write("/tmp/b"),
            SandboxPathPermission::read_only("/tmp/c"),
        ],
        ..SandboxPolicy::default()
    };

    let readable = policy.readable_paths();
    let readable = readable
        .iter()
        .map(|path| path.display(PathStyle::Unix))
        .collect::<Vec<_>>();

    assert_eq!(readable, vec!["/tmp/a", "/tmp/b", "/tmp/c"]);
}

#[test]
fn defaults_are_the_strictest_ones() {
    let policy = SandboxPolicy::default();
    assert_eq!(policy.default_access, SandboxDefaultAccess::ReadOnly);
    assert_eq!(policy.network_policy, SandboxNetworkPolicy::disabled());
    assert_eq!(SandboxDefaultAccess::default(), SandboxDefaultAccess::ReadOnly);
    assert_eq!(
        SandboxNetworkPolicy::default(),
        SandboxNetworkPolicy::disabled()
    );
    assert!(policy.path_permissions.is_empty());
    assert!(!policy.default_write_access());
}

#[test]
fn rules_can_be_made_from_texts_and_paths() {
    let rule = SandboxPathPermission::deny("/x");
    assert_eq!(rule, SandboxPathPermission::deny("/x".to_string()));
    assert_eq!(
        rule,
        SandboxPathPermission::deny(SandboxPath::from_text("/x"))
    );
    assert_eq!(rule.access, SandboxPathAccess::Deny);
    assert_eq!(rule.path.bytes, b"/x".to_vec());
    assert_eq!(
        SandboxPathPermission::read_only("/x").access,
        SandboxPathAccess::ReadOnly
    );
    assert_eq!(
        SandboxPathPermission::read_write("/x").access,
        SandboxPathAccess::ReadWrite
    );
}

#[test]
fn network_shapes_answer_questions() {
    let disabled = SandboxNetworkPolicy::disabled();
    let outbound = SandboxNetworkPolicy::outbound_only();
    let both = SandboxNetworkPolicy::bidirectional();
    assert!(!disabled.allows_ip_network());
    assert!(!disabled.allows_outbound_ip());
    assert!(!disabled.allows_inbound_ip());
    assert!(outbound.allows_ip_network());
    assert!(outbound.allows_outbound_ip());
    assert!(!outbound.allows_inbound_ip());
    assert!(both.allows_inbound_ip());
    assert!(both.allows_outbound_ip());
    assert!(disabled.allow_unix && outbound.allow_unix && both.allow_unix);
}

#[test]
fn exactly_three_network_policies_have_a_coarse_shape() {
    let mut shapes = 0;
    for bits in 0u32..128 {
        let policy = SandboxNetworkPolicy {
            allow_unix: bits & 1 != 0,
            allow_ipv4: bits & 2 != 0,
            allow_ipv6: bits & 4 != 0,
            allow_connect: bits & 8 != 0,
            allow_bind: bits & 16 != 0,
            allow_listen: bits & 32 != 0,
            allow_accept: bits & 64 != 0,
        };
        if policy.coarse_policy().is_some() {
            shapes += 1;
        }
    }
    assert_eq!(shapes, 3);
    assert_eq!(
        SandboxNetworkPolicy::outbound_only().coarse_policy(),
        Some(SandboxCoarseNetworkPolicy::OutboundOnly)
    );
    assert!(!SandboxCoarseNetworkPolicy::Disabled.allows_ip_network());
    assert!(!SandboxCoarseNetworkPolicy::Disabled.allows_loopback_exemption());
    assert!(SandboxCoarseNetworkPolicy::OutboundOnly.allows_loopback_exemption());
    assert!(SandboxCoarseNetworkPolicy::Bidirectional.allows_ip_network());
}
