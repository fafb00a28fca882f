//! What a sandboxed command may touch.
use vstd::prelude::*;

use crate::path::{path_key, path_views, PathStyle, SandboxPath};

verus! {

/// How paths are treated that no rule names.
#[derive(Debug, Clone, Copy, PartialEq, Eq, PartialOrd, Ord, Structural)]
pub enum SandboxDefaultAccess {
    ReadOnly,
    ReadWrite,
}

impl Default for SandboxDefaultAccess {
    fn default() -> (r: Self)
        ensures
            r == SandboxDefaultAccess::ReadOnly,
    {
        SandboxDefaultAccess::ReadOnly
    }
}

/// Socket-network policy for the sandboxed process.
///
/// The model only has knobs that can be enforced honestly. On Linux they gate the creation of
/// sockets by family and the system calls that manage connections. On macOS and Windows only
/// the three coarse shapes `disabled`, `outbound_only` and `bidirectional` are supported.
#[derive(Debug, Clone, Copy, PartialEq, Eq, Structural)]
pub struct SandboxNetworkPolicy {
    pub allow_unix: bool,
    pub allow_ipv4: bool,
    pub allow_ipv6: bool,
    pub allow_connect: bool,
    pub allow_bind: bool,
    pub allow_listen: bool,
    pub allow_accept: bool,
}

impl Default for SandboxNetworkPolicy {
    fn default() -> (r: Self)
        ensures
            r == disabled_network(),
    {
        SandboxNetworkPolicy::disabled()
    }
}

/// The coarse shapes of a network policy.
#[derive(Debug, Clone, Copy, PartialEq, Eq, Structural)]
pub enum SandboxCoarseNetworkPolicy {
    Disabled,
    OutboundOnly,
    Bidirectional,
}

impl SandboxCoarseNetworkPolicy {
    /// Whether this shape lets the command use the IP network at all.
    pub fn allows_ip_network(self) -> (r: bool)
        ensures
            r == (self != SandboxCoarseNetworkPolicy::Disabled),
    {
        match self {
            SandboxCoarseNetworkPolicy::Disabled => false,
            _ => true,
        }
    }

    /// Whether this shape asks for an exemption from loopback isolation.
    pub fn allows_loopback_exemption(self) -> (r: bool)
        ensures
            r == (self == SandboxCoarseNetworkPolicy::OutboundOnly || self
                == SandboxCoarseNetworkPolicy::Bidirectional),
    {
        match self {
            SandboxCoarseNetworkPolicy::OutboundOnly => true,
            SandboxCoarseNetworkPolicy::Bidirectional => true,
            _ => false,
        }
    }
}

/// Unix sockets only, and none of the connection calls.
pub open spec fn disabled_network() -> SandboxNetworkPolicy {
    SandboxNetworkPolicy {
        allow_unix: true,
        allow_ipv4: false,
        allow_ipv6: false,
        allow_connect: false,
        allow_bind: false,
        allow_listen: false,
        allow_accept: false,
    }
}

/// Every family, and of the connection calls `connect` alone.
pub open spec fn outbound_network() -> SandboxNetworkPolicy {
    SandboxNetworkPolicy {
        allow_unix: true,
        allow_ipv4: true,
        allow_ipv6: true,
        allow_connect: true,
        allow_bind: false,
        allow_listen: false,
        allow_accept: false,
    }
}

/// Every family and every connection call.
pub open spec fn bidirectional_network() -> SandboxNetworkPolicy {
    SandboxNetworkPolicy {
        allow_unix: true,
        allow_ipv4: true,
        allow_ipv6: true,
        allow_connect: true,
        allow_bind: true,
        allow_listen: true,
        allow_accept: true,
    }
}

/// The coarse shape of a policy, where it has one.
pub open spec fn coarse_shape(p: SandboxNetworkPolicy) -> Option<SandboxCoarseNetworkPolicy> {
    if p == disabled_network() {
        Some(SandboxCoarseNetworkPolicy::Disabled)
    } else if p == outbound_network() {
        Some(SandboxCoarseNetworkPolicy::OutboundOnly)
    } else if p == bidirectional_network() {
        Some(SandboxCoarseNetworkPolicy::Bidirectional)
    } else {
        None
    }
}

/// The policy that a coarse shape stands for.
pub open spec fn network_of_shape(shape: SandboxCoarseNetworkPolicy) -> SandboxNetworkPolicy {
    match shape {
        SandboxCoarseNetworkPolicy::Disabled => disabled_network(),
        SandboxCoarseNetworkPolicy::OutboundOnly => outbound_network(),
        SandboxCoarseNetworkPolicy::Bidirectional => bidirectional_network(),
    }
}

impl SandboxNetworkPolicy {
    /// At least one IP family is allowed.
    pub open spec fn has_ip(self) -> bool {
        self.allow_ipv4 || self.allow_ipv6
    }

    /// Blocks IP sockets and the calls `connect`, `bind`, `listen` and `accept`.
    pub fn disabled() -> (r: Self)
        ensures
            r == disabled_network(),
    {
        SandboxNetworkPolicy {
            allow_unix: true,
            allow_ipv4: false,
            allow_ipv6: false,
            allow_connect: false,
            allow_bind: false,
            allow_listen: false,
            allow_accept: false,
        }
    }

    /// Allows outbound connections and blocks listener setup.
    pub fn outbound_only() -> (r: Self)
        ensures
            r == outbound_network(),
    {
        SandboxNetworkPolicy {
            allow_unix: true,
            allow_ipv4: true,
            allow_ipv6: true,
            allow_connect: true,
            allow_bind: false,
            allow_listen: false,
            allow_accept: false,
        }
    }

    /// Allows connections in both directions.
    pub fn bidirectional() -> (r: Self)
        ensures
            r == bidirectional_network(),
    {
        SandboxNetworkPolicy {
            allow_unix: true,
            allow_ipv4: true,
            allow_ipv6: true,
            allow_connect: true,
            allow_bind: true,
            allow_listen: true,
            allow_accept: true,
        }
    }

    /// Whether at least one IP family is allowed.
    pub fn allows_ip_network(self) -> (r: bool)
        ensures
            r == self.has_ip(),
    {
        self.allow_ipv4 || self.allow_ipv6
    }

    /// Whether the command can take IP connections from outside.
    pub fn allows_inbound_ip(self) -> (r: bool)
        ensures
            r == (self.has_ip() && self.allow_bind && self.allow_listen && self.allow_accept),
    {
        self.allows_ip_network() && self.allow_bind && self.allow_listen && self.allow_accept
    }

    /// Whether the command can make IP connections to the outside.
    pub fn allows_outbound_ip(self) -> (r: bool)
        ensures
            r == (self.has_ip() && self.allow_connect),
    {
        self.allows_ip_network() && self.allow_connect
    }

    /// The coarse shape of this policy, where it has one.
    pub fn coarse_policy(self) -> (r: Option<SandboxCoarseNetworkPolicy>)
        ensures
            r == coarse_shape(self),
    {
        if self == Self::disabled() {
            Some(SandboxCoarseNetworkPolicy::Disabled)
        } else if self == Self::outbound_only() {
            Some(SandboxCoarseNetworkPolicy::OutboundOnly)
        } else if self == Self::bidirectional() {
            Some(SandboxCoarseNetworkPolicy::Bidirectional)
        } else {
            None
        }
    }
}

/// What a rule grants on a path.
#[derive(Debug, Clone, Copy, PartialEq, Eq, PartialOrd, Ord, Structural)]
pub enum SandboxPathAccess {
    Deny,
    ReadOnly,
    ReadWrite,
}

/// What can name the path of a rule.
pub trait IntoSandboxPath: Sized {
    /// The bytes of the path.
    spec fn named_path(self) -> Seq<u8>;

    /// The path.
    fn into_path(self) -> (r: SandboxPath)
        ensures
            r@ == self.named_path(),
    ;
}

impl IntoSandboxPath for SandboxPath {
    open spec fn named_path(self) -> Seq<u8> {
        self@
    }

    fn into_path(self) -> (r: SandboxPath) {
        self
    }
}

impl IntoSandboxPath for &str {
    open spec fn named_path(self) -> Seq<u8> {
        vstd::utf8::encode_utf8(self@)
    }

    fn into_path(self) -> (r: SandboxPath) {
        SandboxPath::from_text(self)
    }
}

impl IntoSandboxPath for String {
    open spec fn named_path(self) -> Seq<u8> {
        vstd::utf8::encode_utf8(self@)
    }

    fn into_path(self) -> (r: SandboxPath) {
        SandboxPath::from_text(self.as_str())
    }
}

/// A rule for one path and what lies below it.
#[derive(Debug, PartialEq, Eq)]
pub struct SandboxPathPermission {
    pub path: SandboxPath,
    pub access: SandboxPathAccess,
}

/// The mathematical value of a rule.
pub struct PermissionView {
    pub path: Seq<u8>,
    pub access: SandboxPathAccess,
}

impl View for SandboxPathPermission {
    type V = PermissionView;

    open spec fn view(&self) -> PermissionView {
        PermissionView { path: self.path@, access: self.access }
    }
}

/// The values of a list of rules.
pub open spec fn permission_views(v: Seq<SandboxPathPermission>) -> Seq<PermissionView> {
    Seq::new(v.len(), |i: int| v[i]@)
}

impl Clone for SandboxPathPermission {
    fn clone(&self) -> (r: Self)
        ensures
            r@ == self@,
    {
        SandboxPathPermission { path: self.path.clone(), access: self.access }
    }
}

impl SandboxPathPermission {
    /// Neither readable nor writable.
    pub fn deny<P: IntoSandboxPath>(path: P) -> (r: Self)
        ensures
            r@ == (PermissionView { path: path.named_path(), access: SandboxPathAccess::Deny }),
    {
        SandboxPathPermission { path: path.into_path(), access: SandboxPathAccess::Deny }
    }

    /// Readable but not writable.
    pub fn read_only<P: IntoSandboxPath>(path: P) -> (r: Self)
        ensures
            r@ == (PermissionView { path: path.named_path(), access: SandboxPathAccess::ReadOnly }),
    {
        SandboxPathPermission { path: path.into_path(), access: SandboxPathAccess::ReadOnly }
    }

    /// Readable and writable.
    pub fn read_write<P: IntoSandboxPath>(path: P) -> (r: Self)
        ensures
            r@ == (PermissionView {
                path: path.named_path(),
                access: SandboxPathAccess::ReadWrite,
            }),
    {
        SandboxPathPermission { path: path.into_path(), access: SandboxPathAccess::ReadWrite }
    }
}

/// What a sandboxed command may touch.
#[derive(Debug, PartialEq, Eq)]
pub struct SandboxPolicy {
    pub path_permissions: Vec<SandboxPathPermission>,
    pub default_access: SandboxDefaultAccess,
    pub network_policy: SandboxNetworkPolicy,
}

/// The mathematical value of a policy.
pub struct PolicyView {
    pub path_permissions: Seq<PermissionView>,
    pub default_access: SandboxDefaultAccess,
    pub network_policy: SandboxNetworkPolicy,
}

impl View for SandboxPolicy {
    type V = PolicyView;

    open spec fn view(&self) -> PolicyView {
        PolicyView {
            path_permissions: permission_views(self.path_permissions@),
            default_access: self.default_access,
            network_policy: self.network_policy,
        }
    }
}

/// Two lists of the same rules, place by place: the same access for the same path, however the path
/// is written.
pub open spec fn same_rule_lists(
    style: PathStyle,
    a: Seq<PermissionView>,
    b: Seq<PermissionView>,
) -> bool {
    &&& a.len() == b.len()
    &&& forall|i: int|
        0 <= i < a.len() ==> path_key(style, (#[trigger] a[i]).path) == path_key(style, b[i].path)
            && a[i].access == b[i].access
}

/// The same policy, however its paths are written.
pub open spec fn same_policy(style: PathStyle, a: PolicyView, b: PolicyView) -> bool {
    &&& same_rule_lists(style, a.path_permissions, b.path_permissions)
    &&& a.default_access == b.default_access
    &&& a.network_policy == b.network_policy
}

/// The paths of the rules whose access is among `wanted`, in the order of the rules.
pub open spec fn paths_with(rules: Seq<PermissionView>, wanted: Set<SandboxPathAccess>) -> Seq<
    Seq<u8>,
>
    decreases rules.len(),
{
    if rules.len() == 0 {
        Seq::empty()
    } else {
        let front = paths_with(rules.drop_last(), wanted);
        if wanted.contains(rules.last().access) {
            front.push(rules.last().path)
        } else {
            front
        }
    }
}

impl Default for SandboxPolicy {
    fn default() -> (r: Self)
        ensures
            r@.path_permissions.len() == 0,
            r.default_access == SandboxDefaultAccess::ReadOnly,
            r.network_policy == disabled_network(),
    {
        SandboxPolicy {
            path_permissions: Vec::new(),
            default_access: SandboxDefaultAccess::default(),
            network_policy: SandboxNetworkPolicy::default(),
        }
    }
}

impl Clone for SandboxPolicy {
    fn clone(&self) -> (r: Self)
        ensures
            r@ == self@,
    {
        SandboxPolicy {
            path_permissions: copy_permissions(&self.path_permissions),
            default_access: self.default_access,
            network_policy: self.network_policy,
        }
    }
}

fn copy_permissions(v: &Vec<SandboxPathPermission>) -> (r: Vec<SandboxPathPermission>)
    ensures
        permission_views(r@) == permission_views(v@),
{
    let mut r: Vec<SandboxPathPermission> = Vec::new();
    for i in 0..v.len()
        invariant
            r.len() == i,
            forall|j: int| 0 <= j < i ==> (#[trigger] r@[j])@ == v@[j]@,
    {
        let rule = v[i].clone();
        r.push(rule);
    }
    assert(permission_views(r@) =~= permission_views(v@));
    r
}

impl SandboxPolicy {
    /// The paths that may be read but not written.
    pub fn read_only_paths(&self) -> (r: Vec<SandboxPath>)
        ensures
            path_views(r@) == paths_with(
                self@.path_permissions,
                set![SandboxPathAccess::ReadOnly],
            ),
    {
        let r = self.collect_paths(false, true, false);
        assert(access_set(false, true, false) =~= set![SandboxPathAccess::ReadOnly]);
        r
    }

    /// The paths that may be neither read nor written.
    pub fn denied_paths(&self) -> (r: Vec<SandboxPath>)
        ensures
            path_views(r@) == paths_with(self@.path_permissions, set![SandboxPathAccess::Deny]),
    {
        let r = self.collect_paths(true, false, false);
        assert(access_set(true, false, false) =~= set![SandboxPathAccess::Deny]);
        r
    }

    /// The paths that may be read and written.
    pub fn read_write_paths(&self) -> (r: Vec<SandboxPath>)
        ensures
            path_views(r@) == paths_with(
                self@.path_permissions,
                set![SandboxPathAccess::ReadWrite],
            ),
    {
        let r = self.collect_paths(false, false, true);
        assert(access_set(false, false, true) =~= set![SandboxPathAccess::ReadWrite]);
        r
    }

    /// The paths that may be read.
    pub fn readable_paths(&self) -> (r: Vec<SandboxPath>)
        ensures
            path_views(r@) == paths_with(
                self@.path_permissions,
                set![SandboxPathAccess::ReadOnly, SandboxPathAccess::ReadWrite],
            ),
    {
        let r = self.collect_paths(false, true, true);
        assert(access_set(false, true, true) =~= set![
            SandboxPathAccess::ReadOnly,
            SandboxPathAccess::ReadWrite,
        ]);
        r
    }

    /// The paths that may be written.
    pub fn writable_paths(&self) -> (r: Vec<SandboxPath>)
        ensures
            path_views(r@) == paths_with(
                self@.path_permissions,
                set![SandboxPathAccess::ReadWrite],
            ),
    {
        self.read_write_paths()
    }

    /// Whether paths that no rule names may be written.
    pub fn default_write_access(&self) -> (r: bool)
        ensures
            r == (self.default_access == SandboxDefaultAccess::ReadWrite),
    {
        match self.default_access {
            SandboxDefaultAccess::ReadWrite => true,
            SandboxDefaultAccess::ReadOnly => false,
        }
    }

    fn collect_paths(&self, deny: bool, read_only: bool, read_write: bool) -> (r: Vec<SandboxPath>)
        ensures
            path_views(r@) == paths_with(
                self@.path_permissions,
                access_set(deny, read_only, read_write),
            ),
    {
        let mut r: Vec<SandboxPath> = Vec::new();
        let ghost rules = self@.path_permissions;
        let ghost wanted = access_set(deny, read_only, read_write);
        assert(path_views(r@) =~= paths_with(rules.take(0), wanted));
        for i in 0..self.path_permissions.len()
            invariant
                rules == permission_views(self.path_permissions@),
                wanted == access_set(deny, read_only, read_write),
                path_views(r@) == paths_with(rules.take(i as int), wanted),
        {
            let rule = &self.path_permissions[i];
            proof {
                assert(rules.take(i + 1).drop_last() =~= rules.take(i as int));
                assert(rules.take(i + 1).last() == rule@);
            }
            let keep = match rule.access {
                SandboxPathAccess::Deny => deny,
                SandboxPathAccess::ReadOnly => read_only,
                SandboxPathAccess::ReadWrite => read_write,
            };
            if keep {
                let ghost before = path_views(r@);
                r.push(rule.path.clone());
                assert(path_views(r@) =~= before.push(rule@.path));
            }
        }
        assert(rules.take(rules.len() as int) =~= rules);
        r
    }
}

/// The accesses that three flags pick out.
pub open spec fn access_set(deny: bool, read_only: bool, read_write: bool) -> Set<
    SandboxPathAccess,
> {
    Set::new(
        |a: SandboxPathAccess|
            match a {
                SandboxPathAccess::Deny => deny,
                SandboxPathAccess::ReadOnly => read_only,
                SandboxPathAccess::ReadWrite => read_write,
            },
    )
}

/// A policy has the coarse shape that it was made from, and no other policy has that shape.
pub proof fn coarse_shape_is_exact(p: SandboxNetworkPolicy, shape: SandboxCoarseNetworkPolicy)
    ensures
        coarse_shape(p) == Some(shape) <==> p == network_of_shape(shape),
{
}

/// The paths that are listed for some accesses are those of the rules with one of them.
pub proof fn listed_paths_are_those_of_the_rules(
    rules: Seq<PermissionView>,
    wanted: Set<SandboxPathAccess>,
    path: Seq<u8>,
)
    ensures
        paths_with(rules, wanted).contains(path) <==> exists|i: int|
            0 <= i < rules.len() && (#[trigger] rules[i]).path == path && wanted.contains(
                rules[i].access,
            ),
    decreases rules.len(),
{
    if rules.len() > 0 {
        let f = rules.drop_last();
        let front = paths_with(f, wanted);
        let all = paths_with(rules, wanted);
        listed_paths_are_those_of_the_rules(f, wanted, path);
        if all.contains(path) {
            let k = choose|k: int| 0 <= k < all.len() && all[k] == path;
            if k < front.len() {
                assert(front[k] == path);
                let i = choose|i: int|
                    0 <= i < f.len() && (#[trigger] f[i]).path == path && wanted.contains(
                        f[i].access,
                    );
                assert(rules[i] == f[i]);
            } else {
                assert(rules[rules.len() - 1].path == path);
            }
        }
        if exists|i: int|
            0 <= i < rules.len() && (#[trigger] rules[i]).path == path && wanted.contains(
                rules[i].access,
            ) {
            let i = choose|i: int|
                0 <= i < rules.len() && (#[trigger] rules[i]).path == path && wanted.contains(
                    rules[i].access,
                );
            if i < f.len() {
                assert(f[i] == rules[i]);
                assert(front.contains(path));
                let k = choose|k: int| 0 <= k < front.len() && front[k] == path;
                assert(all[k] == path);
            } else {
                assert(all[all.len() - 1] == path);
            }
        }
    }
}

/// Paths are listed rule by rule: those of two lists of rules one behind the other are listed one
/// behind the other, and a single rule lists its own path or nothing.
pub proof fn paths_are_listed_rule_by_rule(
    a: Seq<PermissionView>,
    b: Seq<PermissionView>,
    wanted: Set<SandboxPathAccess>,
    rule: PermissionView,
)
    ensures
        paths_with(a + b, wanted) == paths_with(a, wanted) + paths_with(b, wanted),
        wanted.contains(rule.access) ==> paths_with(seq![rule], wanted) == seq![rule.path],
        !wanted.contains(rule.access) ==> paths_with(seq![rule], wanted).len() == 0,
    decreases b.len(),
{
    let one = seq![rule];
    assert(one.drop_last() =~= Seq::empty());
    assert(paths_with(one.drop_last(), wanted) =~= Seq::empty());
    assert(wanted.contains(rule.access) ==> paths_with(one, wanted) =~= seq![rule.path]);
    if b.len() == 0 {
        assert(a + b =~= a);
        assert(paths_with(a, wanted) + paths_with(b, wanted) =~= paths_with(a, wanted));
    } else {
        let f = b.drop_last();
        paths_are_listed_rule_by_rule(a, f, wanted, rule);
        assert((a + b).drop_last() =~= a + f);
        assert((a + b).last() == b.last());
        assert(paths_with(a + b, wanted) =~= paths_with(a, wanted) + paths_with(b, wanted));
    }
}

/// What the three coarse shapes allow: all of them local sockets; all but the one without network
/// both IP families and connecting; and only the one for both directions binding, listening and
/// accepting.
pub proof fn coarse_shapes_allow_what_their_names_say(shape: SandboxCoarseNetworkPolicy)
    ensures
        ({
            let p = network_of_shape(shape);
            let outbound = shape != SandboxCoarseNetworkPolicy::Disabled;
            let inbound = shape == SandboxCoarseNetworkPolicy::Bidirectional;
            &&& p.allow_unix
            &&& p.allow_ipv4 == outbound && p.allow_ipv6 == outbound && p.allow_connect == outbound
            &&& p.allow_bind == inbound && p.allow_listen == inbound && p.allow_accept == inbound
            &&& p.has_ip() == outbound
            &&& coarse_shape(p) == Some(shape)
        }),
{
}

/// A network policy has a coarse shape only where it is exactly the policy of that shape.
pub proof fn only_exact_policies_have_a_shape(p: SandboxNetworkPolicy)
    ensures
        coarse_shape(p) matches Some(shape) ==> network_of_shape(shape) == p,
        coarse_shape(p) is None ==> p != network_of_shape(SandboxCoarseNetworkPolicy::Disabled) && p
            != network_of_shape(SandboxCoarseNetworkPolicy::OutboundOnly) && p != network_of_shape(
            SandboxCoarseNetworkPolicy::Bidirectional,
        ),
        p.has_ip() <==> p.allow_ipv4 || p.allow_ipv6,
{
}

/// One of the rules gives a path an access.
pub open spec fn has_rule(
    rules: Seq<PermissionView>,
    access: SandboxPathAccess,
    path: Seq<u8>,
) -> bool {
    exists|i: int|
        0 <= i < rules.len() && (#[trigger] rules[i]).access == access && rules[i].path == path
}

} // verus!
