//! From the rules that a caller writes to the rules that a platform enforces.
//!
//! Rules for the same path collapse into the strictest one, rules that grant what the default
//! grants anyway disappear, and what is left is ordered from the root down. A list that would
//! reopen something below a denied path is rejected.
use vstd::prelude::*;
use vstd::string::StringExecFns;

use crate::bytes::{
    comes_before, dictionary_less, dictionary_order_is_total, dictionary_order_is_transitive,
    same_numbers,
};
use crate::error::{ErrorView, SandboxError};
use crate::path::{
    depth, display_text, is_below, is_same_or_descendant, path_key, PathStyle, SandboxPath,
};
use crate::policy::{
    permission_views, PermissionView, SandboxDefaultAccess, SandboxPathAccess,
    SandboxPathPermission,
};

verus! {

/// The access other than denial that differs from the default.
pub open spec fn other_access(default_access: SandboxDefaultAccess) -> SandboxPathAccess {
    match default_access {
        SandboxDefaultAccess::ReadOnly => SandboxPathAccess::ReadWrite,
        SandboxDefaultAccess::ReadWrite => SandboxPathAccess::ReadOnly,
    }
}

/// Some rule gives `access` to the path with this key.
pub open spec fn grants(
    style: PathStyle,
    rules: Seq<PermissionView>,
    key: Seq<u32>,
    access: SandboxPathAccess,
) -> bool {
    exists|i: int|
        0 <= i < rules.len() && path_key(style, (#[trigger] rules[i]).path) == key
            && rules[i].access == access
}

/// What all rules for one path amount to: denial if one of them denies, else the access that
/// differs from the default if one of them gives it, else nothing.
pub open spec fn effective_access(
    style: PathStyle,
    default_access: SandboxDefaultAccess,
    rules: Seq<PermissionView>,
    key: Seq<u32>,
) -> Option<SandboxPathAccess> {
    if grants(style, rules, key, SandboxPathAccess::Deny) {
        Some(SandboxPathAccess::Deny)
    } else if grants(style, rules, key, other_access(default_access)) {
        Some(other_access(default_access))
    } else {
        None
    }
}

/// The first rule for its path.
pub open spec fn is_first_rule(style: PathStyle, rules: Seq<PermissionView>, i: int) -> bool {
    &&& 0 <= i < rules.len()
    &&& forall|j: int|
        0 <= j < i ==> path_key(style, (#[trigger] rules[j]).path) != path_key(style, rules[i].path)
}

/// `entry` is what the rules for one path amount to; the path is written as the first rule for
/// it writes it.
pub open spec fn is_overlay(
    style: PathStyle,
    default_access: SandboxDefaultAccess,
    rules: Seq<PermissionView>,
    entry: PermissionView,
) -> bool {
    exists|i: int| #[trigger]
        is_first_rule(style, rules, i) && entry.path == rules[i].path && effective_access(
            style,
            default_access,
            rules,
            path_key(style, rules[i].path),
        ) == Some(entry.access)
}

/// The order of entries: fewer components first, and then component by component.
pub open spec fn ranks_before(style: PathStyle, a: Seq<u8>, b: Seq<u8>) -> bool {
    depth(style, a) < depth(style, b) || (depth(style, a) == depth(style, b) && dictionary_less(
        path_key(style, a),
        path_key(style, b),
    ))
}

/// Entries in strictly ascending order.
pub open spec fn is_ranked(style: PathStyle, entries: Seq<PermissionView>) -> bool {
    forall|i: int, j: int|
        0 <= i < j < entries.len() ==> ranks_before(
            style,
            (#[trigger] entries[i]).path,
            (#[trigger] entries[j]).path,
        )
}

/// `entries` is what the rules amount to, path by path, in order.
pub open spec fn collapses_to(
    style: PathStyle,
    default_access: SandboxDefaultAccess,
    rules: Seq<PermissionView>,
    entries: Seq<PermissionView>,
) -> bool {
    &&& is_ranked(style, entries)
    &&& forall|e: PermissionView| #[trigger]
        entries.contains(e) <==> is_overlay(style, default_access, rules, e)
}

/// The entry at `i` gives access below the denied path at `j`.
pub open spec fn reopens(style: PathStyle, entries: Seq<PermissionView>, i: int, j: int) -> bool {
    &&& 0 <= i < entries.len()
    &&& 0 <= j < entries.len()
    &&& entries[i].access != SandboxPathAccess::Deny
    &&& entries[j].access == SandboxPathAccess::Deny
    &&& path_key(style, entries[j].path) != path_key(style, entries[i].path)
    &&& is_below(style, entries[i].path, entries[j].path)
}

/// No entry gives access below a denied path.
pub open spec fn nothing_reopens(style: PathStyle, entries: Seq<PermissionView>) -> bool {
    forall|i: int, j: int| !#[trigger] reopens(style, entries, i, j)
}

/// The first entry that gives access below a denied path, and the first such path.
pub open spec fn is_first_reopening(
    style: PathStyle,
    entries: Seq<PermissionView>,
    i: int,
    j: int,
) -> bool {
    &&& reopens(style, entries, i, j)
    &&& forall|b: int| b < j ==> !#[trigger] reopens(style, entries, i, b)
    &&& forall|a: int, b: int| a < i ==> !#[trigger] reopens(style, entries, a, b)
}

/// The name of an access in messages.
pub open spec fn access_label(access: SandboxPathAccess) -> Seq<char> {
    match access {
        SandboxPathAccess::Deny => "deny"@,
        SandboxPathAccess::ReadOnly => "read_only"@,
        SandboxPathAccess::ReadWrite => "read_write"@,
    }
}

/// The error that a reopening gives.
pub open spec fn reopening_error(
    style: PathStyle,
    entry: PermissionView,
    ancestor: PermissionView,
) -> ErrorView {
    ErrorView::InvalidRequest(
        access_label(entry.access) + " path cannot reopen access under deny ancestor "@
            + display_text(style, ancestor.path) + ": "@ + display_text(style, entry.path),
    )
}

/// Some entry with the same access already covers this path.
pub open spec fn is_covered(
    style: PathStyle,
    entries: Seq<PermissionView>,
    entry: PermissionView,
) -> bool {
    exists|k: int|
        0 <= k < entries.len() && (#[trigger] entries[k]).access == entry.access && is_below(
            style,
            entry.path,
            entries[k].path,
        )
}

/// The entries without those that an earlier one with the same access covers.
pub open spec fn pruned(style: PathStyle, entries: Seq<PermissionView>) -> Seq<PermissionView>
    decreases entries.len(),
{
    if entries.len() == 0 {
        Seq::empty()
    } else {
        let front = pruned(style, entries.drop_last());
        if is_covered(style, front, entries.last()) {
            front
        } else {
            front.push(entries.last())
        }
    }
}

/// How strongly a rule asks for something other than the default.
pub open spec fn priority_of(
    default_access: SandboxDefaultAccess,
    access: SandboxPathAccess,
) -> u8 {
    if access == SandboxPathAccess::Deny {
        2
    } else if access == other_access(default_access) {
        1
    } else {
        0
    }
}

/// The access that a priority stands for.
pub open spec fn access_of_priority(
    default_access: SandboxDefaultAccess,
    priority: u8,
) -> Option<SandboxPathAccess> {
    if priority == 2 {
        Some(SandboxPathAccess::Deny)
    } else if priority == 1 {
        Some(other_access(default_access))
    } else {
        None
    }
}

/// The name of an access in messages.
pub fn path_access_label(access: SandboxPathAccess) -> (r: &'static str)
    ensures
        r@ == access_label(access),
{
    match access {
        SandboxPathAccess::Deny => "deny",
        SandboxPathAccess::ReadOnly => "read_only",
        SandboxPathAccess::ReadWrite => "read_write",
    }
}

/// How strongly a rule asks for something other than the default.
pub fn explicit_priority(default_access: SandboxDefaultAccess, access: SandboxPathAccess) -> (r: u8)
    ensures
        r == priority_of(default_access, access),
{
    match (default_access, access) {
        (_, SandboxPathAccess::Deny) => 2,
        (SandboxDefaultAccess::ReadOnly, SandboxPathAccess::ReadOnly) => 0,
        (SandboxDefaultAccess::ReadWrite, SandboxPathAccess::ReadWrite) => 0,
        (SandboxDefaultAccess::ReadOnly, SandboxPathAccess::ReadWrite) => 1,
        (SandboxDefaultAccess::ReadWrite, SandboxPathAccess::ReadOnly) => 1,
    }
}

/// The access that a priority stands for.
pub fn access_for_priority(default_access: SandboxDefaultAccess, priority: u8) -> (r: Option<
    SandboxPathAccess,
>)
    ensures
        r == access_of_priority(default_access, priority),
{
    if priority == 2 {
        Some(SandboxPathAccess::Deny)
    } else if priority == 1 {
        match default_access {
            SandboxDefaultAccess::ReadOnly => Some(SandboxPathAccess::ReadWrite),
            SandboxDefaultAccess::ReadWrite => Some(SandboxPathAccess::ReadOnly),
        }
    } else {
        None
    }
}

/// One path with the strongest priority that the rules seen so far give it.
struct Collapsed {
    path: SandboxPath,
    key: Vec<u32>,
    priority: u8,
}

/// The strongest priority that a list of rules gives to a path; `None` where no rule names it.
spec fn strongest(
    style: PathStyle,
    default_access: SandboxDefaultAccess,
    rules: Seq<PermissionView>,
    key: Seq<u32>,
) -> Option<u8>
    decreases rules.len(),
{
    if rules.len() == 0 {
        None
    } else {
        let front = strongest(style, default_access, rules.drop_last(), key);
        if path_key(style, rules.last().path) == key {
            let p = priority_of(default_access, rules.last().access);
            match front {
                Some(q) => if p > q {
                    Some(p)
                } else {
                    Some(q)
                },
                None => Some(p),
            }
        } else {
            front
        }
    }
}

proof fn lemma_strongest(
    style: PathStyle,
    default_access: SandboxDefaultAccess,
    rules: Seq<PermissionView>,
    key: Seq<u32>,
)
    ensures
        strongest(style, default_access, rules, key) is None <==> forall|i: int|
            0 <= i < rules.len() ==> path_key(style, (#[trigger] rules[i]).path) != key,
        strongest(style, default_access, rules, key) matches Some(p) ==> access_of_priority(
            default_access,
            p,
        ) == effective_access(style, default_access, rules, key) && p <= 2,
    decreases rules.len(),
{
    if rules.len() > 0 {
        let f = rules.drop_last();
        let n = rules.len() - 1;
        lemma_strongest(style, default_access, f, key);
        assert forall|a: SandboxPathAccess|
            grants(style, rules, key, a) <==> grants(style, f, key, a) || (path_key(
                style,
                rules[n].path,
            ) == key && rules[n].access == a) by {
            if grants(style, f, key, a) {
                let i = choose|i: int|
                    0 <= i < f.len() && path_key(style, (#[trigger] f[i]).path) == key
                        && f[i].access == a;
                assert(rules[i] == f[i]);
            }
            if grants(style, rules, key, a) {
                let i = choose|i: int|
                    0 <= i < rules.len() && path_key(style, (#[trigger] rules[i]).path) == key
                        && rules[i].access == a;
                if i < n {
                    assert(f[i] == rules[i]);
                }
            }
        }
        assert(forall|i: int| 0 <= i < f.len() ==> f[i] == rules[i]);
        if strongest(style, default_access, f, key) is None {
            assert forall|a: SandboxPathAccess| !grants(style, f, key, a) by {}
        }
    }
}

/// Some first rule writes this path.
spec fn is_written_first(style: PathStyle, rules: Seq<PermissionView>, path: Seq<u8>) -> bool {
    exists|i: int| #[trigger] is_first_rule(style, rules, i) && rules[i].path == path
}

/// Some collapsed path is written like this.
spec fn is_listed(c: Seq<Collapsed>, path: Seq<u8>) -> bool {
    exists|k: int| 0 <= k < c.len() && (#[trigger] c[k]).path@ == path
}

/// The collapsed path at `k` has its key and the strongest priority.
spec fn is_weighed(
    style: PathStyle,
    default_access: SandboxDefaultAccess,
    rules: Seq<PermissionView>,
    c: Collapsed,
) -> bool {
    &&& c.key@ == path_key(style, c.path@)
    &&& strongest(style, default_access, rules, c.key@) == Some(c.priority)
}

/// What is known of a list of collapsed paths: one for each path that the rules name, written as
/// the first rule for it writes it, with the strongest priority.
spec fn is_collapse(
    style: PathStyle,
    default_access: SandboxDefaultAccess,
    rules: Seq<PermissionView>,
    c: Seq<Collapsed>,
) -> bool {
    &&& forall|k: int| 0 <= k < c.len() ==> is_weighed(style, default_access, rules, #[trigger] c[k])
    &&& forall|k: int|
        0 <= k < c.len() ==> #[trigger] is_written_first(style, rules, c[k].path@)
    &&& forall|k: int, l: int|
        0 <= k < l < c.len() ==> (#[trigger] c[k]).key@ != (#[trigger] c[l]).key@
    &&& forall|i: int|
        is_first_rule(style, rules, i) ==> #[trigger] is_listed(c, rules[i].path)
}

proof fn lemma_first_rule_of_more(style: PathStyle, rules: Seq<PermissionView>, n: int)
    requires
        0 <= n < rules.len(),
    ensures
        forall|i: int|
            i < n ==> (#[trigger] is_first_rule(style, rules.take(n + 1), i) <==> is_first_rule(
                style,
                rules.take(n),
                i,
            )),
        forall|i: int| #[trigger] is_first_rule(style, rules.take(n), i) ==> i < n,
        forall|i: int| #[trigger] is_first_rule(style, rules.take(n + 1), i) ==> i <= n,
{
    assert forall|i: int| i < n implies (#[trigger] is_first_rule(style, rules.take(n + 1), i)
        <==> is_first_rule(style, rules.take(n), i)) by {
        assert(forall|j: int| 0 <= j < n ==> rules.take(n)[j] == rules.take(n + 1)[j]);
        if is_first_rule(style, rules.take(n + 1), i) {
            assert forall|j: int| 0 <= j < i implies path_key(
                style,
                (#[trigger] rules.take(n)[j]).path,
            ) != path_key(style, rules.take(n)[i].path) by {
                assert(rules.take(n + 1)[j] == rules.take(n)[j]);
            }
        }
    }
}

/// Every rule has a first rule for its path.
pub proof fn lemma_first_rule_exists(style: PathStyle, rules: Seq<PermissionView>, i: int)
    requires
        0 <= i < rules.len(),
    ensures
        exists|f: int| #[trigger]
            is_first_rule(style, rules, f) && f <= i && path_key(style, rules[f].path) == path_key(
                style,
                rules[i].path,
            ),
    decreases i,
{
    if !is_first_rule(style, rules, i) {
        let j = choose|j: int|
            0 <= j < i && path_key(style, (#[trigger] rules[j]).path) == path_key(
                style,
                rules[i].path,
            );
        lemma_first_rule_exists(style, rules, j);
    }
}

/// A rule for a path that is already there can only raise its priority.
proof fn lemma_collapse_raised(
    style: PathStyle,
    default_access: SandboxDefaultAccess,
    before: Seq<PermissionView>,
    rule: PermissionView,
    was: Seq<Collapsed>,
    now: Seq<Collapsed>,
    at: int,
)
    requires
        is_collapse(style, default_access, before, was),
        0 <= at < was.len(),
        was[at].key@ == path_key(style, rule.path),
        now == was.update(
            at,
            Collapsed {
                priority: if priority_of(default_access, rule.access) > was[at].priority {
                    priority_of(default_access, rule.access)
                } else {
                    was[at].priority
                },
                ..was[at]
            },
        ),
    ensures
        is_collapse(style, default_access, before.push(rule), now),
{
    let after = before.push(rule);
    let n = before.len() as int;
    assert(after.drop_last() =~= before);
    assert(after.take(n) =~= before);
    assert(after.take(n + 1) =~= after);
    lemma_first_rule_of_more(style, after, n);
    assert forall|k: int| 0 <= k < now.len() implies is_weighed(
        style,
        default_access,
        after,
        #[trigger] now[k],
    ) by {
        assert(is_weighed(style, default_access, before, was[k]));
        assert(is_weighed(style, default_access, before, was[at]));
        if k < at {
            assert(was[k].key@ != was[at].key@);
        } else if k > at {
            assert(was[at].key@ != was[k].key@);
        }
    }
    assert forall|k: int| 0 <= k < now.len() implies #[trigger] is_written_first(
        style,
        after,
        now[k].path@,
    ) by {
        assert(is_written_first(style, before, was[k].path@));
        let i = choose|i: int| #[trigger]
            is_first_rule(style, before, i) && before[i].path == was[k].path@;
        assert(is_first_rule(style, after, i) && after[i].path == now[k].path@);
    }
    assert forall|k: int, l: int| 0 <= k < l < now.len() implies (#[trigger] now[k]).key@ != (
    #[trigger] now[l]).key@ by {
        assert(was[k].key@ != was[l].key@);
    }
    assert forall|i: int| is_first_rule(style, after, i) implies #[trigger] is_listed(
        now,
        after[i].path,
    ) by {
        if i == n {
            assert(is_written_first(style, before, was[at].path@));
            let f = choose|f: int| #[trigger]
                is_first_rule(style, before, f) && before[f].path == was[at].path@;
            assert(is_weighed(style, default_access, before, was[at]));
            assert(path_key(style, after[f].path) == path_key(style, after[i].path));
        } else {
            assert(is_first_rule(style, before, i));
            assert(is_listed(was, before[i].path));
            let k = choose|k: int|
                0 <= k < was.len() && (#[trigger] was[k]).path@ == before[i].path;
            assert(now[k].path@ == after[i].path);
        }
    }
}

/// A rule for a path that is not there yet adds it.
proof fn lemma_collapse_added(
    style: PathStyle,
    default_access: SandboxDefaultAccess,
    before: Seq<PermissionView>,
    rule: PermissionView,
    was: Seq<Collapsed>,
    added: Collapsed,
)
    requires
        is_collapse(style, default_access, before, was),
        forall|k: int| 0 <= k < was.len() ==> (#[trigger] was[k]).key@ != added.key@,
        added.path@ == rule.path,
        added.key@ == path_key(style, rule.path),
        added.priority == priority_of(default_access, rule.access),
    ensures
        is_collapse(style, default_access, before.push(rule), was.push(added)),
{
    let after = before.push(rule);
    let now = was.push(added);
    let n = before.len() as int;
    assert(after.drop_last() =~= before);
    assert(after.take(n) =~= before);
    assert(after.take(n + 1) =~= after);
    lemma_first_rule_of_more(style, after, n);
    lemma_strongest(style, default_access, before, added.key@);
    assert forall|i: int| 0 <= i < n implies path_key(style, (#[trigger] before[i]).path)
        != added.key@ by {
        if path_key(style, before[i].path) == added.key@ {
            lemma_first_rule_exists(style, before, i);
            let f = choose|f: int| #[trigger]
                is_first_rule(style, before, f) && f <= i && path_key(style, before[f].path)
                    == path_key(style, before[i].path);
            assert(is_listed(was, before[f].path));
            let k = choose|k: int|
                0 <= k < was.len() && (#[trigger] was[k]).path@ == before[f].path;
            assert(is_weighed(style, default_access, before, was[k]));
            assert(was[k].key@ == added.key@);
        }
    }
    assert(is_first_rule(style, after, n)) by {
        assert forall|j: int| 0 <= j < n implies path_key(style, (#[trigger] after[j]).path)
            != path_key(style, after[n].path) by {
            assert(after[j] == before[j]);
        }
    }
    assert forall|k: int| 0 <= k < now.len() implies is_weighed(
        style,
        default_access,
        after,
        #[trigger] now[k],
    ) by {
        if k < was.len() {
            assert(is_weighed(style, default_access, before, was[k]));
        }
    }
    assert forall|k: int| 0 <= k < now.len() implies #[trigger] is_written_first(
        style,
        after,
        now[k].path@,
    ) by {
        if k < was.len() {
            assert(is_written_first(style, before, was[k].path@));
            let i = choose|i: int| #[trigger]
                is_first_rule(style, before, i) && before[i].path == was[k].path@;
            assert(is_first_rule(style, after, i) && after[i].path == now[k].path@);
        } else {
            assert(is_first_rule(style, after, n) && after[n].path == now[k].path@);
        }
    }
    assert forall|i: int| is_first_rule(style, after, i) implies #[trigger] is_listed(
        now,
        after[i].path,
    ) by {
        if i == n {
            assert(now[was.len() as int].path@ == after[i].path);
        } else {
            assert(is_first_rule(style, before, i));
            assert(is_listed(was, before[i].path));
            let k = choose|k: int|
                0 <= k < was.len() && (#[trigger] was[k]).path@ == before[i].path;
            assert(now[k].path@ == after[i].path);
        }
    }
}

fn collapse(
    style: PathStyle,
    default_access: SandboxDefaultAccess,
    rules: &Vec<SandboxPathPermission>,
) -> (out: Vec<Collapsed>)
    ensures
        is_collapse(style, default_access, permission_views(rules@), out@),
{
    let mut out: Vec<Collapsed> = Vec::new();
    let ghost all = permission_views(rules@);
    for n in 0..rules.len()
        invariant
            all == permission_views(rules@),
            is_collapse(style, default_access, all.take(n as int), out@),
    {
        let ghost was = out@;
        let rule = &rules[n];
        let key = rule.path.key(style);
        let priority: u8 = explicit_priority(default_access, rule.access);
        assert(all.take(n + 1) =~= all.take(n as int).push(rule@));
        let mut at: usize = 0;
        while at < out.len() && !same_numbers(&out[at].key, &key)
            invariant
                at <= out.len(),
                out@ == was,
                forall|k: int| 0 <= k < at ==> (#[trigger] was[k]).key@ != key@,
            decreases out.len() - at,
        {
            at = at + 1;
        }
        if at < out.len() {
            let current: u8 = out[at].priority;
            if priority > current {
                out[at].priority = priority;
            }
            proof {
                let raised = Collapsed {
                    priority: if priority > current {
                        priority
                    } else {
                        current
                    },
                    ..was[at as int]
                };
                assert(out@ =~= was.update(at as int, raised));
                lemma_collapse_raised(
                    style,
                    default_access,
                    all.take(n as int),
                    rule@,
                    was,
                    out@,
                    at as int,
                );
            }
        } else {
            let path = rule.path.clone();
            let added = Collapsed { path, key, priority };
            proof {
                lemma_collapse_added(
                    style,
                    default_access,
                    all.take(n as int),
                    rule@,
                    was,
                    added,
                );
            }
            out.push(added);
        }
    }
    assert(all.take(all.len() as int) =~= all);
    out
}

/// The order of entries carries over chains.
pub proof fn ranking_is_transitive(style: PathStyle, a: Seq<u8>, b: Seq<u8>, c: Seq<u8>)
    requires
        ranks_before(style, a, b),
        ranks_before(style, b, c),
    ensures
        ranks_before(style, a, c),
{
    if depth(style, a) == depth(style, b) && depth(style, b) == depth(style, c) {
        dictionary_order_is_transitive(
            path_key(style, a),
            path_key(style, b),
            path_key(style, c),
        );
    }
}

/// Of two paths exactly one comes first, unless they are the same path.
pub proof fn ranking_is_total(style: PathStyle, a: Seq<u8>, b: Seq<u8>)
    ensures
        !(ranks_before(style, a, b) && ranks_before(style, b, a)),
        path_key(style, a) != path_key(style, b) ==> ranks_before(style, a, b) || ranks_before(
            style,
            b,
            a,
        ),
        path_key(style, a) == path_key(style, b) && depth(style, a) == depth(style, b)
            ==> !ranks_before(style, a, b),
{
    dictionary_order_is_total(path_key(style, a), path_key(style, b));
}

/// An entry with what it is ordered by.
struct Ranked {
    rule: SandboxPathPermission,
    depth: usize,
    key: Vec<u32>,
}

spec fn ranked_views(v: Seq<Ranked>) -> Seq<PermissionView> {
    Seq::new(v.len(), |i: int| v[i].rule@)
}

spec fn is_measured(style: PathStyle, x: Ranked) -> bool {
    x.depth == depth(style, x.rule@.path) && x.key@ == path_key(style, x.rule@.path)
}

fn goes_before(style: PathStyle, a: &Ranked, b: &Ranked) -> (r: bool)
    requires
        is_measured(style, *a),
        is_measured(style, *b),
    ensures
        r == ranks_before(style, a.rule@.path, b.rule@.path),
{
    a.depth < b.depth || (a.depth == b.depth && comes_before(&a.key, &b.key))
}

/// The place at which an entry keeps a list in order.
fn place_of(style: PathStyle, list: &Vec<Ranked>, x: &Ranked) -> (at: usize)
    requires
        is_ranked(style, ranked_views(list@)),
        forall|k: int| 0 <= k < list.len() ==> is_measured(style, #[trigger] list@[k]),
        is_measured(style, *x),
        forall|k: int| 0 <= k < list.len() ==> (#[trigger] list@[k]).key@ != x.key@,
    ensures
        at <= list.len(),
        is_ranked(style, ranked_views(list@.insert(at as int, *x))),
{
    let mut at: usize = 0;
    while at < list.len() && goes_before(style, &list[at], x)
        invariant
            at <= list.len(),
            forall|k: int| 0 <= k < list.len() ==> is_measured(style, #[trigger] list@[k]),
            is_measured(style, *x),
            forall|k: int|
                0 <= k < at ==> ranks_before(style, (#[trigger] list@[k]).rule@.path, x.rule@.path),
        decreases list.len() - at,
    {
        at = at + 1;
    }
    proof {
        let old_views = ranked_views(list@);
        let views = ranked_views(list@.insert(at as int, *x));
        assert forall|k: int| at <= k < list.len() implies ranks_before(
            style,
            x.rule@.path,
            (#[trigger] list@[k]).rule@.path,
        ) by {
            let first = list@[at as int];
            assert(is_measured(style, first));
            ranking_is_total(style, first.rule@.path, x.rule@.path);
            if k > at {
                assert(ranks_before(style, old_views[at as int].path, old_views[k].path));
                ranking_is_transitive(
                    style,
                    x.rule@.path,
                    first.rule@.path,
                    list@[k].rule@.path,
                );
            }
        }
        assert forall|i: int, j: int| 0 <= i < j < views.len() implies ranks_before(
            style,
            (#[trigger] views[i]).path,
            (#[trigger] views[j]).path,
        ) by {
            if i < at && j < at {
                assert(ranks_before(style, old_views[i].path, old_views[j].path));
            } else if i < at && j == at {
                assert(ranks_before(style, list@[i].rule@.path, x.rule@.path));
            } else if i < at {
                assert(ranks_before(style, old_views[i].path, old_views[j - 1].path));
            } else if i == at {
                assert(ranks_before(style, x.rule@.path, list@[j - 1].rule@.path));
            } else {
                assert(ranks_before(style, old_views[i - 1].path, old_views[j - 1].path));
            }
        }
    }
    at
}

/// A collapsed path stands for this entry.
spec fn stands_for(
    default_access: SandboxDefaultAccess,
    c: Collapsed,
    e: PermissionView,
) -> bool {
    c.path@ == e.path && access_of_priority(default_access, c.priority) == Some(e.access)
}

/// Some of the first `n` collapsed paths stands for this entry.
spec fn is_stood_for(
    default_access: SandboxDefaultAccess,
    c: Seq<Collapsed>,
    n: int,
    e: PermissionView,
) -> bool {
    exists|k: int| 0 <= k < n && stands_for(default_access, #[trigger] c[k], e)
}

proof fn lemma_collapse_is_overlay(
    style: PathStyle,
    default_access: SandboxDefaultAccess,
    rules: Seq<PermissionView>,
    c: Seq<Collapsed>,
    e: PermissionView,
)
    requires
        is_collapse(style, default_access, rules, c),
    ensures
        is_stood_for(default_access, c, c.len() as int, e) <==> is_overlay(
            style,
            default_access,
            rules,
            e,
        ),
{
    if is_stood_for(default_access, c, c.len() as int, e) {
        let k = choose|k: int|
            0 <= k < c.len() && stands_for(default_access, #[trigger] c[k], e);
        assert(is_weighed(style, default_access, rules, c[k]));
        assert(is_written_first(style, rules, c[k].path@));
        let i = choose|i: int| #[trigger]
            is_first_rule(style, rules, i) && rules[i].path == c[k].path@;
        lemma_strongest(style, default_access, rules, c[k].key@);
        assert(is_first_rule(style, rules, i) && e.path == rules[i].path);
    }
    if is_overlay(style, default_access, rules, e) {
        let i = choose|i: int| #[trigger]
            is_first_rule(style, rules, i) && e.path == rules[i].path && effective_access(
                style,
                default_access,
                rules,
                path_key(style, rules[i].path),
            ) == Some(e.access);
        assert(is_listed(c, rules[i].path));
        let k = choose|k: int| 0 <= k < c.len() && (#[trigger] c[k]).path@ == rules[i].path;
        assert(is_weighed(style, default_access, rules, c[k]));
        lemma_strongest(style, default_access, rules, c[k].key@);
        assert(stands_for(default_access, c[k], e));
    }
}

/// What the rules amount to, path by path, in order.
pub fn collapse_rules(
    style: PathStyle,
    default_access: SandboxDefaultAccess,
    rules: &Vec<SandboxPathPermission>,
) -> (out: Vec<SandboxPathPermission>)
    ensures
        collapses_to(
            style,
            default_access,
            permission_views(rules@),
            permission_views(out@),
        ),
{
    let collapsed = collapse(style, default_access, rules);
    let ghost all = permission_views(rules@);
    let mut list: Vec<Ranked> = Vec::new();
    let ghost mut from: Seq<int> = Seq::empty();
    for n in 0..collapsed.len()
        invariant
            is_collapse(style, default_access, all, collapsed@),
            is_ranked(style, ranked_views(list@)),
            forall|k: int| 0 <= k < list.len() ==> is_measured(style, #[trigger] list@[k]),
            from.len() == list.len(),
            forall|k: int|
                0 <= k < list.len() ==> 0 <= #[trigger] from[k] < n && stands_for(
                    default_access,
                    collapsed@[from[k]],
                    list@[k].rule@,
                ),
            forall|e: PermissionView|
                is_stood_for(default_access, collapsed@, n as int, e)
                    ==> #[trigger] ranked_views(list@).contains(e),
    {
        let c = &collapsed[n];
        let ghost was = ranked_views(list@);
        assert(is_weighed(style, default_access, all, *c));
        match access_for_priority(default_access, c.priority) {
            None => {
                assert forall|e: PermissionView|
                    is_stood_for(default_access, collapsed@, n + 1, e) implies (
                #[trigger] was.contains(e)) by {
                    let k = choose|k: int|
                        0 <= k < n + 1 && stands_for(default_access, #[trigger] collapsed@[k], e);
                    assert(is_stood_for(default_access, collapsed@, n as int, e));
                }
            },
            Some(access) => {
                let rule = SandboxPathPermission { path: c.path.clone(), access };
                let x = Ranked { depth: c.path.depth(style), key: c.path.key(style), rule };
                assert forall|k: int| 0 <= k < list.len() implies (#[trigger] list@[k]).key@
                    != x.key@ by {
                    assert(is_measured(style, list@[k]));
                    let o = from[k];
                    assert(stands_for(default_access, collapsed@[o], list@[k].rule@));
                    assert(is_weighed(style, default_access, all, collapsed@[o]));
                    assert(collapsed@[o].key@ != collapsed@[n as int].key@);
                }
                let at = place_of(style, &list, &x);
                let ghost before = list@;
                let ghost new = x;
                list.insert(at, x);
                proof {
                    from = from.insert(at as int, n as int);
                    let views = ranked_views(list@);
                    assert(list@ == before.insert(at as int, new));
                    assert forall|k: int| 0 <= k < list.len() implies 0 <= #[trigger] from[k] < n
                        + 1 && stands_for(
                        default_access,
                        collapsed@[from[k]],
                        list@[k].rule@,
                    ) by {
                        if k == at {
                            assert(list@[k] == new);
                        }
                    }
                    assert forall|e: PermissionView|
                        is_stood_for(default_access, collapsed@, n + 1, e) implies (
                    #[trigger] views.contains(e)) by {
                        let k = choose|k: int|
                            0 <= k < n + 1 && stands_for(
                                default_access,
                                #[trigger] collapsed@[k],
                                e,
                            );
                        if k == n {
                            assert(views[at as int] == e);
                        } else {
                            assert(is_stood_for(default_access, collapsed@, n as int, e));
                            assert(was.contains(e));
                            let o = choose|o: int| 0 <= o < was.len() && was[o] == e;
                            if o < at {
                                assert(views[o] == e);
                            } else {
                                assert(views[o + 1] == e);
                            }
                        }
                    }
                }
            },
        }
    }
    let ghost views = ranked_views(list@);
    let out = rules_of(&list);
    proof {
        assert forall|e: PermissionView| #[trigger] views.contains(e) <==> is_overlay(
            style,
            default_access,
            all,
            e,
        ) by {
            lemma_collapse_is_overlay(style, default_access, all, collapsed@, e);
            if views.contains(e) {
                let k = choose|k: int| 0 <= k < views.len() && views[k] == e;
                assert(stands_for(default_access, collapsed@[from[k]], list@[k].rule@));
                assert(is_stood_for(default_access, collapsed@, collapsed@.len() as int, e));
            }
        }
    }
    out
}

fn rules_of(list: &Vec<Ranked>) -> (out: Vec<SandboxPathPermission>)
    ensures
        permission_views(out@) == ranked_views(list@),
{
    let mut out: Vec<SandboxPathPermission> = Vec::new();
    for i in 0..list.len()
        invariant
            out.len() == i,
            forall|k: int| 0 <= k < i ==> (#[trigger] out@[k])@ == list@[k].rule@,
    {
        let rule = list[i].rule.clone();
        out.push(rule);
    }
    assert(permission_views(out@) =~= ranked_views(list@));
    out
}

/// Rejects a list in which an entry gives access below a denied path.
pub fn reject_reopened_descendants_under_deny(
    style: PathStyle,
    entries: &Vec<SandboxPathPermission>,
) -> (r: Result<(), SandboxError>)
    ensures
        match r {
            Ok(_) => nothing_reopens(style, permission_views(entries@)),
            Err(e) => exists|i: int, j: int| #[trigger]
                is_first_reopening(style, permission_views(entries@), i, j) && e@
                    == reopening_error(
                    style,
                    permission_views(entries@)[i],
                    permission_views(entries@)[j],
                ),
        },
{
    let ghost v = permission_views(entries@);
    for i in 0..entries.len()
        invariant
            v == permission_views(entries@),
            forall|a: int, b: int| a < i ==> !#[trigger] reopens(style, v, a, b),
    {
        let rule = &entries[i];
        assert(v[i as int] == rule@);
        if rule.access != SandboxPathAccess::Deny {
            for j in 0..entries.len()
                invariant
                    v == permission_views(entries@),
                    i < entries.len(),
                    *rule == entries@[i as int],
                    v[i as int] == rule@,
                    rule.access != SandboxPathAccess::Deny,
                    forall|a: int, b: int| a < i ==> !#[trigger] reopens(style, v, a, b),
                    forall|b: int| b < j ==> !#[trigger] reopens(style, v, i as int, b),
            {
                let existing = &entries[j];
                assert(v[j as int] == existing@);
                if existing.access == SandboxPathAccess::Deny && !crate::path::same_path(
                    style,
                    &existing.path,
                    &rule.path,
                ) && is_same_or_descendant(style, &rule.path, &existing.path) {
                    let mut message = path_access_label(rule.access).to_owned();
                    message.append(" path cannot reopen access under deny ancestor ");
                    message.append(existing.path.display(style).as_str());
                    message.append(": ");
                    message.append(rule.path.display(style).as_str());
                    assert(is_first_reopening(style, v, i as int, j as int));
                    return Err(SandboxError::InvalidRequest(message));
                }
            }
        }
    }
    Ok(())
}

/// Drops the entries that an earlier one with the same access covers.
pub fn prune_same_access_descendants(
    style: PathStyle,
    entries: &Vec<SandboxPathPermission>,
) -> (out: Vec<SandboxPathPermission>)
    ensures
        permission_views(out@) == pruned(style, permission_views(entries@)),
{
    let mut out: Vec<SandboxPathPermission> = Vec::new();
    let ghost v = permission_views(entries@);
    assert(permission_views(out@) =~= pruned(style, v.take(0)));
    for n in 0..entries.len()
        invariant
            v == permission_views(entries@),
            permission_views(out@) == pruned(style, v.take(n as int)),
    {
        let rule = &entries[n];
        proof {
            assert(v.take(n + 1).drop_last() =~= v.take(n as int));
            assert(v.take(n + 1).last() == rule@);
        }
        let mut covered = false;
        for k in 0..out.len()
            invariant
                covered == exists|b: int|
                    0 <= b < k && (#[trigger] permission_views(out@)[b]).access == rule@.access
                        && is_below(style, rule@.path, permission_views(out@)[b].path),
        {
            assert(permission_views(out@)[k as int] == out@[k as int]@);
            if out[k].access == rule.access && is_same_or_descendant(
                style,
                &rule.path,
                &out[k].path,
            ) {
                covered = true;
            }
        }
        if !covered {
            let ghost before = permission_views(out@);
            let kept = rule.clone();
            out.push(kept);
            assert(permission_views(out@) =~= before.push(rule@));
        }
    }
    assert(v.take(v.len() as int) =~= v);
    out
}

/// The value of a list of rules or of the error in its place.
pub open spec fn rules_or_error(
    r: Result<Vec<SandboxPathPermission>, SandboxError>,
) -> Result<Seq<PermissionView>, ErrorView> {
    match r {
        Ok(rules) => Ok(permission_views(rules@)),
        Err(e) => Err(e@),
    }
}

/// The rules that a platform enforces, or why the rules are rejected.
pub open spec fn overlay_result(
    style: PathStyle,
    default_access: SandboxDefaultAccess,
    rules: Seq<PermissionView>,
    entries: Seq<PermissionView>,
    result: Result<Seq<PermissionView>, ErrorView>,
) -> bool {
    &&& collapses_to(style, default_access, rules, entries)
    &&& match result {
        Ok(out) => nothing_reopens(style, entries) && out == pruned(style, entries),
        Err(e) => exists|i: int, j: int| #[trigger]
            is_first_reopening(style, entries, i, j) && e == reopening_error(
                style,
                entries[i],
                entries[j],
            ),
    }
}

/// What the given rules are enforced as, or the error that they are rejected with.
pub open spec fn amounts_to(
    style: PathStyle,
    default_access: SandboxDefaultAccess,
    rules: Seq<PermissionView>,
    result: Result<Seq<PermissionView>, ErrorView>,
) -> bool {
    exists|entries: Seq<PermissionView>| #[trigger]
        overlay_result(style, default_access, rules, entries, result)
}

/// The rules that a platform enforces: those that the given rules amount to, from the root down,
/// without those that another one covers. Rules that reopen something below a denied path are
/// rejected.
pub fn overlay_rules(
    style: PathStyle,
    default_access: SandboxDefaultAccess,
    rules: &Vec<SandboxPathPermission>,
) -> (r: Result<Vec<SandboxPathPermission>, SandboxError>)
    ensures
        amounts_to(style, default_access, permission_views(rules@), rules_or_error(r)),
{
    let entries = collapse_rules(style, default_access, rules);
    let r = match reject_reopened_descendants_under_deny(style, &entries) {
        Err(e) => Err(e),
        Ok(_) => Ok(prune_same_access_descendants(style, &entries)),
    };
    assert(overlay_result(
        style,
        default_access,
        permission_views(rules@),
        permission_views(entries@),
        rules_or_error(r),
    ));
    r
}

} // verus!
