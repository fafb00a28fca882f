//! What holds of paths and of enforced rules as a whole.
use vstd::prelude::*;

use crate::error::ErrorView;
use crate::manager::{canonical_form, resolved_rules, sanitizes_policy, ProbeView};
use crate::overlay::{
    amounts_to, collapses_to, effective_access, grants, is_covered, is_first_reopening,
    is_first_rule, is_overlay, is_ranked, lemma_first_rule_exists, nothing_reopens, other_access,
    overlay_result, pruned, ranking_is_total, ranks_before, reopening_error, reopens,
};
use crate::path::{
    component_key, component_text, components, components_key, depth, is_below, key_bytes, path_key,
    same_component, ComponentView, PathStyle, PrefixView,
};
use crate::policy::{PermissionView, SandboxDefaultAccess, SandboxPathAccess, SandboxPolicy};

verus! {

/// The same component, where the bytes that a prefix was written with do not count.
pub open spec fn same_meaning(a: ComponentView, b: ComponentView) -> bool {
    match (a, b) {
        (ComponentView::Prefix(p, _), ComponentView::Prefix(q, _)) => p == q,
        _ => a == b,
    }
}

/// Every path lies at or below itself.
pub proof fn every_path_is_below_itself(style: PathStyle, p: Seq<u8>)
    ensures
        is_below(style, p, p),
{
}

/// What lies below a path that lies below another lies below that other one.
pub proof fn below_is_transitive(style: PathStyle, a: Seq<u8>, b: Seq<u8>, c: Seq<u8>)
    requires
        is_below(style, a, b),
        is_below(style, b, c),
    ensures
        is_below(style, a, c),
{
    let ac = components(style, a);
    let bc = components(style, b);
    let cc = components(style, c);
    assert forall|i: int| 0 <= i < cc.len() implies same_component(
        style,
        component_text(style, #[trigger] cc[i]),
        component_text(style, ac[i]),
    ) by {
        assert(same_component(style, component_text(style, cc[i]), component_text(style, bc[i])));
        assert(same_component(style, component_text(style, bc[i]), component_text(style, ac[i])));
    }
}

/// Of two paths that both cover a third one, the longer lies at or below the shorter.
pub proof fn covering_paths_are_nested(style: PathStyle, q: Seq<u8>, a: Seq<u8>, b: Seq<u8>)
    requires
        is_below(style, q, a),
        is_below(style, q, b),
        depth(style, a) <= depth(style, b),
    ensures
        is_below(style, b, a),
{
    let qc = components(style, q);
    let ac = components(style, a);
    let bc = components(style, b);
    assert forall|i: int| 0 <= i < ac.len() implies same_component(
        style,
        component_text(style, #[trigger] ac[i]),
        component_text(style, bc[i]),
    ) by {
        assert(same_component(style, component_text(style, ac[i]), component_text(style, qc[i])));
        assert(same_component(style, component_text(style, bc[i]), component_text(style, qc[i])));
    }
}

/// The end mark of a component's key stands at its end and nowhere else.
proof fn lemma_component_key_ends_once(c: ComponentView)
    ensures
        component_key(c).len() > 0,
        component_key(c).last() == 0,
        forall|i: int| 0 <= i < component_key(c).len() - 1 ==> component_key(c)[i] != 0,
{
}

/// Components with the same key mean the same.
proof fn lemma_component_key_is_exact(a: ComponentView, b: ComponentView)
    requires
        component_key(a) == component_key(b),
    ensures
        same_meaning(a, b),
{
    let k = component_key(a);
    assert(k[0] == component_key(b)[0]);
    match (a, b) {
        (
            ComponentView::Prefix(PrefixView::Verbatim(x), _),
            ComponentView::Prefix(PrefixView::Verbatim(y), _),
        ) => {
            lemma_key_bytes_exact(x, y, 1, k);
        },
        (
            ComponentView::Prefix(PrefixView::DeviceNs(x), _),
            ComponentView::Prefix(PrefixView::DeviceNs(y), _),
        ) => {
            lemma_key_bytes_exact(x, y, 4, k);
        },
        (ComponentView::Normal(x), ComponentView::Normal(y)) => {
            lemma_key_bytes_exact(x, y, 10, k);
        },
        (
            ComponentView::Prefix(PrefixView::VerbatimDisk(x), _),
            ComponentView::Prefix(PrefixView::VerbatimDisk(y), _),
        ) => {
            lemma_key_bytes_exact(seq![x], seq![y], 3, k);
            assert(seq![x][0] == seq![y][0]);
        },
        (
            ComponentView::Prefix(PrefixView::Disk(x), _),
            ComponentView::Prefix(PrefixView::Disk(y), _),
        ) => {
            lemma_key_bytes_exact(seq![x], seq![y], 6, k);
            assert(seq![x][0] == seq![y][0]);
        },
        (
            ComponentView::Prefix(PrefixView::VerbatimUnc(x, u), _),
            ComponentView::Prefix(PrefixView::VerbatimUnc(y, v), _),
        ) => {
            lemma_pair_key_exact(x, u, y, v, 2, k);
        },
        (
            ComponentView::Prefix(PrefixView::Unc(x, u), _),
            ComponentView::Prefix(PrefixView::Unc(y, v), _),
        ) => {
            lemma_pair_key_exact(x, u, y, v, 5, k);
        },
        _ => {},
    }
}

proof fn lemma_key_bytes_exact(x: Seq<u8>, y: Seq<u8>, rank: u32, k: Seq<u32>)
    requires
        k == seq![rank] + key_bytes(x) + seq![0u32],
        k == seq![rank] + key_bytes(y) + seq![0u32],
    ensures
        x == y,
{
    assert(x.len() == k.len() - 2 && y.len() == k.len() - 2);
    assert forall|i: int| 0 <= i < x.len() implies x[i] == y[i] by {
        assert(k[i + 1] == x[i] + 2);
        assert(k[i + 1] == y[i] + 2);
    }
    assert(x =~= y);
}

proof fn lemma_pair_key_exact(
    x: Seq<u8>,
    u: Seq<u8>,
    y: Seq<u8>,
    v: Seq<u8>,
    rank: u32,
    k: Seq<u32>,
)
    requires
        k == seq![rank] + key_bytes(x) + seq![1u32] + key_bytes(u) + seq![0u32],
        k == seq![rank] + key_bytes(y) + seq![1u32] + key_bytes(v) + seq![0u32],
    ensures
        x == y,
        u == v,
{
    let n = x.len() as int;
    let m = y.len() as int;
    assert(k[n + 1] == 1);
    assert(k[m + 1] == 1);
    if n < m {
        assert(k[n + 1] == y[n] + 2);
    }
    if m < n {
        assert(k[m + 1] == x[m] + 2);
    }
    assert(u.len() == k.len() - n - 3 && v.len() == k.len() - n - 3);
    assert forall|i: int| 0 <= i < n implies x[i] == y[i] by {
        assert(k[i + 1] == x[i] + 2);
        assert(k[i + 1] == y[i] + 2);
    }
    assert(x =~= y);
    assert forall|i: int| 0 <= i < u.len() implies u[i] == v[i] by {
        assert(k[i + n + 2] == u[i] + 2);
        assert(k[i + n + 2] == v[i] + 2);
    }
    assert(u =~= v);
}

proof fn lemma_components_key_exact(a: Seq<ComponentView>, b: Seq<ComponentView>)
    requires
        components_key(a) == components_key(b),
    ensures
        a.len() == b.len(),
        forall|i: int| 0 <= i < a.len() ==> same_meaning(#[trigger] a[i], b[i]),
    decreases a.len(),
{
    let k = components_key(a);
    if a.len() > 0 {
        lemma_component_key_ends_once(a.last());
    }
    if b.len() > 0 {
        lemma_component_key_ends_once(b.last());
    }
    if a.len() > 0 && b.len() > 0 {
        let fa = components_key(a.drop_last());
        let fb = components_key(b.drop_last());
        let ka = component_key(a.last());
        let kb = component_key(b.last());
        lemma_components_key_ends(a.drop_last());
        lemma_components_key_ends(b.drop_last());
        assert(k == fa + ka && k == fb + kb);
        if ka.len() < kb.len() {
            let i = kb.len() - ka.len() - 1;
            assert(k[fb.len() + i] == kb[i]);
            assert(k[fa.len() - 1] == fa.last());
        }
        if kb.len() < ka.len() {
            let i = ka.len() - kb.len() - 1;
            assert(k[fa.len() + i] == ka[i]);
            assert(k[fb.len() - 1] == fb.last());
        }
        assert(fa =~= k.take(fa.len() as int));
        assert(fb =~= k.take(fb.len() as int));
        assert(ka =~= k.subrange(fa.len() as int, k.len() as int));
        assert(kb =~= k.subrange(fb.len() as int, k.len() as int));
        lemma_component_key_is_exact(a.last(), b.last());
        lemma_components_key_exact(a.drop_last(), b.drop_last());
        assert forall|i: int| 0 <= i < a.len() implies same_meaning(#[trigger] a[i], b[i]) by {
            if i < a.len() - 1 {
                assert(same_meaning(a.drop_last()[i], b.drop_last()[i]));
            }
        }
    }
}

proof fn lemma_components_key_ends(a: Seq<ComponentView>)
    ensures
        components_key(a).len() > 0 ==> components_key(a).last() == 0,
{
    if a.len() > 0 {
        lemma_component_key_ends_once(a.last());
    }
}

/// Two paths have the same key exactly when they have the same components, where the bytes that
/// a Windows prefix was written with do not count.
pub proof fn same_key_means_same_components(style: PathStyle, a: Seq<u8>, b: Seq<u8>)
    ensures
        path_key(style, a) == path_key(style, b) <==> {
            &&& components(style, a).len() == components(style, b).len()
            &&& forall|i: int|
                0 <= i < components(style, a).len() ==> same_meaning(
                    #[trigger] components(style, a)[i],
                    components(style, b)[i],
                )
        },
{
    let x = components(style, a);
    let y = components(style, b);
    if path_key(style, a) == path_key(style, b) {
        lemma_components_key_exact(x, y);
    }
    if x.len() == y.len() && forall|i: int|
        0 <= i < x.len() ==> same_meaning(#[trigger] x[i], y[i]) {
        lemma_same_meaning_same_key(x, y);
    }
}

proof fn lemma_same_meaning_same_key(a: Seq<ComponentView>, b: Seq<ComponentView>)
    requires
        a.len() == b.len(),
        forall|i: int| 0 <= i < a.len() ==> same_meaning(#[trigger] a[i], b[i]),
    ensures
        components_key(a) == components_key(b),
    decreases a.len(),
{
    if a.len() > 0 {
        assert(same_meaning(a[a.len() - 1], b[a.len() - 1]));
        assert forall|i: int| 0 <= i < a.drop_last().len() implies same_meaning(
            #[trigger] a.drop_last()[i],
            b.drop_last()[i],
        ) by {
            assert(same_meaning(a[i], b[i]));
        }
        lemma_same_meaning_same_key(a.drop_last(), b.drop_last());
    }
}

/// The access that a default stands for.
pub open spec fn access_of_default(default_access: SandboxDefaultAccess) -> SandboxPathAccess {
    match default_access {
        SandboxDefaultAccess::ReadOnly => SandboxPathAccess::ReadOnly,
        SandboxDefaultAccess::ReadWrite => SandboxPathAccess::ReadWrite,
    }
}

/// Some entry with this access is `q` or an ancestor of it.
pub open spec fn covers(
    style: PathStyle,
    entries: Seq<PermissionView>,
    access: SandboxPathAccess,
    q: Seq<u8>,
) -> bool {
    exists|k: int|
        0 <= k < entries.len() && (#[trigger] entries[k]).access == access && is_below(
            style,
            q,
            entries[k].path,
        )
}

/// What a list of entries gives to a path: denial where a denied entry covers it, else what
/// another entry gives that covers it, else the default.
pub open spec fn enforced_access(
    style: PathStyle,
    default_access: SandboxDefaultAccess,
    entries: Seq<PermissionView>,
    q: Seq<u8>,
) -> SandboxPathAccess {
    if covers(style, entries, SandboxPathAccess::Deny, q) {
        SandboxPathAccess::Deny
    } else if covers(style, entries, other_access(default_access), q) {
        other_access(default_access)
    } else {
        access_of_default(default_access)
    }
}

proof fn lemma_ranked_rest(style: PathStyle, entries: Seq<PermissionView>)
    requires
        is_ranked(style, entries),
        entries.len() > 0,
    ensures
        is_ranked(style, entries.drop_last()),
        forall|e: PermissionView| #[trigger]
            entries.drop_last().contains(e) <==> entries.contains(e) && e != entries.last(),
{
    let f = entries.drop_last();
    assert forall|i: int, j: int| 0 <= i < j < f.len() implies ranks_before(
        style,
        (#[trigger] f[i]).path,
        (#[trigger] f[j]).path,
    ) by {
        assert(ranks_before(style, entries[i].path, entries[j].path));
    }
    assert forall|e: PermissionView| #[trigger] f.contains(e) <==> entries.contains(e) && e
        != entries.last() by {
        if f.contains(e) {
            let i = choose|i: int| 0 <= i < f.len() && f[i] == e;
            assert(entries[i] == e);
            assert(ranks_before(style, entries[i].path, entries[entries.len() - 1].path));
            ranking_is_total(style, e.path, e.path);
        }
        if entries.contains(e) && e != entries.last() {
            let i = choose|i: int| 0 <= i < entries.len() && entries[i] == e;
            assert(f[i] == e);
        }
    }
}

proof fn lemma_same_entries_same_list(
    style: PathStyle,
    a: Seq<PermissionView>,
    b: Seq<PermissionView>,
)
    requires
        is_ranked(style, a),
        is_ranked(style, b),
        forall|e: PermissionView| a.contains(e) <==> b.contains(e),
    ensures
        a == b,
    decreases a.len(),
{
    if a.len() == 0 {
        if b.len() > 0 {
            assert(b.contains(b[0]));
            assert(a.contains(b[0]));
        }
        assert(a =~= b);
    } else {
        assert(a.contains(a.last()));
        let k = choose|k: int| 0 <= k < b.len() && b[k] == a.last();
        assert(b.contains(b.last()));
        let l = choose|l: int| 0 <= l < a.len() && a[l] == b.last();
        if a.last() != b.last() {
            assert(ranks_before(style, b[k].path, b[b.len() - 1].path));
            assert(ranks_before(style, a[l].path, a[a.len() - 1].path));
            ranking_is_total(style, a.last().path, b.last().path);
        }
        lemma_ranked_rest(style, a);
        lemma_ranked_rest(style, b);
        lemma_same_entries_same_list(style, a.drop_last(), b.drop_last());
        assert(a =~= a.drop_last().push(a.last()));
        assert(b =~= b.drop_last().push(b.last()));
    }
}

/// What the rules amount to is one list and no other.
pub proof fn rules_collapse_to_one_list(
    style: PathStyle,
    default_access: SandboxDefaultAccess,
    rules: Seq<PermissionView>,
    a: Seq<PermissionView>,
    b: Seq<PermissionView>,
)
    requires
        collapses_to(style, default_access, rules, a),
        collapses_to(style, default_access, rules, b),
    ensures
        a == b,
{
    assert forall|e: PermissionView| a.contains(e) <==> b.contains(e) by {}
    lemma_same_entries_same_list(style, a, b);
}

/// The rules determine what is enforced, or the error that they are rejected with.
pub proof fn overlay_is_determined(
    style: PathStyle,
    default_access: SandboxDefaultAccess,
    rules: Seq<PermissionView>,
    x: Result<Seq<PermissionView>, ErrorView>,
    y: Result<Seq<PermissionView>, ErrorView>,
)
    requires
        amounts_to(style, default_access, rules, x),
        amounts_to(style, default_access, rules, y),
    ensures
        x == y,
{
    let a = choose|a: Seq<PermissionView>| #[trigger]
        overlay_result(style, default_access, rules, a, x);
    let b = choose|b: Seq<PermissionView>| #[trigger]
        overlay_result(style, default_access, rules, b, y);
    rules_collapse_to_one_list(style, default_access, rules, a, b);
    if x is Err && y is Err {
        let (i, j) = choose|i: int, j: int| #[trigger]
            is_first_reopening(style, a, i, j) && x->Err_0 == reopening_error(style, a[i], a[j]);
        let (k, l) = choose|k: int, l: int| #[trigger]
            is_first_reopening(style, a, k, l) && y->Err_0 == reopening_error(style, a[k], a[l]);
        assert(reopens(style, a, i, j) && reopens(style, a, k, l));
    } else if x is Err {
        let (i, j) = choose|i: int, j: int| #[trigger] is_first_reopening(style, a, i, j);
        assert(reopens(style, a, i, j));
    } else if y is Err {
        let (i, j) = choose|i: int, j: int| #[trigger] is_first_reopening(style, a, i, j);
        assert(reopens(style, a, i, j));
    }
}

/// The rules for the path that the rule at `i` is the first to name amount to this access.
pub open spec fn rules_give(
    style: PathStyle,
    default_access: SandboxDefaultAccess,
    rules: Seq<PermissionView>,
    i: int,
    access: SandboxPathAccess,
) -> bool {
    is_first_rule(style, rules, i) && effective_access(
        style,
        default_access,
        rules,
        path_key(style, rules[i].path),
    ) == Some(access)
}

/// The rules at `i` and `j` ask for access below a denied path.
pub open spec fn rules_reopen(
    style: PathStyle,
    default_access: SandboxDefaultAccess,
    rules: Seq<PermissionView>,
    i: int,
    j: int,
) -> bool {
    &&& rules_give(style, default_access, rules, i, other_access(default_access))
    &&& rules_give(style, default_access, rules, j, SandboxPathAccess::Deny)
    &&& is_below(style, rules[i].path, rules[j].path)
}

/// The first rule for a path has an entry where its rules give it an access.
pub proof fn lemma_entry_of_rule(
    style: PathStyle,
    default_access: SandboxDefaultAccess,
    rules: Seq<PermissionView>,
    entries: Seq<PermissionView>,
    i: int,
    access: SandboxPathAccess,
)
    requires
        collapses_to(style, default_access, rules, entries),
        rules_give(style, default_access, rules, i, access),
    ensures
        exists|k: int|
            0 <= k < entries.len() && #[trigger] entries[k] == (PermissionView {
                path: rules[i].path,
                access,
            }),
{
    let e = PermissionView { path: rules[i].path, access };
    assert(is_first_rule(style, rules, i) && e.path == rules[i].path);
    assert(is_overlay(style, default_access, rules, e));
    assert(entries.contains(e));
    let k = choose|k: int| 0 <= k < entries.len() && entries[k] == e;
    assert(entries[k] == e);
}

/// Every entry comes from the first rule for its path.
pub proof fn lemma_rule_of_entry(
    style: PathStyle,
    default_access: SandboxDefaultAccess,
    rules: Seq<PermissionView>,
    entries: Seq<PermissionView>,
    k: int,
)
    requires
        collapses_to(style, default_access, rules, entries),
        0 <= k < entries.len(),
    ensures
        exists|i: int| #[trigger]
            rules_give(style, default_access, rules, i, entries[k].access) && rules[i].path
                == entries[k].path,
        entries[k].access == SandboxPathAccess::Deny || entries[k].access == other_access(
            default_access,
        ),
{
    assert(entries.contains(entries[k]));
    assert(is_overlay(style, default_access, rules, entries[k]));
    let i = choose|i: int| #[trigger]
        is_first_rule(style, rules, i) && entries[k].path == rules[i].path && effective_access(
            style,
            default_access,
            rules,
            path_key(style, rules[i].path),
        ) == Some(entries[k].access);
    assert(rules_give(style, default_access, rules, i, entries[k].access));
}

/// Rules are rejected exactly when they ask for access below a denied path.
pub proof fn rejection_is_exact(
    style: PathStyle,
    default_access: SandboxDefaultAccess,
    rules: Seq<PermissionView>,
    result: Result<Seq<PermissionView>, ErrorView>,
)
    requires
        amounts_to(style, default_access, rules, result),
    ensures
        result is Err <==> exists|i: int, j: int| #[trigger]
            rules_reopen(style, default_access, rules, i, j),
{
    let entries = choose|entries: Seq<PermissionView>| #[trigger]
        overlay_result(style, default_access, rules, entries, result);
    if result is Err {
        let (a, b) = choose|a: int, b: int| #[trigger] is_first_reopening(style, entries, a, b);
        assert(reopens(style, entries, a, b));
        lemma_rule_of_entry(style, default_access, rules, entries, a);
        lemma_rule_of_entry(style, default_access, rules, entries, b);
        let i = choose|i: int| #[trigger]
            rules_give(style, default_access, rules, i, entries[a].access) && rules[i].path
                == entries[a].path;
        let j = choose|j: int| #[trigger]
            rules_give(style, default_access, rules, j, entries[b].access) && rules[j].path
                == entries[b].path;
        assert(rules_reopen(style, default_access, rules, i, j));
    }
    if exists|i: int, j: int| #[trigger] rules_reopen(style, default_access, rules, i, j) {
        let (i, j) = choose|i: int, j: int| #[trigger]
            rules_reopen(style, default_access, rules, i, j);
        lemma_entry_of_rule(style, default_access, rules, entries, i, other_access(default_access));
        lemma_entry_of_rule(style, default_access, rules, entries, j, SandboxPathAccess::Deny);
        let a = choose|a: int|
            0 <= a < entries.len() && #[trigger] entries[a] == (PermissionView {
                path: rules[i].path,
                access: other_access(default_access),
            });
        let b = choose|b: int|
            0 <= b < entries.len() && #[trigger] entries[b] == (PermissionView {
                path: rules[j].path,
                access: SandboxPathAccess::Deny,
            });
        assert(reopens(style, entries, a, b));
    }
}

/// A denial wins over every other rule for the same path.
pub proof fn deny_wins_over_other_rules(
    style: PathStyle,
    default_access: SandboxDefaultAccess,
    rules: Seq<PermissionView>,
    entries: Seq<PermissionView>,
    i: int,
    k: int,
)
    requires
        collapses_to(style, default_access, rules, entries),
        0 <= i < rules.len(),
        rules[i].access == SandboxPathAccess::Deny,
        0 <= k < entries.len(),
        path_key(style, entries[k].path) == path_key(style, rules[i].path),
    ensures
        entries[k].access == SandboxPathAccess::Deny,
{
    assert(entries.contains(entries[k]));
    assert(is_overlay(style, default_access, rules, entries[k]));
    assert(grants(style, rules, path_key(style, rules[i].path), SandboxPathAccess::Deny));
}

/// Every rule that asks for something other than the default has an entry for its path.
pub proof fn every_effective_rule_has_an_entry(
    style: PathStyle,
    default_access: SandboxDefaultAccess,
    rules: Seq<PermissionView>,
    entries: Seq<PermissionView>,
    i: int,
)
    requires
        collapses_to(style, default_access, rules, entries),
        0 <= i < rules.len(),
        rules[i].access != access_of_default(default_access),
    ensures
        exists|k: int|
            0 <= k < entries.len() && path_key(style, (#[trigger] entries[k]).path) == path_key(
                style,
                rules[i].path,
            ),
{
    let key = path_key(style, rules[i].path);
    assert(grants(style, rules, key, rules[i].access));
    let access = effective_access(style, default_access, rules, key)->Some_0;
    lemma_first_rule_exists(style, rules, i);
    let f = choose|f: int| #[trigger]
        is_first_rule(style, rules, f) && path_key(style, rules[f].path) == key;
    let e = PermissionView { path: rules[f].path, access };
    assert(is_first_rule(style, rules, f) && e.path == rules[f].path);
    assert(is_overlay(style, default_access, rules, e));
    assert(entries.contains(e));
    let k = choose|k: int| 0 <= k < entries.len() && entries[k] == e;
    assert(path_key(style, entries[k].path) == key);
}

/// No entry gives what the default gives anyway.
pub proof fn no_entry_repeats_the_default(
    style: PathStyle,
    default_access: SandboxDefaultAccess,
    rules: Seq<PermissionView>,
    entries: Seq<PermissionView>,
    k: int,
)
    requires
        collapses_to(style, default_access, rules, entries),
        0 <= k < entries.len(),
    ensures
        entries[k].access == SandboxPathAccess::Deny || entries[k].access == other_access(
            default_access,
        ),
        entries[k].access != access_of_default(default_access),
{
    assert(entries.contains(entries[k]));
    assert(is_overlay(style, default_access, rules, entries[k]));
}

/// Pruning keeps a part of the entries, and their order.
pub proof fn lemma_pruned_is_part(style: PathStyle, entries: Seq<PermissionView>)
    ensures
        forall|e: PermissionView| #[trigger]
            pruned(style, entries).contains(e) ==> entries.contains(e),
        is_ranked(style, entries) ==> is_ranked(style, pruned(style, entries)),
    decreases entries.len(),
{
    if entries.len() > 0 {
        let f = entries.drop_last();
        let front = pruned(style, f);
        let out = pruned(style, entries);
        lemma_pruned_is_part(style, f);
        assert forall|e: PermissionView| #[trigger] out.contains(e) implies entries.contains(e) by {
            let k = choose|k: int| 0 <= k < out.len() && out[k] == e;
            if k < front.len() {
                assert(front.contains(e));
                let i = choose|i: int| 0 <= i < f.len() && f[i] == e;
                assert(entries[i] == e);
            } else {
                assert(entries[entries.len() - 1] == e);
            }
        }
        if is_ranked(style, entries) {
            lemma_ranked_rest(style, entries);
            assert forall|i: int, j: int| 0 <= i < j < out.len() implies ranks_before(
                style,
                (#[trigger] out[i]).path,
                (#[trigger] out[j]).path,
            ) by {
                if j < front.len() {
                    assert(ranks_before(style, front[i].path, front[j].path));
                } else {
                    assert(front.contains(front[i]));
                    assert(f.contains(out[i]));
                    let k = choose|k: int| 0 <= k < f.len() && f[k] == out[i];
                    assert(ranks_before(
                        style,
                        entries[k].path,
                        entries[entries.len() - 1].path,
                    ));
                }
            }
        }
    }
}

/// Every entry that pruning drops is covered by one with the same access that it keeps.
pub proof fn pruning_covers_what_it_drops(style: PathStyle, entries: Seq<PermissionView>, k: int)
    requires
        0 <= k < entries.len(),
    ensures
        is_covered(style, pruned(style, entries), entries[k]),
    decreases entries.len(),
{
    let f = entries.drop_last();
    let front = pruned(style, f);
    let out = pruned(style, entries);
    if k < f.len() {
        pruning_covers_what_it_drops(style, f, k);
        let i = choose|i: int|
            0 <= i < front.len() && (#[trigger] front[i]).access == f[k].access && is_below(
                style,
                f[k].path,
                front[i].path,
            );
        assert(out[i] == front[i]);
    } else {
        every_path_is_below_itself(style, entries[k].path);
        if !is_covered(style, front, entries.last()) {
            assert(out[front.len() as int] == entries[k]);
        }
    }
}

/// Pruning changes nothing about what is enforced on any path.
pub proof fn pruning_keeps_enforcement(
    style: PathStyle,
    default_access: SandboxDefaultAccess,
    entries: Seq<PermissionView>,
    q: Seq<u8>,
)
    ensures
        enforced_access(style, default_access, pruned(style, entries), q) == enforced_access(
            style,
            default_access,
            entries,
            q,
        ),
{
    let out = pruned(style, entries);
    lemma_pruned_is_part(style, entries);
    assert forall|a: SandboxPathAccess|
        covers(style, out, a, q) <==> covers(style, entries, a, q) by {
        if covers(style, out, a, q) {
            let k = choose|k: int|
                0 <= k < out.len() && (#[trigger] out[k]).access == a && is_below(
                    style,
                    q,
                    out[k].path,
                );
            assert(out.contains(out[k]));
            let i = choose|i: int| 0 <= i < entries.len() && entries[i] == out[k];
            assert(entries[i].access == a);
        }
        if covers(style, entries, a, q) {
            let k = choose|k: int|
                0 <= k < entries.len() && (#[trigger] entries[k]).access == a && is_below(
                    style,
                    q,
                    entries[k].path,
                );
            pruning_covers_what_it_drops(style, entries, k);
            let i = choose|i: int|
                0 <= i < out.len() && (#[trigger] out[i]).access == entries[k].access && is_below(
                    style,
                    entries[k].path,
                    out[i].path,
                );
            below_is_transitive(style, q, entries[k].path, out[i].path);
        }
    }
}

/// Some rules that amount to this access are for `q` or for an ancestor of it.
pub open spec fn rules_cover(
    style: PathStyle,
    default_access: SandboxDefaultAccess,
    rules: Seq<PermissionView>,
    access: SandboxPathAccess,
    q: Seq<u8>,
) -> bool {
    exists|i: int| #[trigger]
        rules_give(style, default_access, rules, i, access) && is_below(style, q, rules[i].path)
}

/// What a caller's rules ask for a path: denial where the rules for it or for an ancestor deny,
/// else the access other than the default where the rules for it or for an ancestor give that,
/// else the default.
pub open spec fn asked_access(
    style: PathStyle,
    default_access: SandboxDefaultAccess,
    rules: Seq<PermissionView>,
    q: Seq<u8>,
) -> SandboxPathAccess {
    if rules_cover(style, default_access, rules, SandboxPathAccess::Deny, q) {
        SandboxPathAccess::Deny
    } else if rules_cover(style, default_access, rules, other_access(default_access), q) {
        other_access(default_access)
    } else {
        access_of_default(default_access)
    }
}

/// Accepted rules are enforced on every path as they ask for it: nothing is lost on the way from
/// the rules to what is enforced, and nothing is added.
pub proof fn rules_are_enforced_as_asked(
    style: PathStyle,
    default_access: SandboxDefaultAccess,
    rules: Seq<PermissionView>,
    out: Seq<PermissionView>,
    q: Seq<u8>,
)
    requires
        amounts_to(style, default_access, rules, Ok(out)),
    ensures
        enforced_access(style, default_access, out, q) == asked_access(
            style,
            default_access,
            rules,
            q,
        ),
{
    let entries = choose|entries: Seq<PermissionView>| #[trigger]
        overlay_result(style, default_access, rules, entries, Ok(out));
    pruning_keeps_enforcement(style, default_access, entries, q);
    assert forall|a: SandboxPathAccess|
        covers(style, entries, a, q) <==> rules_cover(style, default_access, rules, a, q) by {
        if covers(style, entries, a, q) {
            let k = choose|k: int|
                0 <= k < entries.len() && (#[trigger] entries[k]).access == a && is_below(
                    style,
                    q,
                    entries[k].path,
                );
            lemma_rule_of_entry(style, default_access, rules, entries, k);
            let i = choose|i: int| #[trigger]
                rules_give(style, default_access, rules, i, a) && rules[i].path == entries[k].path;
            assert(rules_give(style, default_access, rules, i, a));
        }
        if rules_cover(style, default_access, rules, a, q) {
            let i = choose|i: int| #[trigger]
                rules_give(style, default_access, rules, i, a) && is_below(style, q, rules[i].path);
            lemma_entry_of_rule(style, default_access, rules, entries, i, a);
            let k = choose|k: int|
                0 <= k < entries.len() && #[trigger] entries[k] == (PermissionView {
                    path: rules[i].path,
                    access: a,
                });
            assert(entries[k].access == a && is_below(style, q, entries[k].path));
        }
    }
}

/// Everything at or below a denied entry is denied.
pub proof fn everything_below_a_denied_path_is_denied(
    style: PathStyle,
    default_access: SandboxDefaultAccess,
    entries: Seq<PermissionView>,
    k: int,
    q: Seq<u8>,
)
    requires
        0 <= k < entries.len(),
        entries[k].access == SandboxPathAccess::Deny,
        is_below(style, q, entries[k].path),
    ensures
        enforced_access(style, default_access, entries, q) == SandboxPathAccess::Deny,
{
    assert(entries[k].access == SandboxPathAccess::Deny);
}

/// In an accepted list the most specific entry that covers a path decides.
pub proof fn the_most_specific_entry_decides(
    style: PathStyle,
    default_access: SandboxDefaultAccess,
    rules: Seq<PermissionView>,
    entries: Seq<PermissionView>,
    k: int,
    q: Seq<u8>,
)
    requires
        collapses_to(style, default_access, rules, entries),
        nothing_reopens(style, entries),
        0 <= k < entries.len(),
        is_below(style, q, entries[k].path),
        forall|i: int|
            0 <= i < entries.len() && is_below(style, q, (#[trigger] entries[i]).path) ==> depth(
                style,
                entries[i].path,
            ) <= depth(style, entries[k].path),
    ensures
        enforced_access(style, default_access, entries, q) == entries[k].access,
{
    no_entry_repeats_the_default(style, default_access, rules, entries, k);
    assert(covers(style, entries, entries[k].access, q));
    if entries[k].access != SandboxPathAccess::Deny && covers(
        style,
        entries,
        SandboxPathAccess::Deny,
        q,
    ) {
        let d = choose|d: int|
            0 <= d < entries.len() && (#[trigger] entries[d]).access == SandboxPathAccess::Deny
                && is_below(style, q, entries[d].path);
        covering_paths_are_nested(style, q, entries[d].path, entries[k].path);
        if path_key(style, entries[d].path) == path_key(style, entries[k].path) {
            same_key_means_same_components(style, entries[d].path, entries[k].path);
            ranking_is_total(style, entries[d].path, entries[k].path);
            ranking_is_total(style, entries[k].path, entries[d].path);
            if d < k {
                assert(ranks_before(style, entries[d].path, entries[k].path));
            } else {
                assert(ranks_before(style, entries[k].path, entries[d].path));
            }
        }
        assert(reopens(style, entries, k, d));
    }
}

/// No entry that is enforced gives access below a denied one.
pub proof fn pruning_reopens_nothing(style: PathStyle, entries: Seq<PermissionView>)
    requires
        nothing_reopens(style, entries),
    ensures
        nothing_reopens(style, pruned(style, entries)),
{
    let out = pruned(style, entries);
    lemma_pruned_is_part(style, entries);
    assert forall|i: int, j: int| !#[trigger] reopens(style, out, i, j) by {
        if reopens(style, out, i, j) {
            assert(out.contains(out[i]) && out.contains(out[j]));
            let a = choose|a: int| 0 <= a < entries.len() && entries[a] == out[i];
            let b = choose|b: int| 0 <= b < entries.len() && entries[b] == out[j];
            assert(reopens(style, entries, a, b));
        }
    }
}

/// No enforced rule gives access below a denied path.
pub proof fn nothing_enforced_is_reopened(
    style: PathStyle,
    default_access: SandboxDefaultAccess,
    rules: Seq<PermissionView>,
    out: Seq<PermissionView>,
)
    requires
        amounts_to(style, default_access, rules, Ok(out)),
    ensures
        nothing_reopens(style, out),
{
    let entries = choose|entries: Seq<PermissionView>| #[trigger]
        overlay_result(style, default_access, rules, entries, Ok(out));
    pruning_reopens_nothing(style, entries);
}

/// No enforced rule gives what the default gives anyway.
pub proof fn no_enforced_rule_repeats_the_default(
    style: PathStyle,
    default_access: SandboxDefaultAccess,
    rules: Seq<PermissionView>,
    out: Seq<PermissionView>,
    k: int,
)
    requires
        amounts_to(style, default_access, rules, Ok(out)),
        0 <= k < out.len(),
    ensures
        out[k].access != access_of_default(default_access),
{
    let entries = choose|entries: Seq<PermissionView>| #[trigger]
        overlay_result(style, default_access, rules, entries, Ok(out));
    lemma_pruned_is_part(style, entries);
    assert(out.contains(out[k]));
    let i = choose|i: int| 0 <= i < entries.len() && entries[i] == out[k];
    no_entry_repeats_the_default(style, default_access, rules, entries, i);
}

/// Of two enforced rules with the same access neither lies below the other.
pub proof fn enforced_rules_are_not_redundant(
    style: PathStyle,
    default_access: SandboxDefaultAccess,
    rules: Seq<PermissionView>,
    out: Seq<PermissionView>,
    i: int,
    j: int,
)
    requires
        amounts_to(style, default_access, rules, Ok(out)),
        0 <= i < out.len(),
        0 <= j < out.len(),
        i != j,
        out[i].access == out[j].access,
    ensures
        !is_below(style, out[i].path, out[j].path),
{
    let entries = choose|entries: Seq<PermissionView>| #[trigger]
        overlay_result(style, default_access, rules, entries, Ok(out));
    lemma_pruned_is_part(style, entries);
    lemma_later_is_not_covered(style, entries);
    if i < j && is_below(style, out[i].path, out[j].path) {
        assert(ranks_before(style, out[i].path, out[j].path));
        every_path_is_below_itself(style, out[i].path);
        covering_paths_are_nested(style, out[i].path, out[i].path, out[j].path);
    }
}

proof fn lemma_later_is_not_covered(style: PathStyle, entries: Seq<PermissionView>)
    ensures
        forall|i: int, j: int|
            0 <= i < j < pruned(style, entries).len() && (#[trigger] pruned(style, entries)[i]).access
                == (#[trigger] pruned(style, entries)[j]).access ==> !is_below(
                style,
                pruned(style, entries)[j].path,
                pruned(style, entries)[i].path,
            ),
    decreases entries.len(),
{
    if entries.len() > 0 {
        let f = entries.drop_last();
        let front = pruned(style, f);
        let out = pruned(style, entries);
        lemma_later_is_not_covered(style, f);
        assert forall|i: int, j: int|
            0 <= i < j < out.len() && (#[trigger] out[i]).access == (
            #[trigger] out[j]).access implies !is_below(style, out[j].path, out[i].path) by {
            assert(front[i] == out[i]);
            if j < front.len() {
                assert(front[j] == out[j]);
            }
        }
    }
}

/// Rules that are already in their enforced form are enforced as they are.
pub proof fn enforced_rules_are_stable(
    style: PathStyle,
    default_access: SandboxDefaultAccess,
    rules: Seq<PermissionView>,
    out: Seq<PermissionView>,
)
    requires
        amounts_to(style, default_access, rules, Ok(out)),
    ensures
        amounts_to(style, default_access, out, Ok(out)),
{
    let entries = choose|entries: Seq<PermissionView>| #[trigger]
        overlay_result(style, default_access, rules, entries, Ok(out));
    lemma_pruned_is_part(style, entries);
    pruning_reopens_nothing(style, entries);
    lemma_later_is_not_covered(style, entries);
    lemma_nothing_to_prune(style, out);
    assert forall|k: int| 0 <= k < out.len() implies out[k].access == SandboxPathAccess::Deny
        || out[k].access == other_access(default_access) by {
        assert(out.contains(out[k]));
        let i = choose|i: int| 0 <= i < entries.len() && entries[i] == out[k];
        no_entry_repeats_the_default(style, default_access, rules, entries, i);
    }
    assert forall|i: int, j: int| 0 <= i < out.len() && 0 <= j < out.len() && i != j implies path_key(
        style,
        (#[trigger] out[i]).path,
    ) != path_key(style, (#[trigger] out[j]).path) by {
        if path_key(style, out[i].path) == path_key(style, out[j].path) {
            same_key_means_same_components(style, out[i].path, out[j].path);
            ranking_is_total(style, out[i].path, out[j].path);
            ranking_is_total(style, out[j].path, out[i].path);
            if i < j {
                assert(ranks_before(style, out[i].path, out[j].path));
            } else {
                assert(ranks_before(style, out[j].path, out[i].path));
            }
        }
    }
    assert forall|e: PermissionView| #[trigger] out.contains(e) <==> is_overlay(
        style,
        default_access,
        out,
        e,
    ) by {
        if out.contains(e) {
            let k = choose|k: int| 0 <= k < out.len() && out[k] == e;
            assert(is_first_rule(style, out, k));
            lemma_single_rule(style, default_access, out, k);
        }
        if is_overlay(style, default_access, out, e) {
            let k = choose|k: int| #[trigger]
                is_first_rule(style, out, k) && e.path == out[k].path && effective_access(
                    style,
                    default_access,
                    out,
                    path_key(style, out[k].path),
                ) == Some(e.access);
            lemma_single_rule(style, default_access, out, k);
            assert(out[k] == e);
        }
    }
    assert(overlay_result(style, default_access, out, out, Ok(out)));
}

proof fn lemma_single_rule(
    style: PathStyle,
    default_access: SandboxDefaultAccess,
    rules: Seq<PermissionView>,
    k: int,
)
    requires
        0 <= k < rules.len(),
        rules[k].access == SandboxPathAccess::Deny || rules[k].access == other_access(
            default_access,
        ),
        forall|i: int|
            0 <= i < rules.len() && i != k ==> path_key(style, (#[trigger] rules[i]).path)
                != path_key(style, rules[k].path),
    ensures
        effective_access(style, default_access, rules, path_key(style, rules[k].path)) == Some(
            rules[k].access,
        ),
{
    let key = path_key(style, rules[k].path);
    assert(grants(style, rules, key, rules[k].access));
}

proof fn lemma_nothing_to_prune(style: PathStyle, entries: Seq<PermissionView>)
    requires
        forall|i: int, j: int|
            0 <= i < j < entries.len() && (#[trigger] entries[i]).access == (
            #[trigger] entries[j]).access ==> !is_below(style, entries[j].path, entries[i].path),
    ensures
        pruned(style, entries) == entries,
    decreases entries.len(),
{
    if entries.len() > 0 {
        let f = entries.drop_last();
        assert forall|i: int, j: int|
            0 <= i < j < f.len() && (#[trigger] f[i]).access == (
            #[trigger] f[j]).access implies !is_below(style, f[j].path, f[i].path) by {
            assert(entries[i] == f[i] && entries[j] == f[j]);
        }
        lemma_nothing_to_prune(style, f);
        assert(!is_covered(style, f, entries.last())) by {
            if is_covered(style, f, entries.last()) {
                let k = choose|k: int|
                    0 <= k < f.len() && (#[trigger] f[k]).access == entries.last().access
                        && is_below(style, entries.last().path, f[k].path);
                assert(entries[k] == f[k]);
                assert(entries[entries.len() - 1] == entries.last());
            }
        }
        assert(f.push(entries.last()) =~= entries);
    } else {
        assert(pruned(style, entries) =~= entries);
    }
}

/// What rules resolve to, where all of them do.
pub proof fn lemma_resolved_rules(
    style: PathStyle,
    rules: Seq<PermissionView>,
    probes: Seq<ProbeView>,
    resolved: Seq<PermissionView>,
)
    requires
        rules.len() == probes.len(),
        resolved_rules(style, rules, probes) == Ok::<Seq<PermissionView>, ErrorView>(resolved),
    ensures
        resolved.len() == rules.len(),
        forall|i: int|
            0 <= i < rules.len() ==> probes[i] is Resolved && rules[i].path.len() > 0
                && (#[trigger] resolved[i]) == (PermissionView {
                path: canonical_form(style, probes[i]->Resolved_0),
                access: rules[i].access,
            }),
    decreases rules.len(),
{
    if rules.len() > 0 {
        let front = resolved_rules(style, rules.drop_last(), probes.drop_last())->Ok_0;
        lemma_resolved_rules(style, rules.drop_last(), probes.drop_last(), front);
        assert forall|i: int| 0 <= i < rules.len() implies probes[i] is Resolved
            && rules[i].path.len() > 0 && (#[trigger] resolved[i]) == (PermissionView {
            path: canonical_form(style, probes[i]->Resolved_0),
            access: rules[i].access,
        }) by {
            if i < front.len() {
                assert(resolved[i] == front[i]);
                assert(rules.drop_last()[i] == rules[i]);
                assert(probes.drop_last()[i] == probes[i]);
            }
        }
    }
}

/// Every path of an accepted policy was there and could be resolved.
pub proof fn accepted_paths_exist(
    style: PathStyle,
    policy: SandboxPolicy,
    probes: Seq<ProbeView>,
    enforced: SandboxPolicy,
    i: int,
)
    requires
        probes.len() == policy@.path_permissions.len(),
        sanitizes_policy(style, policy, probes, Ok(enforced)),
        0 <= i < probes.len(),
    ensures
        probes[i] is Resolved,
        policy@.path_permissions[i].path.len() > 0,
{
    let resolved = resolved_rules(style, policy@.path_permissions, probes)->Ok_0;
    lemma_resolved_rules(style, policy@.path_permissions, probes, resolved);
    assert(resolved[i].access == policy@.path_permissions[i].access);
}

/// Every path of an enforced policy is what the path of a given rule resolves to.
pub proof fn enforced_paths_are_resolved_paths(
    style: PathStyle,
    policy: SandboxPolicy,
    probes: Seq<ProbeView>,
    enforced: SandboxPolicy,
    k: int,
)
    requires
        probes.len() == policy@.path_permissions.len(),
        sanitizes_policy(style, policy, probes, Ok(enforced)),
        0 <= k < enforced@.path_permissions.len(),
    ensures
        exists|i: int|
            0 <= i < probes.len() && enforced@.path_permissions[k].path == canonical_form(
                style,
                (#[trigger] probes[i])->Resolved_0,
            ),
{
    let resolved = resolved_rules(style, policy@.path_permissions, probes)->Ok_0;
    lemma_resolved_rules(style, policy@.path_permissions, probes, resolved);
    let out = enforced@.path_permissions;
    let entries = choose|entries: Seq<PermissionView>| #[trigger]
        overlay_result(style, policy.default_access, resolved, entries, Ok(out));
    lemma_pruned_is_part(style, entries);
    assert(out.contains(out[k]));
    let e = choose|e: int| 0 <= e < entries.len() && entries[e] == out[k];
    lemma_rule_of_entry(style, policy.default_access, resolved, entries, e);
    let i = choose|i: int| #[trigger]
        rules_give(style, policy.default_access, resolved, i, entries[e].access)
            && resolved[i].path == entries[e].path;
    assert(resolved[i].path == canonical_form(style, probes[i]->Resolved_0));
}

} // verus!
