//! What the order of rules and their repetition mean: nothing.
use vstd::prelude::*;

use crate::bytes::lower_bytes;
use crate::error::{ErrorView, SandboxError};
use crate::laws::{
    lemma_resolved_rules, overlay_is_determined, same_key_means_same_components, same_meaning,
};
use crate::manager::{
    canonical_form, policy_rules, resolved_rule, resolved_rules, sanitizes_policy, ProbeView,
};
use crate::overlay::{
    amounts_to, collapses_to, effective_access, grants, is_covered, is_first_reopening,
    is_first_rule, is_overlay, is_ranked, lemma_first_rule_exists, nothing_reopens, other_access,
    overlay_result, pruned, ranking_is_total, ranks_before, reopens,
};
use crate::path::{
    after_first_piece, component_text, components, find_separator, first_piece, is_below,
    is_separator, is_verbatim, path_key, piece_components, pieces_components, prefix_fits,
    prefix_len, prefix_of, prefix_text, replace_surrogates, same_component, share_len, split_path,
    ComponentView, PathStyle, PrefixView,
};
use crate::policy::{
    same_policy, same_rule_lists, PermissionView, SandboxDefaultAccess, SandboxPathAccess,
    SandboxPolicy,
};

verus! {

/// Two lists hold the same rules, in any order and any number.
pub open spec fn same_rules(a: Seq<PermissionView>, b: Seq<PermissionView>) -> bool {
    forall|e: PermissionView| #[trigger] a.contains(e) <==> b.contains(e)
}

/// Every path is written in one way only.
pub open spec fn one_spelling(style: PathStyle, rules: Seq<PermissionView>) -> bool {
    forall|i: int, j: int|
        0 <= i < rules.len() && 0 <= j < rules.len() && path_key(
            style,
            (#[trigger] rules[i]).path,
        ) == path_key(style, (#[trigger] rules[j]).path) ==> rules[i].path == rules[j].path
}

proof fn lemma_same_grants(
    style: PathStyle,
    a: Seq<PermissionView>,
    b: Seq<PermissionView>,
    key: Seq<u32>,
    access: SandboxPathAccess,
)
    requires
        same_rules(a, b),
        grants(style, a, key, access),
    ensures
        grants(style, b, key, access),
{
    let i = choose|i: int|
        0 <= i < a.len() && path_key(style, (#[trigger] a[i]).path) == key && a[i].access == access;
    assert(a.contains(a[i]));
    assert(b.contains(a[i]));
    let j = choose|j: int| 0 <= j < b.len() && b[j] == a[i];
    assert(path_key(style, b[j].path) == key && b[j].access == access);
}

proof fn lemma_same_effect(
    style: PathStyle,
    default_access: SandboxDefaultAccess,
    a: Seq<PermissionView>,
    b: Seq<PermissionView>,
    key: Seq<u32>,
)
    requires
        same_rules(a, b),
    ensures
        effective_access(style, default_access, a, key) == effective_access(
            style,
            default_access,
            b,
            key,
        ),
{
    assert(same_rules(b, a));
    let deny = SandboxPathAccess::Deny;
    let other = other_access(default_access);
    if grants(style, a, key, deny) {
        lemma_same_grants(style, a, b, key, deny);
    }
    if grants(style, b, key, deny) {
        lemma_same_grants(style, b, a, key, deny);
    }
    if grants(style, a, key, other) {
        lemma_same_grants(style, a, b, key, other);
    }
    if grants(style, b, key, other) {
        lemma_same_grants(style, b, a, key, other);
    }
}

/// A rule of one list has a first rule for its path in the other.
proof fn lemma_first_rule_elsewhere(
    style: PathStyle,
    a: Seq<PermissionView>,
    b: Seq<PermissionView>,
    i: int,
) -> (f: int)
    requires
        same_rules(a, b),
        0 <= i < a.len(),
    ensures
        is_first_rule(style, b, f),
        path_key(style, b[f].path) == path_key(style, a[i].path),
        one_spelling(style, a) ==> b[f].path == a[i].path,
{
    assert(a.contains(a[i]));
    assert(b.contains(a[i]));
    let j = choose|j: int| 0 <= j < b.len() && b[j] == a[i];
    lemma_first_rule_exists(style, b, j);
    let f = choose|f: int| #[trigger]
        is_first_rule(style, b, f) && f <= j && path_key(style, b[f].path) == path_key(
            style,
            b[j].path,
        );
    assert(b.contains(b[f]));
    assert(a.contains(b[f]));
    let k = choose|k: int| 0 <= k < a.len() && a[k] == b[f];
    assert(path_key(style, a[k].path) == path_key(style, a[i].path));
    f
}

proof fn lemma_same_overlay(
    style: PathStyle,
    default_access: SandboxDefaultAccess,
    a: Seq<PermissionView>,
    b: Seq<PermissionView>,
    e: PermissionView,
)
    requires
        same_rules(a, b),
        one_spelling(style, a),
        is_overlay(style, default_access, a, e),
    ensures
        is_overlay(style, default_access, b, e),
{
    let i = choose|i: int| #[trigger]
        is_first_rule(style, a, i) && e.path == a[i].path && effective_access(
            style,
            default_access,
            a,
            path_key(style, a[i].path),
        ) == Some(e.access);
    let f = lemma_first_rule_elsewhere(style, a, b, i);
    lemma_same_effect(style, default_access, a, b, path_key(style, a[i].path));
    assert(is_first_rule(style, b, f) && e.path == b[f].path);
}

proof fn lemma_same_spelling(style: PathStyle, a: Seq<PermissionView>, b: Seq<PermissionView>)
    requires
        same_rules(a, b),
        one_spelling(style, a),
    ensures
        one_spelling(style, b),
{
    assert forall|i: int, j: int|
        0 <= i < b.len() && 0 <= j < b.len() && path_key(style, (#[trigger] b[i]).path) == path_key(
            style,
            (#[trigger] b[j]).path,
        ) implies b[i].path == b[j].path by {
        assert(b.contains(b[i]) && b.contains(b[j]));
        assert(a.contains(b[i]) && a.contains(b[j]));
        let k = choose|k: int| 0 <= k < a.len() && a[k] == b[i];
        let l = choose|l: int| 0 <= l < a.len() && a[l] == b[j];
        assert(path_key(style, a[k].path) == path_key(style, a[l].path));
    }
}

/// The order of rules and how often one is repeated carry no meaning: lists that hold the same
/// rules, with one spelling for each path, are enforced alike or rejected with the same error.
pub proof fn order_and_repetition_carry_no_meaning(
    style: PathStyle,
    default_access: SandboxDefaultAccess,
    a: Seq<PermissionView>,
    b: Seq<PermissionView>,
    x: Result<Seq<PermissionView>, ErrorView>,
    y: Result<Seq<PermissionView>, ErrorView>,
)
    requires
        same_rules(a, b),
        one_spelling(style, a),
        amounts_to(style, default_access, a, x),
        amounts_to(style, default_access, b, y),
    ensures
        x == y,
{
    let entries = choose|entries: Seq<PermissionView>| #[trigger]
        overlay_result(style, default_access, b, entries, y);
    lemma_same_spelling(style, a, b);
    assert(same_rules(b, a));
    assert forall|e: PermissionView| #[trigger] entries.contains(e) <==> is_overlay(
        style,
        default_access,
        a,
        e,
    ) by {
        if is_overlay(style, default_access, a, e) {
            lemma_same_overlay(style, default_access, a, b, e);
        }
        if is_overlay(style, default_access, b, e) {
            lemma_same_overlay(style, default_access, b, a, e);
        }
    }
    assert(overlay_result(style, default_access, a, entries, y));
    overlay_is_determined(style, default_access, a, x, y);
}

proof fn lemma_no_prefix_among_pieces(verbatim: bool, pieces: Seq<Seq<u8>>)
    ensures
        forall|k: int|
            0 <= k < pieces_components(verbatim, pieces).len() ==> !((#[trigger] pieces_components(
                verbatim,
                pieces,
            )[k]) is Prefix),
    decreases pieces.len(),
{
    if pieces.len() > 0 {
        lemma_no_prefix_among_pieces(verbatim, pieces.drop_last());
        let front = pieces_components(verbatim, pieces.drop_last());
        let last = piece_components(verbatim, pieces.last());
        let all = pieces_components(verbatim, pieces);
        assert forall|k: int| 0 <= k < all.len() implies !((#[trigger] all[k]) is Prefix) by {
            if k < front.len() {
                assert(all[k] == front[k]);
            } else {
                assert(all[k] == last[k - front.len()]);
            }
        }
    }
}

/// Two spellings of one path write its prefix alike, up to the case of ASCII letters.
pub open spec fn prefixes_agree(style: PathStyle, rules: Seq<PermissionView>) -> bool {
    forall|i: int, j: int|
        0 <= i < rules.len() && 0 <= j < rules.len() && path_key(
            style,
            (#[trigger] rules[i]).path,
        ) == path_key(style, (#[trigger] rules[j]).path) ==> same_component(
            style,
            prefix_text(style, rules[i].path),
            prefix_text(style, rules[j].path),
        )
}

/// Two entries for one path with one access, whose prefixes are written alike.
#[verifier::opaque]
pub open spec fn alike(style: PathStyle, e: PermissionView, f: PermissionView) -> bool {
    &&& path_key(style, e.path) == path_key(style, f.path)
    &&& e.access == f.access
    &&& same_component(style, prefix_text(style, e.path), prefix_text(style, f.path))
}

/// Two lists whose entries are alike place by place.
pub open spec fn all_alike(
    style: PathStyle,
    a: Seq<PermissionView>,
    b: Seq<PermissionView>,
) -> bool {
    &&& a.len() == b.len()
    &&& forall|i: int| 0 <= i < a.len() ==> alike(style, #[trigger] a[i], b[i])
}

proof fn lemma_prefix_component(style: PathStyle, s: Seq<u8>)
    ensures
        forall|k: int|
            0 <= k < components(style, s).len() ==> ((#[trigger] components(style, s)[k]) matches
                ComponentView::Prefix(p, raw) ==> raw == prefix_text(style, s) && prefix_of(style, s)
                == Some(p)),
        prefix_of(style, s) matches Some(p) ==> components(style, s).len() > 0 && components(
            style,
            s,
        )[0] == ComponentView::Prefix(p, prefix_text(style, s)),
{
    let p = prefix_of(style, s);
    let n = prefix_len(p);
    let rest = s.subrange(n, s.len() as int);
    let tail = rest.subrange(1, rest.len() as int);
    let verbatim = is_verbatim(p);
    lemma_no_prefix_among_pieces(verbatim, split_path(style, verbatim, rest));
    lemma_no_prefix_among_pieces(verbatim, split_path(style, verbatim, tail));
}

proof fn lemma_component_texts_agree(style: PathStyle, a: Seq<u8>, b: Seq<u8>, i: int)
    requires
        path_key(style, a) == path_key(style, b),
        same_component(style, prefix_text(style, a), prefix_text(style, b)),
        0 <= i < components(style, a).len(),
    ensures
        components(style, a).len() == components(style, b).len(),
        same_component(
            style,
            component_text(style, components(style, a)[i]),
            component_text(style, components(style, b)[i]),
        ),
{
    same_key_means_same_components(style, a, b);
    lemma_prefix_component(style, a);
    lemma_prefix_component(style, b);
    assert(same_meaning(components(style, a)[i], components(style, b)[i]));
}

/// Being below another path does not depend on how the two are spelled.
pub proof fn lemma_below_alike(
    style: PathStyle,
    p: Seq<u8>,
    q: Seq<u8>,
    x: Seq<u8>,
    y: Seq<u8>,
)
    requires
        path_key(style, p) == path_key(style, x),
        path_key(style, q) == path_key(style, y),
        same_component(style, prefix_text(style, p), prefix_text(style, x)),
        same_component(style, prefix_text(style, q), prefix_text(style, y)),
        is_below(style, p, q),
    ensures
        is_below(style, x, y),
{
    let (cp, cq) = (components(style, p), components(style, q));
    let (cx, cy) = (components(style, x), components(style, y));
    same_key_means_same_components(style, p, x);
    same_key_means_same_components(style, q, y);
    assert forall|i: int| 0 <= i < cy.len() implies same_component(
        style,
        component_text(style, #[trigger] cy[i]),
        component_text(style, cx[i]),
    ) by {
        lemma_component_texts_agree(style, p, x, i);
        lemma_component_texts_agree(style, q, y, i);
        assert(same_component(style, component_text(style, cq[i]), component_text(style, cp[i])));
    }
}

proof fn lemma_rank_by_key(
    style: PathStyle,
    a: PermissionView,
    b: PermissionView,
    x: PermissionView,
    y: PermissionView,
)
    requires
        alike(style, a, x),
        alike(style, b, y),
        ranks_before(style, a.path, b.path),
    ensures
        ranks_before(style, x.path, y.path),
{
    reveal(alike);
    same_key_means_same_components(style, a.path, x.path);
    same_key_means_same_components(style, b.path, y.path);
}

proof fn lemma_alike_turns(style: PathStyle, e: PermissionView, f: PermissionView)
    requires
        alike(style, e, f),
    ensures
        alike(style, f, e),
{
    reveal(alike);
}

proof fn lemma_alike_keys(style: PathStyle, e: PermissionView, f: PermissionView)
    requires
        alike(style, e, f),
    ensures
        path_key(style, e.path) == path_key(style, f.path),
{
    reveal(alike);
}

/// Some entry of a list is like this one.
#[verifier::opaque]
spec fn has_counterpart(style: PathStyle, e: PermissionView, b: Seq<PermissionView>) -> bool {
    exists|j: int| 0 <= j < b.len() && alike(style, e, #[trigger] b[j])
}

proof fn lemma_counterpart(style: PathStyle, e: PermissionView, b: Seq<PermissionView>) -> (j: int)
    requires
        has_counterpart(style, e, b),
    ensures
        0 <= j < b.len(),
        alike(style, e, b[j]),
{
    reveal(has_counterpart);
    choose|j: int| 0 <= j < b.len() && alike(style, e, #[trigger] b[j])
}

/// Every entry of a list has one like it in the other list.
spec fn has_counterparts(
    style: PathStyle,
    a: Seq<PermissionView>,
    b: Seq<PermissionView>,
) -> bool {
    forall|i: int| 0 <= i < a.len() ==> has_counterpart(style, #[trigger] a[i], b)
}

proof fn lemma_keys_are_distinct(style: PathStyle, a: Seq<PermissionView>, i: int, j: int)
    requires
        is_ranked(style, a),
        0 <= i < j < a.len(),
    ensures
        path_key(style, a[i].path) != path_key(style, a[j].path),
{
    assert(ranks_before(style, a[i].path, a[j].path));
    if path_key(style, a[i].path) == path_key(style, a[j].path) {
        same_key_means_same_components(style, a[i].path, a[j].path);
        ranking_is_total(style, a[i].path, a[j].path);
    }
}

proof fn lemma_shorter_lists_have_counterparts(
    style: PathStyle,
    a: Seq<PermissionView>,
    b: Seq<PermissionView>,
)
    requires
        a.len() > 0,
        b.len() > 0,
        is_ranked(style, a),
        has_counterparts(style, a, b),
        path_key(style, a.last().path) == path_key(style, b.last().path),
    ensures
        has_counterparts(style, a.drop_last(), b.drop_last()),
        is_ranked(style, a.drop_last()),
{
    reveal(alike);
    let (f, g) = (a.drop_last(), b.drop_last());
    assert forall|i: int| 0 <= i < f.len() implies has_counterpart(style, #[trigger] f[i], g) by {
        assert(f[i] == a[i]);
        assert(has_counterpart(style, a[i], b));
        let j = lemma_counterpart(style, a[i], b);
        reveal(has_counterpart);
        lemma_keys_are_distinct(style, a, i, a.len() - 1);
        assert(a[a.len() - 1] == a.last() && b[b.len() - 1] == b.last());
        assert(j < g.len());
        assert(g[j] == b[j]);
    }
    assert forall|i: int, j: int| 0 <= i < j < f.len() implies ranks_before(
        style,
        (#[trigger] f[i]).path,
        (#[trigger] f[j]).path,
    ) by {
        assert(ranks_before(style, a[i].path, a[j].path));
    }
}

proof fn lemma_last_entries_are_alike(
    style: PathStyle,
    a: Seq<PermissionView>,
    b: Seq<PermissionView>,
)
    requires
        a.len() > 0,
        b.len() > 0,
        is_ranked(style, a),
        is_ranked(style, b),
        has_counterpart(style, a.last(), b),
        has_counterpart(style, b.last(), a),
    ensures
        alike(style, a.last(), b.last()),
{
    let (m, n) = (a.len() - 1, b.len() - 1);
    let k = lemma_counterpart(style, a.last(), b);
    let l = lemma_counterpart(style, b.last(), a);
    if k < n {
        assert(ranks_before(style, b[k].path, b[n].path));
        lemma_alike_turns(style, a[m], b[k]);
        lemma_rank_by_key(style, b[k], b[n], a[m], a[l]);
        ranking_is_total(style, a[m].path, a[l].path);
        if l < m {
            assert(ranks_before(style, a[l].path, a[m].path));
        }
        ranking_is_total(style, a[m].path, a[m].path);
    }
}

proof fn lemma_counterparts_stand_alike(
    style: PathStyle,
    a: Seq<PermissionView>,
    b: Seq<PermissionView>,
)
    requires
        is_ranked(style, a),
        is_ranked(style, b),
        has_counterparts(style, a, b),
        has_counterparts(style, b, a),
    ensures
        all_alike(style, a, b),
    decreases a.len(),
{
    if a.len() == 0 {
        if b.len() > 0 {
            let j = lemma_counterpart(style, b[0], a);
        }
    } else {
        let m = a.len() - 1;
        let k = lemma_counterpart(style, a[m], b);
        let n = b.len() - 1;
        assert(has_counterpart(style, b[n], a));
        lemma_last_entries_are_alike(style, a, b);
        lemma_alike_keys(style, a.last(), b.last());
        lemma_shorter_lists_have_counterparts(style, a, b);
        lemma_shorter_lists_have_counterparts(style, b, a);
        lemma_counterparts_stand_alike(style, a.drop_last(), b.drop_last());
        assert forall|i: int| 0 <= i < a.len() implies alike(style, #[trigger] a[i], b[i]) by {
            if i < m {
                assert(alike(style, a.drop_last()[i], b.drop_last()[i]));
            }
        }
    }
}

proof fn lemma_collapse_has_counterparts(
    style: PathStyle,
    default_access: SandboxDefaultAccess,
    a: Seq<PermissionView>,
    b: Seq<PermissionView>,
    ea: Seq<PermissionView>,
    eb: Seq<PermissionView>,
)
    requires
        same_rules(a, b),
        prefixes_agree(style, a),
        collapses_to(style, default_access, a, ea),
        collapses_to(style, default_access, b, eb),
    ensures
        has_counterparts(style, ea, eb),
{
    reveal(alike);
    assert forall|n: int| 0 <= n < ea.len() implies has_counterpart(
        style,
        #[trigger] ea[n],
        eb,
    ) by {
        reveal(has_counterpart);
        let e = ea[n];
        assert(ea.contains(e));
        assert(is_overlay(style, default_access, a, e));
        let i = choose|i: int| #[trigger]
            is_first_rule(style, a, i) && e.path == a[i].path && effective_access(
                style,
                default_access,
                a,
                path_key(style, a[i].path),
            ) == Some(e.access);
        let f = lemma_first_rule_elsewhere(style, a, b, i);
        lemma_same_effect(style, default_access, a, b, path_key(style, a[i].path));
        let x = PermissionView { path: b[f].path, access: e.access };
        assert(is_first_rule(style, b, f) && x.path == b[f].path);
        assert(is_overlay(style, default_access, b, x));
        assert(eb.contains(x));
        let m = choose|m: int| 0 <= m < eb.len() && eb[m] == x;
        assert(b.contains(b[f]));
        assert(a.contains(b[f]));
        let k = choose|k: int| 0 <= k < a.len() && a[k] == b[f];
        assert(path_key(style, a[i].path) == path_key(style, a[k].path));
        assert(alike(style, ea[n], eb[m]));
    }
}

proof fn lemma_same_prefixes(style: PathStyle, a: Seq<PermissionView>, b: Seq<PermissionView>)
    requires
        same_rules(a, b),
        prefixes_agree(style, a),
    ensures
        prefixes_agree(style, b),
{
    assert forall|i: int, j: int|
        0 <= i < b.len() && 0 <= j < b.len() && path_key(style, (#[trigger] b[i]).path) == path_key(
            style,
            (#[trigger] b[j]).path,
        ) implies same_component(
        style,
        prefix_text(style, b[i].path),
        prefix_text(style, b[j].path),
    ) by {
        assert(b.contains(b[i]) && b.contains(b[j]));
        assert(a.contains(b[i]) && a.contains(b[j]));
        let k = choose|k: int| 0 <= k < a.len() && a[k] == b[i];
        let l = choose|l: int| 0 <= l < a.len() && a[l] == b[j];
        assert(path_key(style, a[k].path) == path_key(style, a[l].path));
    }
}

proof fn lemma_alike_lists_reopen_alike(
    style: PathStyle,
    a: Seq<PermissionView>,
    b: Seq<PermissionView>,
)
    requires
        all_alike(style, a, b),
        nothing_reopens(style, a),
    ensures
        nothing_reopens(style, b),
{
    reveal(alike);
    assert forall|i: int, j: int| !#[trigger] reopens(style, b, i, j) by {
        if reopens(style, b, i, j) {
            assert(alike(style, a[i], b[i]) && alike(style, a[j], b[j]));
            lemma_below_alike(style, b[i].path, b[j].path, a[i].path, a[j].path);
            assert(reopens(style, a, i, j));
        }
    }
}

proof fn lemma_alike_lists_cover_alike(
    style: PathStyle,
    a: Seq<PermissionView>,
    b: Seq<PermissionView>,
    e: PermissionView,
    f: PermissionView,
)
    requires
        all_alike(style, a, b),
        alike(style, e, f),
        is_covered(style, a, e),
    ensures
        is_covered(style, b, f),
{
    reveal(alike);
    let k = choose|k: int|
        0 <= k < a.len() && (#[trigger] a[k]).access == e.access && is_below(
            style,
            e.path,
            a[k].path,
        );
    assert(alike(style, a[k], b[k]));
    lemma_below_alike(style, e.path, a[k].path, f.path, b[k].path);
    assert(b[k].access == f.access && is_below(style, f.path, b[k].path));
}

proof fn lemma_alike_is_mutual(style: PathStyle, a: Seq<PermissionView>, b: Seq<PermissionView>)
    requires
        all_alike(style, a, b),
    ensures
        all_alike(style, b, a),
{
    reveal(alike);
    assert forall|i: int| 0 <= i < b.len() implies alike(style, #[trigger] b[i], a[i]) by {
        assert(alike(style, a[i], b[i]));
    }
}

proof fn lemma_alike_lists_prune_alike(
    style: PathStyle,
    a: Seq<PermissionView>,
    b: Seq<PermissionView>,
)
    requires
        all_alike(style, a, b),
    ensures
        all_alike(style, pruned(style, a), pruned(style, b)),
    decreases a.len(),
{
    if a.len() > 0 {
        let (f, g) = (a.drop_last(), b.drop_last());
        assert(alike(style, a[a.len() - 1], b[a.len() - 1]));
        assert forall|i: int| 0 <= i < f.len() implies alike(style, #[trigger] f[i], g[i]) by {
            assert(alike(style, a[i], b[i]));
        }
        lemma_alike_lists_prune_alike(style, f, g);
        let (pf, pg) = (pruned(style, f), pruned(style, g));
        lemma_alike_is_mutual(style, pf, pg);
        if is_covered(style, pf, a.last()) {
            lemma_alike_lists_cover_alike(style, pf, pg, a.last(), b.last());
        }
        if is_covered(style, pg, b.last()) {
            lemma_alike_turns(style, a.last(), b.last());
            lemma_alike_lists_cover_alike(style, pg, pf, b.last(), a.last());
        }
        let (pa, pb) = (pruned(style, a), pruned(style, b));
        assert forall|i: int| 0 <= i < pa.len() implies alike(style, #[trigger] pa[i], pb[i]) by {
            if i < pf.len() {
                assert(alike(style, pf[i], pg[i]));
            }
        }
    }
}

/// The order of rules and how often one is repeated change at most the spelling of what is
/// enforced: lists that hold the same rules are accepted or rejected together, and enforced as the
/// same rules, where two spellings of one path write its prefix alike.
pub proof fn order_and_repetition_change_only_the_spelling(
    style: PathStyle,
    default_access: SandboxDefaultAccess,
    a: Seq<PermissionView>,
    b: Seq<PermissionView>,
    x: Result<Seq<PermissionView>, ErrorView>,
    y: Result<Seq<PermissionView>, ErrorView>,
)
    requires
        same_rules(a, b),
        prefixes_agree(style, a),
        amounts_to(style, default_access, a, x),
        amounts_to(style, default_access, b, y),
    ensures
        x is Ok <==> y is Ok,
        x is Ok && y is Ok ==> same_rule_lists(style, x->Ok_0, y->Ok_0),
{
    let ea = choose|e: Seq<PermissionView>| #[trigger]
        overlay_result(style, default_access, a, e, x);
    let eb = choose|e: Seq<PermissionView>| #[trigger]
        overlay_result(style, default_access, b, e, y);
    assert(same_rules(b, a));
    lemma_same_prefixes(style, a, b);
    lemma_collapse_has_counterparts(style, default_access, a, b, ea, eb);
    lemma_collapse_has_counterparts(style, default_access, b, a, eb, ea);
    lemma_counterparts_stand_alike(style, ea, eb);
    lemma_alike_is_mutual(style, ea, eb);
    if nothing_reopens(style, ea) {
        lemma_alike_lists_reopen_alike(style, ea, eb);
    }
    if nothing_reopens(style, eb) {
        lemma_alike_lists_reopen_alike(style, eb, ea);
    }
    if x is Err {
        let (i, j) = choose|i: int, j: int| #[trigger] is_first_reopening(style, ea, i, j);
        assert(reopens(style, ea, i, j));
    }
    if y is Err {
        let (i, j) = choose|i: int, j: int| #[trigger] is_first_reopening(style, eb, i, j);
        assert(reopens(style, eb, i, j));
    }
    if x is Ok && y is Ok {
        lemma_alike_lists_prune_alike(style, ea, eb);
        let (p, q) = (x->Ok_0, y->Ok_0);
        assert forall|i: int| 0 <= i < p.len() implies path_key(style, (#[trigger] p[i]).path)
            == path_key(style, q[i].path) && p[i].access == q[i].access by {
            assert(alike(style, p[i], q[i]));
            reveal(alike);
        }
    }
}

/// A prefix written with backslashes, and with a capital for its drive.
pub open spec fn plain_prefix(p: PrefixView) -> Seq<u8> {
    match p {
        PrefixView::Verbatim(a) => seq![0x5cu8, 0x5cu8, 0x3fu8, 0x5cu8] + a,
        PrefixView::VerbatimUnc(a, b) => seq![
            0x5cu8,
            0x5cu8,
            0x3fu8,
            0x5cu8,
            0x55u8,
            0x4eu8,
            0x43u8,
            0x5cu8,
        ] + a + plain_share(b),
        PrefixView::VerbatimDisk(d) => seq![0x5cu8, 0x5cu8, 0x3fu8, 0x5cu8, d, 0x3au8],
        PrefixView::DeviceNs(a) => seq![0x5cu8, 0x5cu8, 0x2eu8, 0x5cu8] + a,
        PrefixView::Unc(a, b) => seq![0x5cu8, 0x5cu8] + a + plain_share(b),
        PrefixView::Disk(d) => seq![d, 0x3au8],
    }
}

/// A share with the backslash in front of it.
pub open spec fn plain_share(share: Seq<u8>) -> Seq<u8> {
    if share.len() > 0 {
        seq![0x5cu8] + share
    } else {
        Seq::empty()
    }
}

proof fn lemma_found_separator(verbatim: bool, s: Seq<u8>, from: int)
    requires
        0 <= from <= s.len(),
    ensures
        from <= find_separator(PathStyle::Windows, verbatim, s, from) <= s.len(),
        find_separator(PathStyle::Windows, verbatim, s, from) < s.len() ==> is_separator(
            PathStyle::Windows,
            verbatim,
            s[find_separator(PathStyle::Windows, verbatim, s, from)],
        ),
    decreases s.len() - from,
{
    if from < s.len() && !is_separator(PathStyle::Windows, verbatim, s[from]) {
        lemma_found_separator(verbatim, s, from + 1);
    }
}

/// Two pieces with what stands between them, where no slash does.
proof fn lemma_two_plain_pieces(verbatim: bool, rest: Seq<u8>)
    requires
        ({
            let a = first_piece(verbatim, rest);
            let b = first_piece(verbatim, after_first_piece(verbatim, rest));
            !rest.take(a.len() + share_len(b)).contains(0x2fu8)
        }),
    ensures
        ({
            let a = first_piece(verbatim, rest);
            let b = first_piece(verbatim, after_first_piece(verbatim, rest));
            a.len() + share_len(b) <= rest.len() && rest.take(a.len() + share_len(b)) == a
                + plain_share(b)
        }),
{
    let a = first_piece(verbatim, rest);
    let more = after_first_piece(verbatim, rest);
    let b = first_piece(verbatim, more);
    let n = a.len() + share_len(b);
    lemma_found_separator(verbatim, rest, 0);
    lemma_found_separator(verbatim, more, 0);
    let k = find_separator(PathStyle::Windows, verbatim, rest, 0);
    assert(a.len() == k);
    if b.len() > 0 {
        assert(k < rest.len());
        assert(rest.take(n)[k] == rest[k]);
        assert(rest.take(n).contains(rest[k]));
        assert(rest[k] == 0x5c);
        assert forall|i: int| 0 <= i < b.len() implies rest[k + 1 + i] == b[i] by {
            assert(more[i] == b[i]);
        }
    }
    assert(rest.take(n) =~= a + plain_share(b));
}

proof fn lemma_part_holds_no_slash(s: Seq<u8>, n: int, from: int)
    requires
        0 <= from <= n <= s.len(),
        !s.take(n).contains(0x2fu8),
    ensures
        !s.subrange(from, s.len() as int).take(n - from).contains(0x2fu8),
        s.take(n) == s.take(from) + s.subrange(from, s.len() as int).take(n - from),
{
    let part = s.subrange(from, s.len() as int).take(n - from);
    if part.contains(0x2fu8) {
        let i = choose|i: int| 0 <= i < part.len() && part[i] == 0x2fu8;
        assert(s.take(n)[from + i] == 0x2fu8);
    }
    assert(s.take(n) =~= s.take(from) + part);
}

proof fn lemma_single_piece(verbatim: bool, rest: Seq<u8>)
    ensures
        first_piece(verbatim, rest).len() <= rest.len(),
        rest.take(first_piece(verbatim, rest).len() as int) == first_piece(verbatim, rest),
{
    lemma_found_separator(verbatim, rest, 0);
}

proof fn lemma_prefix_is_plain(s: Seq<u8>, p: PrefixView)
    requires
        prefix_of(PathStyle::Windows, s) == Some(p),
        !prefix_text(PathStyle::Windows, s).contains(0x2fu8),
    ensures
        same_component(
            PathStyle::Windows,
            prefix_text(PathStyle::Windows, s),
            plain_prefix(p),
        ),
{
    let n = prefix_len(Some(p));
    let text = prefix_text(PathStyle::Windows, s);
    prefix_fits(PathStyle::Windows, s);
    assert forall|i: int| 0 <= i < n implies #[trigger] s[i] != 0x2f by {
        assert(text[i] == s[i]);
    }
    match p {
        PrefixView::VerbatimUnc(a, b) => {
            lemma_part_holds_no_slash(s, n, 8);
            lemma_two_plain_pieces(true, s.subrange(8, s.len() as int));
            assert(text =~= plain_prefix(p));
        },
        PrefixView::Verbatim(a) => {
            lemma_part_holds_no_slash(s, n, 4);
            lemma_single_piece(true, s.subrange(4, s.len() as int));
            assert(text =~= plain_prefix(p));
        },
        PrefixView::DeviceNs(a) => {
            lemma_part_holds_no_slash(s, n, 4);
            lemma_single_piece(false, s.subrange(4, s.len() as int));
            assert(s[0] == 0x5c && s[1] == 0x5c && s[3] == 0x5c);
            assert(text =~= plain_prefix(p));
        },
        PrefixView::Unc(a, b) => {
            lemma_part_holds_no_slash(s, n, 2);
            lemma_two_plain_pieces(false, s.subrange(2, s.len() as int));
            assert(s[0] == 0x5c && s[1] == 0x5c);
            assert(text =~= plain_prefix(p));
        },
        PrefixView::VerbatimDisk(d) => {
            let q = plain_prefix(p);
            lemma_plain_bytes(text);
            lemma_plain_bytes(q);
            assert(lower_bytes(text) =~= lower_bytes(q));
        },
        PrefixView::Disk(d) => {
            let q = plain_prefix(p);
            lemma_plain_bytes(text);
            lemma_plain_bytes(q);
            assert(lower_bytes(text) =~= lower_bytes(q));
        },
    }
}

/// Bytes without the one that surrogates start with stay as they are.
proof fn lemma_plain_bytes(s: Seq<u8>)
    requires
        !s.contains(0xedu8),
    ensures
        replace_surrogates(s) == s,
    decreases s.len(),
{
    if s.len() > 0 {
        let rest = s.subrange(1, s.len() as int);
        assert(s.contains(s[0]));
        assert(!rest.contains(0xedu8)) by {
            if rest.contains(0xedu8) {
                let i = choose|i: int| 0 <= i < rest.len() && rest[i] == 0xedu8;
                assert(s[i + 1] == 0xedu8);
            }
        }
        lemma_plain_bytes(rest);
        assert(s =~= seq![s[0]] + rest);
    }
}

/// Two spellings of one path write its prefix alike, unless one of them writes it with a slash.
/// Unix paths have no prefix.
pub proof fn only_slashes_write_a_prefix_differently(style: PathStyle, a: Seq<u8>, b: Seq<u8>)
    requires
        path_key(style, a) == path_key(style, b),
        style == PathStyle::Windows ==> !prefix_text(style, a).contains(0x2fu8) && !prefix_text(
            style,
            b,
        ).contains(0x2fu8),
    ensures
        same_component(style, prefix_text(style, a), prefix_text(style, b)),
{
    same_key_means_same_components(style, a, b);
    lemma_prefix_component(style, a);
    lemma_prefix_component(style, b);
    let (x, y) = (components(style, a), components(style, b));
    if prefix_of(style, a) is Some || prefix_of(style, b) is Some {
        assert(x.len() > 0 && y.len() > 0);
        assert(same_meaning(x[0], y[0]));
        assert(x[0] is Prefix && y[0] is Prefix);
        let p = prefix_of(style, a)->0;
        assert(prefix_of(style, b) == Some(p));
        lemma_prefix_is_plain(a, p);
        lemma_prefix_is_plain(b, p);
    } else {
        assert(prefix_text(style, a) =~= prefix_text(style, b));
    }
}

/// The rules of a policy with what was observed of their paths.
pub open spec fn observed_rules(policy: SandboxPolicy, probes: Seq<ProbeView>) -> Seq<
    (PermissionView, ProbeView),
> {
    Seq::new(
        policy@.path_permissions.len(),
        |i: int| (policy@.path_permissions[i], probes[i]),
    )
}

/// The system writes every path that rules resolve to in one way only.
pub open spec fn resolves_to_one_spelling(style: PathStyle, probes: Seq<ProbeView>) -> bool {
    forall|i: int, j: int|
        0 <= i < probes.len() && 0 <= j < probes.len() && (#[trigger] probes[i]) is Resolved && (
        #[trigger] probes[j]) is Resolved && path_key(
            style,
            canonical_form(style, probes[i]->Resolved_0),
        ) == path_key(style, canonical_form(style, probes[j]->Resolved_0)) ==> canonical_form(
            style,
            probes[i]->Resolved_0,
        ) == canonical_form(style, probes[j]->Resolved_0)
}

/// Rules cannot be resolved exactly where one of them cannot.
pub proof fn lemma_resolving_fails_at_a_rule(
    style: PathStyle,
    rules: Seq<PermissionView>,
    probes: Seq<ProbeView>,
)
    requires
        rules.len() == probes.len(),
    ensures
        resolved_rules(style, rules, probes) is Err <==> exists|i: int|
            0 <= i < rules.len() && resolved_rule(style, #[trigger] rules[i], probes[i]) is Err,
    decreases rules.len(),
{
    if rules.len() > 0 {
        let f = rules.drop_last();
        let p = probes.drop_last();
        let n = rules.len() - 1;
        lemma_resolving_fails_at_a_rule(style, f, p);
        if resolved_rules(style, f, p) is Err {
            let i = choose|i: int|
                0 <= i < f.len() && resolved_rule(style, #[trigger] f[i], p[i]) is Err;
            assert(rules[i] == f[i] && probes[i] == p[i]);
            assert(resolved_rule(style, rules[i], probes[i]) is Err);
        } else if resolved_rules(style, rules, probes) is Err {
            assert(resolved_rule(style, rules[n], probes[n]) is Err);
        }
        if exists|i: int|
            0 <= i < rules.len() && resolved_rule(style, #[trigger] rules[i], probes[i]) is Err {
            let i = choose|i: int|
                0 <= i < rules.len() && resolved_rule(style, #[trigger] rules[i], probes[i]) is Err;
            if i < n {
                assert(rules[i] == f[i] && probes[i] == p[i]);
                assert(resolved_rule(style, f[i], p[i]) is Err);
            }
        }
    }
}

/// What one list of observed rules resolves to is among what the other resolves to.
proof fn lemma_resolved_elsewhere(
    style: PathStyle,
    a: SandboxPolicy,
    pa: Seq<ProbeView>,
    b: SandboxPolicy,
    pb: Seq<ProbeView>,
)
    requires
        pa.len() == a@.path_permissions.len(),
        pb.len() == b@.path_permissions.len(),
        forall|e: (PermissionView, ProbeView)| #[trigger]
            observed_rules(a, pa).contains(e) ==> observed_rules(b, pb).contains(e),
    ensures
        resolved_rules(style, a@.path_permissions, pa) is Err ==> resolved_rules(
            style,
            b@.path_permissions,
            pb,
        ) is Err,
        resolved_rules(style, a@.path_permissions, pa) is Ok && resolved_rules(
            style,
            b@.path_permissions,
            pb,
        ) is Ok ==> forall|e: PermissionView| #[trigger]
            resolved_rules(style, a@.path_permissions, pa)->Ok_0.contains(e) ==> resolved_rules(
                style,
                b@.path_permissions,
                pb,
            )->Ok_0.contains(e),
{
    let ra = a@.path_permissions;
    let rb = b@.path_permissions;
    lemma_resolving_fails_at_a_rule(style, ra, pa);
    lemma_resolving_fails_at_a_rule(style, rb, pb);
    if resolved_rules(style, ra, pa) is Err {
        let i = choose|i: int|
            0 <= i < ra.len() && resolved_rule(style, #[trigger] ra[i], pa[i]) is Err;
        let j = lemma_observed_elsewhere(a, pa, b, pb, i);
        assert(resolved_rule(style, rb[j], pb[j]) is Err);
    } else if resolved_rules(style, rb, pb) is Ok {
        let oa = resolved_rules(style, ra, pa)->Ok_0;
        let ob = resolved_rules(style, rb, pb)->Ok_0;
        lemma_resolved_rules(style, ra, pa, oa);
        lemma_resolved_rules(style, rb, pb, ob);
        assert forall|e: PermissionView| #[trigger] oa.contains(e) implies ob.contains(e) by {
            let i = choose|i: int| 0 <= i < oa.len() && oa[i] == e;
            let j = lemma_observed_elsewhere(a, pa, b, pb, i);
            assert(ob[j] == oa[i]);
        }
    }
}

proof fn lemma_observed_elsewhere(
    a: SandboxPolicy,
    pa: Seq<ProbeView>,
    b: SandboxPolicy,
    pb: Seq<ProbeView>,
    i: int,
) -> (j: int)
    requires
        forall|e: (PermissionView, ProbeView)| #[trigger]
            observed_rules(a, pa).contains(e) ==> observed_rules(b, pb).contains(e),
        0 <= i < a@.path_permissions.len(),
    ensures
        0 <= j < b@.path_permissions.len(),
        b@.path_permissions[j] == a@.path_permissions[i],
        pb[j] == pa[i],
{
    let e = (a@.path_permissions[i], pa[i]);
    assert(observed_rules(a, pa)[i] == e);
    assert(observed_rules(a, pa).contains(e));
    assert(observed_rules(b, pb).contains(e));
    let j = choose|j: int|
        0 <= j < observed_rules(b, pb).len() && observed_rules(b, pb)[j] == e;
    assert(observed_rules(b, pb)[j] == (b@.path_permissions[j], pb[j]));
    j
}

/// Two spellings that the system gives of one path write its prefix alike.
pub open spec fn resolved_prefixes_agree(style: PathStyle, probes: Seq<ProbeView>) -> bool {
    forall|i: int, j: int|
        0 <= i < probes.len() && 0 <= j < probes.len() && (#[trigger] probes[i]) is Resolved && (
        #[trigger] probes[j]) is Resolved && path_key(
            style,
            canonical_form(style, probes[i]->Resolved_0),
        ) == path_key(style, canonical_form(style, probes[j]->Resolved_0)) ==> same_component(
            style,
            prefix_text(style, canonical_form(style, probes[i]->Resolved_0)),
            prefix_text(style, canonical_form(style, probes[j]->Resolved_0)),
        )
}

/// Two policies that differ only in the order of their rules and in how often a rule is repeated,
/// and of whose paths the same was observed, are accepted or rejected together, and enforced as the
/// same policy. Where the system writes each path in one way only, the enforced policies are also
/// written alike.
pub proof fn reordered_policies_are_enforced_alike(
    style: PathStyle,
    a: SandboxPolicy,
    pa: Seq<ProbeView>,
    b: SandboxPolicy,
    pb: Seq<ProbeView>,
    x: Result<SandboxPolicy, SandboxError>,
    y: Result<SandboxPolicy, SandboxError>,
)
    requires
        pa.len() == a@.path_permissions.len(),
        pb.len() == b@.path_permissions.len(),
        a.default_access == b.default_access,
        a.network_policy == b.network_policy,
        forall|e: (PermissionView, ProbeView)| #[trigger]
            observed_rules(a, pa).contains(e) <==> observed_rules(b, pb).contains(e),
        resolved_prefixes_agree(style, pa),
        sanitizes_policy(style, a, pa, x),
        sanitizes_policy(style, b, pb, y),
    ensures
        x is Ok <==> y is Ok,
        x is Ok && y is Ok ==> same_policy(style, x->Ok_0@, y->Ok_0@),
        x is Ok && y is Ok && resolves_to_one_spelling(style, pa) ==> x->Ok_0@ == y->Ok_0@,
{
    let ra = resolved_rules(style, a@.path_permissions, pa);
    let rb = resolved_rules(style, b@.path_permissions, pb);
    lemma_resolved_elsewhere(style, a, pa, b, pb);
    lemma_resolved_elsewhere(style, b, pb, a, pa);
    if ra is Ok {
        let oa = ra->Ok_0;
        let ob = rb->Ok_0;
        lemma_resolved_rules(style, a@.path_permissions, pa, oa);
        assert forall|e: PermissionView| #[trigger] oa.contains(e) <==> ob.contains(e) by {}
        assert forall|i: int| 0 <= i < oa.len() implies (#[trigger] oa[i]).path == canonical_form(
            style,
            pa[i]->Resolved_0,
        ) && pa[i] is Resolved by {}
        assert(prefixes_agree(style, oa)) by {
            assert forall|i: int, j: int|
                0 <= i < oa.len() && 0 <= j < oa.len() && path_key(style, (#[trigger] oa[i]).path)
                    == path_key(style, (#[trigger] oa[j]).path) implies same_component(
                style,
                prefix_text(style, oa[i].path),
                prefix_text(style, oa[j].path),
            ) by {
                assert(pa[i] is Resolved && pa[j] is Resolved);
            }
        }
        order_and_repetition_change_only_the_spelling(
            style,
            a.default_access,
            oa,
            ob,
            policy_rules(x),
            policy_rules(y),
        );
        if resolves_to_one_spelling(style, pa) {
            assert(one_spelling(style, oa)) by {
                assert forall|i: int, j: int|
                    0 <= i < oa.len() && 0 <= j < oa.len() && path_key(
                        style,
                        (#[trigger] oa[i]).path,
                    ) == path_key(style, (#[trigger] oa[j]).path) implies oa[i].path
                    == oa[j].path by {
                    assert(pa[i] is Resolved && pa[j] is Resolved);
                }
            }
            order_and_repetition_carry_no_meaning(
                style,
                a.default_access,
                oa,
                ob,
                policy_rules(x),
                policy_rules(y),
            );
        }
    }
}

} // verus!
