//! What becomes of a request and of a policy, told from what was given and observed alone.
use vstd::prelude::*;

use crate::bytes::{dictionary_less, dictionary_order_is_total};
use crate::env::is_blocked_variable;
use crate::error::{ErrorView, SandboxError};
use crate::laws::{
    below_is_transitive, covers, every_path_is_below_itself, lemma_entry_of_rule,
    lemma_pruned_is_part, lemma_resolved_rules, lemma_rule_of_entry, rejection_is_exact, rules_are_enforced_as_asked, rules_cover, rules_give,
    rules_reopen, same_key_means_same_components,
};
use crate::manager::{
    canonical_form, policy_rules, resolved_rule, resolved_rules, sanitized_request,
    sanitizes_policy, ProbeView, RequestView,
};
use crate::overlay::{
    amounts_to, grants, is_first_reopening, is_first_rule, lemma_first_rule_exists, other_access,
    overlay_result, ranks_before, reopening_error, reopens,
};
use crate::path::{
    components, display_text, is_below, path_key, prefix_text, same_component, PathStyle,
};
use crate::policy::{PermissionView, SandboxDefaultAccess, SandboxPathAccess, SandboxPolicy};
use crate::rule_order::{lemma_below_alike, lemma_resolving_fails_at_a_rule, prefixes_agree};
use crate::text::is_blank;

verus! {

/// A rule with a path is accepted exactly where the path was resolved, be it a file or a directory.
/// It then keeps its access, and its path is what was found.
pub proof fn existing_paths_are_accepted(style: PathStyle, rule: PermissionView, probe: ProbeView)
    ensures
        resolved_rule(style, rule, probe) is Ok <==> rule.path.len() > 0 && probe is Resolved,
        rule.path.len() > 0 ==> (probe matches ProbeView::Resolved(found, _) ==> resolved_rule(
            style,
            rule,
            probe,
        ) == Ok::<PermissionView, ErrorView>(
            PermissionView { path: canonical_form(style, found), access: rule.access },
        )),
        probe matches ProbeView::Resolved(found, _) ==> canonical_form(PathStyle::Unix, found)
            == found,
{
}

/// Whether a path is a file or a directory makes no difference to a rule.
pub proof fn files_and_directories_are_ruled_alike(
    style: PathStyle,
    rule: PermissionView,
    found: Seq<u8>,
)
    ensures
        resolved_rule(style, rule, ProbeView::Resolved(found, false)) == resolved_rule(
            style,
            rule,
            ProbeView::Resolved(found, true),
        ),
{
}

/// What is said of a rule whose path is empty, missing or cannot be resolved. A rule that would
/// allow something says so a second time.
pub proof fn refused_rules_are_named(style: PathStyle, rule: PermissionView, probe: ProbeView)
    ensures
        ({
            let shown = display_text(style, rule.path);
            let label = match rule.access {
                SandboxPathAccess::Deny => "deny"@,
                SandboxPathAccess::ReadOnly => "read_only"@,
                SandboxPathAccess::ReadWrite => "read_write"@,
            } + " path"@;
            let denies = rule.access == SandboxPathAccess::Deny;
            let refused = resolved_rule(style, rule, probe);
            &&& rule.path.len() == 0 && denies ==> refused == Err::<PermissionView, ErrorView>(
                ErrorView::InvalidRequest(label + " must not be empty"@),
            )
            &&& rule.path.len() == 0 && !denies ==> refused == Err::<PermissionView, ErrorView>(
                ErrorView::InvalidRequest(
                    label + " must not be empty"@ + " (allow path must not be empty)"@,
                ),
            )
            &&& rule.path.len() > 0 && probe is Missing && denies ==> refused == Err::<
                PermissionView,
                ErrorView,
            >(ErrorView::InvalidRequest(label + " does not exist: "@ + shown))
            &&& rule.path.len() > 0 && probe is Missing && !denies ==> refused == Err::<
                PermissionView,
                ErrorView,
            >(
                ErrorView::InvalidRequest(
                    label + " does not exist: "@ + shown + " (allow path does not exist)"@,
                ),
            )
            &&& rule.path.len() > 0 ==> (probe matches ProbeView::Unresolvable(why) ==> refused
                == Err::<PermissionView, ErrorView>(
                ErrorView::InvalidRequest(label + " cannot be canonicalized: "@ + shown + ": "@ + why),
            ))
        }),
{
}

/// Rules are resolved one by one, and the first that is refused decides.
pub proof fn the_first_refused_rule_decides(
    style: PathStyle,
    rules: Seq<PermissionView>,
    probes: Seq<ProbeView>,
    i: int,
)
    requires
        rules.len() == probes.len(),
        0 <= i < rules.len(),
        resolved_rule(style, rules[i], probes[i]) is Err,
        forall|j: int|
            0 <= j < i ==> resolved_rule(style, #[trigger] rules[j], probes[j]) is Ok,
    ensures
        resolved_rules(style, rules, probes) is Err,
        resolved_rules(style, rules, probes)->Err_0 == resolved_rule(
            style,
            rules[i],
            probes[i],
        )->Err_0,
    decreases rules.len(),
{
    let f = rules.drop_last();
    let p = probes.drop_last();
    if i < f.len() {
        assert(f[i] == rules[i] && p[i] == probes[i]);
        assert forall|j: int| 0 <= j < i implies resolved_rule(style, #[trigger] f[j], p[j]) is Ok by {
            assert(f[j] == rules[j] && p[j] == probes[j]);
        }
        the_first_refused_rule_decides(style, f, p, i);
    } else {
        lemma_resolving_fails_at_a_rule(style, f, p);
        assert forall|j: int| 0 <= j < f.len() implies resolved_rule(
            style,
            #[trigger] f[j],
            p[j],
        ) is Ok by {
            assert(f[j] == rules[j] && p[j] == probes[j]);
        }
        assert(resolved_rules(style, f, p) is Ok);
    }
}

/// The access that is not the default's and denies nothing.
pub open spec fn granted_access(default_access: SandboxDefaultAccess) -> SandboxPathAccess {
    if default_access == SandboxDefaultAccess::ReadOnly {
        SandboxPathAccess::ReadWrite
    } else {
        SandboxPathAccess::ReadOnly
    }
}

/// The rule at `i` asks for more than the default below the path that the rule at `j` denies, and
/// no rule denies its own path.
pub open spec fn asks_below_a_denial(
    style: PathStyle,
    default_access: SandboxDefaultAccess,
    rules: Seq<PermissionView>,
    i: int,
    j: int,
) -> bool {
    &&& 0 <= i < rules.len() && 0 <= j < rules.len()
    &&& rules[i].access == granted_access(default_access)
    &&& rules[j].access == SandboxPathAccess::Deny
    &&& is_below(style, rules[i].path, rules[j].path)
    &&& forall|k: int|
        0 <= k < rules.len() && path_key(style, (#[trigger] rules[k]).path) == path_key(
            style,
            rules[i].path,
        ) ==> rules[k].access != SandboxPathAccess::Deny
}

/// A rule is there first under its path, or another one is.
proof fn lemma_first_of(style: PathStyle, rules: Seq<PermissionView>, i: int) -> (f: int)
    requires
        0 <= i < rules.len(),
    ensures
        is_first_rule(style, rules, f),
        path_key(style, rules[f].path) == path_key(style, rules[i].path),
{
    lemma_first_rule_exists(style, rules, i);
    choose|f: int| #[trigger]
        is_first_rule(style, rules, f) && path_key(style, rules[f].path) == path_key(
            style,
            rules[i].path,
        )
}

proof fn lemma_below_first(
    style: PathStyle,
    rules: Seq<PermissionView>,
    a: int,
    b: int,
    c: int,
    d: int,
)
    requires
        prefixes_agree(style, rules),
        0 <= a < rules.len() && 0 <= b < rules.len() && 0 <= c < rules.len() && 0 <= d < rules.len(),
        path_key(style, rules[a].path) == path_key(style, rules[c].path),
        path_key(style, rules[b].path) == path_key(style, rules[d].path),
        is_below(style, rules[a].path, rules[b].path),
    ensures
        is_below(style, rules[c].path, rules[d].path),
{
    assert(same_component(
        style,
        prefix_text(style, rules[a].path),
        prefix_text(style, rules[c].path),
    ));
    assert(same_component(
        style,
        prefix_text(style, rules[b].path),
        prefix_text(style, rules[d].path),
    ));
    lemma_below_alike(style, rules[a].path, rules[b].path, rules[c].path, rules[d].path);
}

/// Paths have no prefix on Unix.
proof fn lemma_unix_prefixes_agree(rules: Seq<PermissionView>)
    ensures
        prefixes_agree(PathStyle::Unix, rules),
{
    assert forall|i: int| 0 <= i < rules.len() implies prefix_text(
        PathStyle::Unix,
        (#[trigger] rules[i]).path,
    ) =~= Seq::<u8>::empty() by {}
}

/// Where spellings of one path write its prefix alike, rules are refused exactly when one asks for
/// more than the default below a path that another denies.
pub proof fn rules_are_refused_exactly(
    style: PathStyle,
    default_access: SandboxDefaultAccess,
    rules: Seq<PermissionView>,
    result: Result<Seq<PermissionView>, ErrorView>,
)
    requires
        amounts_to(style, default_access, rules, result),
        style == PathStyle::Unix || prefixes_agree(style, rules),
    ensures
        result is Err <==> exists|i: int, j: int| #[trigger]
            asks_below_a_denial(style, default_access, rules, i, j),
{
    lemma_unix_prefixes_agree(rules);
    rejection_is_exact(style, default_access, rules, result);
    if result is Err {
        let (i, j) = choose|i: int, j: int| #[trigger]
            rules_reopen(style, default_access, rules, i, j);
        let ki = path_key(style, rules[i].path);
        let kj = path_key(style, rules[j].path);
        assert(grants(style, rules, ki, other_access(default_access)));
        assert(!grants(style, rules, ki, SandboxPathAccess::Deny));
        assert(grants(style, rules, kj, SandboxPathAccess::Deny));
        let a = choose|a: int|
            0 <= a < rules.len() && path_key(style, (#[trigger] rules[a]).path) == ki
                && rules[a].access == other_access(default_access);
        let b = choose|b: int|
            0 <= b < rules.len() && path_key(style, (#[trigger] rules[b]).path) == kj
                && rules[b].access == SandboxPathAccess::Deny;
        lemma_below_first(style, rules, i, j, a, b);
        assert(asks_below_a_denial(style, default_access, rules, a, b));
    }
    if exists|i: int, j: int| #[trigger]
        asks_below_a_denial(style, default_access, rules, i, j) {
        let (i, j) = choose|i: int, j: int| #[trigger]
            asks_below_a_denial(style, default_access, rules, i, j);
        let a = lemma_first_of(style, rules, i);
        let b = lemma_first_of(style, rules, j);
        lemma_below_first(style, rules, i, j, a, b);
        let ki = path_key(style, rules[i].path);
        let kj = path_key(style, rules[j].path);
        assert(grants(style, rules, ki, other_access(default_access)));
        assert(!grants(style, rules, ki, SandboxPathAccess::Deny));
        assert(grants(style, rules, kj, SandboxPathAccess::Deny));
        assert(rules_reopen(style, default_access, rules, a, b));
    }
}

proof fn lemma_below_spelling(
    style: PathStyle,
    rules: Seq<PermissionView>,
    q: Seq<u8>,
    a: int,
    b: int,
)
    requires
        prefixes_agree(style, rules),
        0 <= a < rules.len() && 0 <= b < rules.len(),
        path_key(style, rules[a].path) == path_key(style, rules[b].path),
        is_below(style, q, rules[a].path),
    ensures
        is_below(style, q, rules[b].path),
{
    every_path_is_below_itself(style, rules[a].path);
    lemma_below_first(style, rules, a, a, a, b);
    below_is_transitive(style, q, rules[a].path, rules[b].path);
}

/// Where spellings of one path write its prefix alike, what is enforced on a path is what the rules
/// say, whichever of them says it: denial at or below every denied path, and elsewhere the other
/// access at or below every path that is given it.
pub proof fn every_rule_is_enforced(
    style: PathStyle,
    default_access: SandboxDefaultAccess,
    rules: Seq<PermissionView>,
    out: Seq<PermissionView>,
    q: Seq<u8>,
)
    requires
        amounts_to(style, default_access, rules, Ok(out)),
        style == PathStyle::Unix || prefixes_agree(style, rules),
    ensures
        covers(style, out, SandboxPathAccess::Deny, q) <==> covers(
            style,
            rules,
            SandboxPathAccess::Deny,
            q,
        ),
        !covers(style, rules, SandboxPathAccess::Deny, q) ==> (covers(
            style,
            out,
            granted_access(default_access),
            q,
        ) <==> covers(style, rules, granted_access(default_access), q)),
{
    lemma_unix_prefixes_agree(rules);
    rules_are_enforced_as_asked(style, default_access, rules, out, q);
    let other = other_access(default_access);
    let deny = SandboxPathAccess::Deny;
    if rules_cover(style, default_access, rules, deny, q) {
        let i = choose|i: int| #[trigger]
            rules_give(style, default_access, rules, i, deny) && is_below(style, q, rules[i].path);
        let key = path_key(style, rules[i].path);
        assert(grants(style, rules, key, deny));
        let a = choose|a: int|
            0 <= a < rules.len() && path_key(style, (#[trigger] rules[a]).path) == key
                && rules[a].access == deny;
        lemma_below_spelling(style, rules, q, i, a);
    }
    if covers(style, rules, deny, q) {
        let a = choose|a: int|
            0 <= a < rules.len() && (#[trigger] rules[a]).access == deny && is_below(
                style,
                q,
                rules[a].path,
            );
        let i = lemma_first_of(style, rules, a);
        lemma_below_spelling(style, rules, q, a, i);
        assert(grants(style, rules, path_key(style, rules[i].path), deny));
        assert(rules_give(style, default_access, rules, i, deny));
    }
    if rules_cover(style, default_access, rules, other, q) {
        let i = choose|i: int| #[trigger]
            rules_give(style, default_access, rules, i, other) && is_below(style, q, rules[i].path);
        let key = path_key(style, rules[i].path);
        assert(grants(style, rules, key, other));
        let a = choose|a: int|
            0 <= a < rules.len() && path_key(style, (#[trigger] rules[a]).path) == key
                && rules[a].access == other;
        lemma_below_spelling(style, rules, q, i, a);
    }
    if covers(style, rules, other, q) && !covers(style, rules, deny, q) {
        let a = choose|a: int|
            0 <= a < rules.len() && (#[trigger] rules[a]).access == other && is_below(
                style,
                q,
                rules[a].path,
            );
        let i = lemma_first_of(style, rules, a);
        lemma_below_spelling(style, rules, q, a, i);
        let key = path_key(style, rules[i].path);
        assert(grants(style, rules, key, other));
        if grants(style, rules, key, deny) {
            let d = choose|d: int|
                0 <= d < rules.len() && path_key(style, (#[trigger] rules[d]).path) == key
                    && rules[d].access == deny;
            lemma_below_spelling(style, rules, q, i, d);
            assert(covers(style, rules, deny, q));
        }
        assert(rules_give(style, default_access, rules, i, other));
    }
}

/// The rules of a policy with each path replaced by what was found for it.
pub open spec fn found_rules(
    style: PathStyle,
    rules: Seq<PermissionView>,
    probes: Seq<ProbeView>,
) -> Seq<PermissionView> {
    Seq::new(
        rules.len(),
        |i: int|
            PermissionView {
                path: canonical_form(style, probes[i]->Resolved_0),
                access: rules[i].access,
            },
    )
}

/// The rule at `i` names no path, or one that was not resolved.
pub open spec fn is_unusable(rules: Seq<PermissionView>, probes: Seq<ProbeView>, i: int) -> bool {
    0 <= i < rules.len() && (rules[i].path.len() == 0 || !(probes[i] is Resolved))
}

proof fn lemma_all_found(style: PathStyle, rules: Seq<PermissionView>, probes: Seq<ProbeView>)
    requires
        rules.len() == probes.len(),
    ensures
        resolved_rules(style, rules, probes) is Err <==> exists|i: int| #[trigger]
            is_unusable(rules, probes, i),
        resolved_rules(style, rules, probes) is Ok ==> resolved_rules(style, rules, probes)->Ok_0
            == found_rules(style, rules, probes),
{
    lemma_resolving_fails_at_a_rule(style, rules, probes);
    if resolved_rules(style, rules, probes) is Ok {
        let resolved = resolved_rules(style, rules, probes)->Ok_0;
        lemma_resolved_rules(style, rules, probes, resolved);
        assert(resolved =~= found_rules(style, rules, probes));
        assert forall|i: int| !#[trigger] is_unusable(rules, probes, i) by {
            if 0 <= i < rules.len() {
                assert(resolved[i] == resolved[i]);
            }
        }
    } else {
        let i = choose|i: int|
            0 <= i < rules.len() && resolved_rule(style, #[trigger] rules[i], probes[i]) is Err;
        existing_paths_are_accepted(style, rules[i], probes[i]);
        assert(is_unusable(rules, probes, i));
    }
    if exists|i: int| #[trigger] is_unusable(rules, probes, i) {
        let i = choose|i: int| #[trigger] is_unusable(rules, probes, i);
        existing_paths_are_accepted(style, rules[i], probes[i]);
        assert(resolved_rule(style, rules[i], probes[i]) is Err);
    }
}

/// A policy is refused exactly if a rule has an empty path, if a path was missing or could not be
/// resolved, or if a rule asks for more than the default below a denied path.
pub proof fn policies_are_refused_exactly(
    style: PathStyle,
    policy: SandboxPolicy,
    probes: Seq<ProbeView>,
    r: Result<SandboxPolicy, SandboxError>,
)
    requires
        probes.len() == policy@.path_permissions.len(),
        sanitizes_policy(style, policy, probes, r),
        style == PathStyle::Unix || prefixes_agree(
            style,
            found_rules(style, policy@.path_permissions, probes),
        ),
    ensures
        r is Err <==> {
            ||| exists|i: int| #[trigger] is_unusable(policy@.path_permissions, probes, i)
            ||| exists|i: int, j: int| #[trigger]
                asks_below_a_denial(
                    style,
                    policy.default_access,
                    found_rules(style, policy@.path_permissions, probes),
                    i,
                    j,
                )
        },
{
    let rules = policy@.path_permissions;
    lemma_all_found(style, rules, probes);
    if resolved_rules(style, rules, probes) is Ok {
        rules_are_refused_exactly(
            style,
            policy.default_access,
            found_rules(style, rules, probes),
            policy_rules(r),
        );
    }
}

/// An accepted policy keeps its default and its network policy, and enforces every one of its rules
/// on the path that was found for it: denial at or below each denied path, and elsewhere the other
/// access at or below each path that is given it.
pub proof fn accepted_policies_enforce_every_rule(
    style: PathStyle,
    policy: SandboxPolicy,
    probes: Seq<ProbeView>,
    enforced: SandboxPolicy,
    q: Seq<u8>,
)
    requires
        probes.len() == policy@.path_permissions.len(),
        sanitizes_policy(style, policy, probes, Ok(enforced)),
        style == PathStyle::Unix || prefixes_agree(
            style,
            found_rules(style, policy@.path_permissions, probes),
        ),
    ensures
        ({
            let rules = found_rules(style, policy@.path_permissions, probes);
            let out = enforced@.path_permissions;
            let deny = SandboxPathAccess::Deny;
            let other = granted_access(policy.default_access);
            &&& enforced.default_access == policy.default_access
            &&& enforced.network_policy == policy.network_policy
            &&& covers(style, out, deny, q) <==> covers(style, rules, deny, q)
            &&& !covers(style, rules, deny, q) ==> (covers(style, out, other, q) <==> covers(
                style,
                rules,
                other,
                q,
            ))
        }),
{
    let rules = policy@.path_permissions;
    lemma_all_found(style, rules, probes);
    every_rule_is_enforced(
        style,
        policy.default_access,
        found_rules(style, rules, probes),
        enforced@.path_permissions,
        q,
    );
}

/// A request is accepted exactly if its command starts with a word that is not blank and its
/// directory was found to be one. It keeps its command and its limit, runs in the directory that
/// was found, and keeps exactly the variables that are not blocked.
pub proof fn requests_are_accepted_exactly(
    style: PathStyle,
    request: RequestView,
    cwd: ProbeView,
    name: Seq<char>,
)
    ensures
        ({
            let r = sanitized_request(style, request, cwd);
            let found = cwd matches ProbeView::Resolved(_, is_dir) && is_dir;
            &&& r is Ok <==> request.command.len() > 0 && !is_blank(request.command[0]) && found
            &&& r matches Ok(x) ==> {
                &&& x.command == request.command
                &&& x.timeout_ms == request.timeout_ms
                &&& x.cwd == canonical_form(style, cwd->Resolved_0)
                &&& x.env.contains_key(name) <==> request.env.contains_key(name)
                    && !is_blocked_variable(name)
                &&& x.env.contains_key(name) ==> x.env[name] == request.env[name]
            }
        }),
{
}

/// What is said of a request that is refused. A fault of the command comes before one of the
/// directory.
pub proof fn refused_requests_are_explained(
    style: PathStyle,
    request: RequestView,
    cwd: ProbeView,
)
    ensures
        ({
            let r = sanitized_request(style, request, cwd);
            let shown = display_text(style, request.cwd);
            let runs = request.command.len() > 0 && !is_blank(request.command[0]);
            &&& request.command.len() == 0 ==> r == Err::<RequestView, ErrorView>(
                ErrorView::InvalidRequest("command must contain at least one token"@),
            )
            &&& request.command.len() > 0 && is_blank(request.command[0]) ==> r == Err::<
                RequestView,
                ErrorView,
            >(ErrorView::InvalidRequest("command executable must not be empty"@))
            &&& runs && cwd is Missing ==> r == Err::<RequestView, ErrorView>(
                ErrorView::InvalidRequest("sandbox cwd"@ + " does not exist: "@ + shown),
            )
            &&& runs ==> (cwd matches ProbeView::Unresolvable(why) ==> r == Err::<
                RequestView,
                ErrorView,
            >(
                ErrorView::InvalidRequest(
                    "sandbox cwd"@ + " cannot be canonicalized: "@ + shown + ": "@ + why,
                ),
            ))
            &&& runs ==> (cwd matches ProbeView::Resolved(_, is_dir) ==> !is_dir ==> r == Err::<
                RequestView,
                ErrorView,
            >(ErrorView::InvalidRequest("sandbox cwd"@ + " is not a directory: "@ + shown)))
        }),
{
}

/// Whatever the spellings, a policy is refused exactly if a rule has an empty path, if a path was
/// missing or could not be resolved, or if the rules for one found path ask for more than the
/// default below one that others deny.
pub proof fn policies_are_refused_where_rules_reopen(
    style: PathStyle,
    policy: SandboxPolicy,
    probes: Seq<ProbeView>,
    r: Result<SandboxPolicy, SandboxError>,
)
    requires
        probes.len() == policy@.path_permissions.len(),
        sanitizes_policy(style, policy, probes, r),
    ensures
        r is Err <==> {
            ||| exists|i: int| #[trigger] is_unusable(policy@.path_permissions, probes, i)
            ||| exists|i: int, j: int| #[trigger]
                rules_reopen(
                    style,
                    policy.default_access,
                    found_rules(style, policy@.path_permissions, probes),
                    i,
                    j,
                )
        },
{
    let rules = policy@.path_permissions;
    lemma_all_found(style, rules, probes);
    if resolved_rules(style, rules, probes) is Ok {
        rejection_is_exact(
            style,
            policy.default_access,
            found_rules(style, rules, probes),
            policy_rules(r),
        );
    }
}

/// Enforced rules come by the length of their paths, so that a rule comes behind every rule for a
/// path above its own; rules for paths of one length come by their keys.
pub proof fn shorter_paths_are_enforced_first(
    style: PathStyle,
    default_access: SandboxDefaultAccess,
    rules: Seq<PermissionView>,
    out: Seq<PermissionView>,
    i: int,
    j: int,
)
    requires
        amounts_to(style, default_access, rules, Ok(out)),
        0 <= i < j < out.len(),
    ensures
        components(style, out[i].path).len() <= components(style, out[j].path).len(),
        components(style, out[i].path).len() == components(style, out[j].path).len()
            ==> dictionary_less(path_key(style, out[i].path), path_key(style, out[j].path)),
        path_key(style, out[i].path) != path_key(style, out[j].path),
{
    let entries = choose|entries: Seq<PermissionView>| #[trigger]
        overlay_result(style, default_access, rules, entries, Ok(out));
    lemma_pruned_is_part(style, entries);
    dictionary_order_is_total(path_key(style, out[i].path), path_key(style, out[j].path));
    if path_key(style, out[i].path) == path_key(style, out[j].path) {
        same_key_means_same_components(style, out[i].path, out[j].path);
    }
}

/// A refusal names the access that was asked for, the denied path and the path below it, each as one
/// of the rules spells it. Of several such paths it names one that no other is shorter than, and of
/// the denied paths above that one the shortest.
pub proof fn refusals_name_both_paths(
    style: PathStyle,
    default_access: SandboxDefaultAccess,
    rules: Seq<PermissionView>,
    e: ErrorView,
)
    requires
        amounts_to(style, default_access, rules, Err(e)),
    ensures
        exists|i: int, j: int| #[trigger]
            rules_reopen(style, default_access, rules, i, j) && e == ErrorView::InvalidRequest(
                if default_access == SandboxDefaultAccess::ReadOnly {
                    "read_write"@
                } else {
                    "read_only"@
                } + " path cannot reopen access under deny ancestor "@ + display_text(
                    style,
                    rules[j].path,
                ) + ": "@ + display_text(style, rules[i].path),
            ) && (forall|m: int, n: int| #[trigger]
                rules_reopen(style, default_access, rules, m, n) ==> components(
                    style,
                    rules[i].path,
                ).len() <= components(style, rules[m].path).len()) && (forall|n: int| #[trigger]
                rules_reopen(style, default_access, rules, i, n) ==> components(
                    style,
                    rules[j].path,
                ).len() <= components(style, rules[n].path).len()),
{
    let r = Err::<Seq<PermissionView>, ErrorView>(e);
    let entries = choose|entries: Seq<PermissionView>| #[trigger]
        overlay_result(style, default_access, rules, entries, r);
    let (a, b) = choose|a: int, b: int| #[trigger]
        is_first_reopening(style, entries, a, b) && e == reopening_error(
            style,
            entries[a],
            entries[b],
        );
    lemma_rule_of_entry(style, default_access, rules, entries, a);
    lemma_rule_of_entry(style, default_access, rules, entries, b);
    let i = choose|i: int| #[trigger]
        rules_give(style, default_access, rules, i, entries[a].access) && rules[i].path
            == entries[a].path;
    let j = choose|j: int| #[trigger]
        rules_give(style, default_access, rules, j, entries[b].access) && rules[j].path
            == entries[b].path;
    assert(rules_reopen(style, default_access, rules, i, j));
    assert forall|m: int, n: int| #[trigger]
        rules_reopen(style, default_access, rules, m, n) implies components(
        style,
        rules[i].path,
    ).len() <= components(style, rules[m].path).len() && (m == i ==> components(
        style,
        rules[j].path,
    ).len() <= components(style, rules[n].path).len()) by {
        lemma_entry_of_rule(style, default_access, rules, entries, m, other_access(default_access));
        lemma_entry_of_rule(style, default_access, rules, entries, n, SandboxPathAccess::Deny);
        let c = choose|c: int|
            0 <= c < entries.len() && #[trigger] entries[c] == (PermissionView {
                path: rules[m].path,
                access: other_access(default_access),
            });
        let d = choose|d: int|
            0 <= d < entries.len() && #[trigger] entries[d] == (PermissionView {
                path: rules[n].path,
                access: SandboxPathAccess::Deny,
            });
        assert(reopens(style, entries, c, d));
        assert(!(c < a));
        if a < c {
            assert(ranks_before(style, entries[a].path, entries[c].path));
        }
        if m == i {
            dictionary_order_is_total(
                path_key(style, entries[a].path),
                path_key(style, entries[c].path),
            );
            if a < c {
                assert(ranks_before(style, entries[a].path, entries[c].path));
                assert(entries[a].path == entries[c].path);
            }
            assert(a == c);
            assert(!(d < b));
            if b < d {
                assert(ranks_before(style, entries[b].path, entries[d].path));
            }
        }
    }
}

/// Every enforced rule is spelled as the first of the given rules for its path.
pub proof fn first_spellings_are_enforced(
    style: PathStyle,
    default_access: SandboxDefaultAccess,
    rules: Seq<PermissionView>,
    out: Seq<PermissionView>,
    k: int,
)
    requires
        amounts_to(style, default_access, rules, Ok(out)),
        0 <= k < out.len(),
    ensures
        exists|i: int|
            0 <= i < rules.len() && (#[trigger] rules[i]).path == out[k].path && forall|j: int|
                0 <= j < i ==> path_key(style, (#[trigger] rules[j]).path) != path_key(
                    style,
                    rules[i].path,
                ),
        exists|i: int|
            0 <= i < rules.len() && path_key(style, (#[trigger] rules[i]).path) == path_key(
                style,
                out[k].path,
            ) && rules[i].access == out[k].access,
        out[k].access == SandboxPathAccess::Deny || out[k].access == granted_access(default_access),
{
    let entries = choose|entries: Seq<PermissionView>| #[trigger]
        overlay_result(style, default_access, rules, entries, Ok(out));
    lemma_pruned_is_part(style, entries);
    assert(out.contains(out[k]));
    let e = choose|e: int| 0 <= e < entries.len() && entries[e] == out[k];
    lemma_rule_of_entry(style, default_access, rules, entries, e);
    let i = choose|i: int| #[trigger]
        rules_give(style, default_access, rules, i, entries[e].access) && rules[i].path
            == entries[e].path;
    assert(is_first_rule(style, rules, i));
    assert(rules[i].path == out[k].path);
    assert(grants(style, rules, path_key(style, rules[i].path), out[k].access));
}

} // verus!
