//! Which paths a command may reach on Windows.
use vstd::prelude::*;
use vstd::string::StringExecFns;

use crate::error::{ErrorView, IoFailure, SandboxError};
use crate::laws::below_is_transitive;
use crate::path::{
    depth, display_text, is_below, is_same_or_descendant, path_views,
    strip_windows_verbatim_prefix, without_verbatim_prefix, PathStyle, SandboxPath,
};
use crate::path_policy::{contains_key, has_key, path_text_key, text_key, PathKeyMode};
use crate::policy::{
    has_rule, listed_paths_are_those_of_the_rules, paths_with, PermissionView, PolicyView, SandboxDefaultAccess, SandboxPathAccess, SandboxPolicy,
};
use crate::text::{blank, chars_of, contains_char, is_blank, starts_with, texts};

verus! {

/// What is written into the access lists of paths before a command runs.
#[derive(Debug, PartialEq, Eq)]
pub struct AclPlan {
    pub deny_access_paths: Vec<SandboxPath>,
    pub allow_readonly_paths: Vec<SandboxPath>,
    pub allow_readwrite_paths: Vec<SandboxPath>,
    pub deny_write_paths: Vec<SandboxPath>,
}

/// The mathematical value of a plan.
pub struct AclView {
    pub deny_access: Seq<Seq<u8>>,
    pub allow_readonly: Seq<Seq<u8>>,
    pub allow_readwrite: Seq<Seq<u8>>,
    pub deny_write: Seq<Seq<u8>>,
}

impl View for AclPlan {
    type V = AclView;

    open spec fn view(&self) -> AclView {
        AclView {
            deny_access: path_views(self.deny_access_paths@),
            allow_readonly: path_views(self.allow_readonly_paths@),
            allow_readwrite: path_views(self.allow_readwrite_paths@),
            deny_write: path_views(self.deny_write_paths@),
        }
    }
}

/// Some root is the path or an ancestor of it.
pub open spec fn is_under(path: Seq<u8>, roots: Seq<Seq<u8>>) -> bool {
    exists|k: int|
        0 <= k < roots.len() && is_below(PathStyle::Windows, path, #[trigger] roots[k])
}

/// The paths that lie below none of the roots.
pub open spec fn outside(paths: Seq<Seq<u8>>, roots: Seq<Seq<u8>>) -> Seq<Seq<u8>>
    decreases paths.len(),
{
    if paths.len() == 0 {
        paths
    } else if is_under(paths.last(), roots) {
        outside(paths.drop_last(), roots)
    } else {
        outside(paths.drop_last(), roots).push(paths.last())
    }
}

/// The plan of a policy. `scope` are the paths that the default applies to.
pub open spec fn planned_acl(policy: PolicyView, scope: Seq<Seq<u8>>) -> AclView {
    let rules = policy.path_permissions;
    let denied = paths_with(rules, set![SandboxPathAccess::Deny]);
    let read_only = outside(paths_with(rules, set![SandboxPathAccess::ReadOnly]), denied);
    let read_write = outside(paths_with(rules, set![SandboxPathAccess::ReadWrite]), denied);
    let open_scope = outside(scope, read_only + denied);
    match policy.default_access {
        SandboxDefaultAccess::ReadOnly => AclView {
            deny_access: denied,
            allow_readonly: open_scope,
            allow_readwrite: read_write,
            deny_write: Seq::empty(),
        },
        SandboxDefaultAccess::ReadWrite => AclView {
            deny_access: denied,
            allow_readonly: read_only,
            allow_readwrite: open_scope + read_write,
            deny_write: read_only,
        },
    }
}

/// A copy of a list of paths.
pub fn copy_paths(paths: &Vec<SandboxPath>) -> (r: Vec<SandboxPath>)
    ensures
        path_views(r@) == path_views(paths@),
{
    let mut r: Vec<SandboxPath> = Vec::new();
    for i in 0..paths.len()
        invariant
            r.len() == i,
            forall|j: int| 0 <= j < i ==> (#[trigger] r@[j])@ == paths@[j]@,
    {
        let path = paths[i].clone();
        r.push(path);
    }
    assert(path_views(r@) =~= path_views(paths@));
    r
}

/// Appends a copy of some paths to others.
pub fn append_paths(out: &mut Vec<SandboxPath>, paths: &Vec<SandboxPath>)
    ensures
        path_views(final(out)@) == path_views(old(out)@) + path_views(paths@),
{
    let ghost before = path_views(out@);
    let mut more = copy_paths(paths);
    let ghost added = path_views(more@);
    out.append(&mut more);
    assert(path_views(out@) =~= before + added);
}

/// The paths that lie below none of the roots.
pub fn filter_paths_not_under_roots(paths: &Vec<SandboxPath>, roots: &Vec<SandboxPath>) -> (r: Vec<
    SandboxPath,
>)
    ensures
        path_views(r@) == outside(path_views(paths@), path_views(roots@)),
{
    let mut r: Vec<SandboxPath> = Vec::new();
    let ghost all = path_views(paths@);
    let ghost rs = path_views(roots@);
    assert(path_views(r@) =~= outside(all.take(0), rs));
    for i in 0..paths.len()
        invariant
            all == path_views(paths@),
            rs == path_views(roots@),
            path_views(r@) == outside(all.take(i as int), rs),
    {
        proof {
            assert(all.take(i + 1).drop_last() =~= all.take(i as int));
            assert(all.take(i + 1).last() == paths@[i as int]@);
        }
        let mut under = false;
        for k in 0..roots.len()
            invariant
                rs == path_views(roots@),
                i < paths.len(),
                under == exists|b: int|
                    0 <= b < k && is_below(
                        PathStyle::Windows,
                        paths@[i as int]@,
                        #[trigger] rs[b],
                    ),
        {
            assert(rs[k as int] == roots@[k as int]@);
            if is_same_or_descendant(PathStyle::Windows, &paths[i], &roots[k]) {
                under = true;
            }
        }
        if !under {
            let ghost before = path_views(r@);
            r.push(paths[i].clone());
            assert(path_views(r@) =~= before.push(paths@[i as int]@));
        }
    }
    assert(all.take(all.len() as int) =~= all);
    r
}

/// The plan of a policy. `scope` are the paths that the default applies to.
pub fn collect_acl_plan(policy: &SandboxPolicy, scope: &Vec<SandboxPath>) -> (r: AclPlan)
    ensures
        r@ == planned_acl(policy@, path_views(scope@)),
{
    let deny_access_paths = policy.denied_paths();
    let read_only = filter_paths_not_under_roots(&policy.read_only_paths(), &deny_access_paths);
    let mut restricted = copy_paths(&read_only);
    append_paths(&mut restricted, &deny_access_paths);
    let read_write = filter_paths_not_under_roots(&policy.read_write_paths(), &deny_access_paths);
    let open_scope = filter_paths_not_under_roots(scope, &restricted);
    match policy.default_access {
        SandboxDefaultAccess::ReadOnly => {
            let none: Vec<SandboxPath> = Vec::new();
            assert(path_views(none@) =~= Seq::empty());
            AclPlan {
                deny_access_paths,
                allow_readonly_paths: open_scope,
                allow_readwrite_paths: read_write,
                deny_write_paths: none,
            }
        },
        SandboxDefaultAccess::ReadWrite => {
            let mut writable = open_scope;
            append_paths(&mut writable, &read_write);
            AclPlan {
                deny_access_paths,
                deny_write_paths: copy_paths(&read_only),
                allow_readonly_paths: read_only,
                allow_readwrite_paths: writable,
            }
        },
    }
}

/// The paths whose key none of the others has; keys do not depend on the case of ASCII letters.
pub open spec fn without_keys(paths: Seq<Seq<u8>>, others: Seq<Seq<u8>>) -> Seq<Seq<u8>>
    decreases paths.len(),
{
    let mode = PathKeyMode::AsciiCaseInsensitive;
    if paths.len() == 0 {
        paths
    } else if has_key(mode, others, text_key(mode, paths.last())) {
        without_keys(paths.drop_last(), others)
    } else {
        without_keys(paths.drop_last(), others).push(paths.last())
    }
}

/// The plan in which what may be written is neither limited to reading nor kept from being
/// written.
pub open spec fn without_conflicts(plan: AclView) -> AclView {
    AclView {
        allow_readonly: without_keys(plan.allow_readonly, plan.allow_readwrite),
        deny_write: without_keys(plan.deny_write, plan.allow_readwrite),
        ..plan
    }
}

fn drop_keys(paths: &Vec<SandboxPath>, others: &Vec<SandboxPath>) -> (r: Vec<SandboxPath>)
    ensures
        path_views(r@) == without_keys(path_views(paths@), path_views(others@)),
{
    let mode = PathKeyMode::AsciiCaseInsensitive;
    let mut r: Vec<SandboxPath> = Vec::new();
    let ghost all = path_views(paths@);
    let ghost rs = path_views(others@);
    assert(path_views(r@) =~= without_keys(all.take(0), rs));
    for i in 0..paths.len()
        invariant
            mode == PathKeyMode::AsciiCaseInsensitive,
            all == path_views(paths@),
            rs == path_views(others@),
            path_views(r@) == without_keys(all.take(i as int), rs),
    {
        proof {
            assert(all.take(i + 1).drop_last() =~= all.take(i as int));
            assert(all.take(i + 1).last() == paths@[i as int]@);
        }
        let key = path_text_key(&paths[i], mode);
        if !contains_key(others, mode, &key) {
            let ghost before = path_views(r@);
            r.push(paths[i].clone());
            assert(path_views(r@) =~= before.push(paths@[i as int]@));
        }
    }
    assert(all.take(all.len() as int) =~= all);
    r
}

/// Drops from a plan what contradicts its write permissions.
pub fn resolve_acl_conflicts(plan: AclPlan) -> (r: AclPlan)
    ensures
        r@ == without_conflicts(plan@),
{
    AclPlan {
        allow_readonly_paths: drop_keys(&plan.allow_readonly_paths, &plan.allow_readwrite_paths),
        deny_write_paths: drop_keys(&plan.deny_write_paths, &plan.allow_readwrite_paths),
        deny_access_paths: plan.deny_access_paths,
        allow_readwrite_paths: plan.allow_readwrite_paths,
    }
}

/// A quoted stretch behind its opening mark: two marks stand for one, and a single one ends it.
/// Gives its contents and what follows.
pub open spec fn quoted_run(s: Seq<char>) -> (Seq<char>, Seq<char>)
    decreases s.len(),
{
    if s.len() == 0 {
        (s, s)
    } else if s[0] == '\'' {
        if s.len() > 1 && s[1] == '\'' {
            let more = quoted_run(s.subrange(2, s.len() as int));
            (seq!['\''] + more.0, more.1)
        } else {
            (Seq::empty(), s.subrange(1, s.len() as int))
        }
    } else {
        let more = quoted_run(s.subrange(1, s.len() as int));
        (seq![s[0]] + more.0, more.1)
    }
}

proof fn lemma_quoted_run_shrinks(s: Seq<char>)
    ensures
        quoted_run(s).1.len() <= s.len(),
    decreases s.len(),
{
    if s.len() > 0 {
        if s[0] == '\'' {
            if s.len() > 1 && s[1] == '\'' {
                lemma_quoted_run_shrinks(s.subrange(2, s.len() as int));
            }
        } else {
            lemma_quoted_run_shrinks(s.subrange(1, s.len() as int));
        }
    }
}

/// The contents of the stretches in single quotation marks, without the empty ones.
pub open spec fn quoted_segments(s: Seq<char>) -> Seq<Seq<char>>
    decreases s.len(),
    via quoted_segments_shrink
{
    if s.len() == 0 {
        Seq::empty()
    } else if s[0] != '\'' {
        quoted_segments(s.subrange(1, s.len() as int))
    } else {
        let run = quoted_run(s.subrange(1, s.len() as int));
        if run.0.len() > 0 {
            seq![run.0] + quoted_segments(run.1)
        } else {
            quoted_segments(run.1)
        }
    }
}

#[via_fn]
proof fn quoted_segments_shrink(s: Seq<char>) {
    if s.len() > 0 {
        lemma_quoted_run_shrinks(s.subrange(1, s.len() as int));
    }
}

fn read_quoted_run(chars: &Vec<char>, from: usize) -> (r: (String, usize))
    requires
        from <= chars.len(),
    ensures
        from <= r.1 <= chars.len(),
        (r.0@, chars@.subrange(r.1 as int, chars@.len() as int)) == quoted_run(
            chars@.subrange(from as int, chars@.len() as int),
        ),
{
    let len: usize = chars.len();
    let mut index: usize = from;
    let mut buffer = String::new();
    let ghost start = chars@.subrange(from as int, chars@.len() as int);
    assert(buffer@ + quoted_run(start).0 =~= quoted_run(start).0);
    while index < len
        invariant
            len == chars.len(),
            from <= index <= len,
            start == chars@.subrange(from as int, chars@.len() as int),
            quoted_run(start) == (
                buffer@ + quoted_run(chars@.subrange(index as int, chars@.len() as int)).0,
                quoted_run(chars@.subrange(index as int, chars@.len() as int)).1,
            ),
        decreases len - index,
    {
        let ghost here = chars@.subrange(index as int, chars@.len() as int);
        let ghost before = buffer@;
        if chars[index] == '\'' {
            if index + 1 < len && chars[index + 1] == '\'' {
                buffer.push('\'');
                proof {
                    let next = chars@.subrange(index + 2, chars@.len() as int);
                    assert(here.subrange(2, here.len() as int) =~= next);
                    assert(buffer@ + quoted_run(next).0 =~= before + (seq!['\''] + quoted_run(
                        next,
                    ).0));
                }
                index = index + 2;
            } else {
                proof {
                    let next = chars@.subrange(index + 1, chars@.len() as int);
                    assert(here.subrange(1, here.len() as int) =~= next);
                    assert(buffer@ + Seq::<char>::empty() =~= buffer@);
                }
                return (buffer, index + 1);
            }
        } else {
            buffer.push(chars[index]);
            proof {
                let next = chars@.subrange(index + 1, chars@.len() as int);
                assert(here.subrange(1, here.len() as int) =~= next);
                assert(buffer@ + quoted_run(next).0 =~= before + (seq![here[0]] + quoted_run(
                    next,
                ).0));
            }
            index = index + 1;
        }
    }
    proof {
        let end = chars@.subrange(index as int, chars@.len() as int);
        assert(end =~= Seq::empty());
        assert(buffer@ + Seq::<char>::empty() =~= buffer@);
    }
    (buffer, index)
}

/// The contents of the stretches in single quotation marks, without the empty ones.
pub fn single_quoted_segments(input: &str) -> (r: Vec<String>)
    ensures
        texts(r@) == quoted_segments(input@),
{
    let chars = chars_of(input);
    let mut segments: Vec<String> = Vec::new();
    let mut index: usize = 0;
    assert(chars@.subrange(0, chars@.len() as int) =~= chars@);
    assert(texts(segments@) + quoted_segments(chars@) =~= quoted_segments(input@));
    while index < chars.len()
        invariant
            chars@ == input@,
            index <= chars.len(),
            texts(segments@) + quoted_segments(chars@.subrange(index as int, chars@.len() as int))
                == quoted_segments(input@),
        decreases chars.len() - index,
    {
        let ghost here = chars@.subrange(index as int, chars@.len() as int);
        let ghost next = chars@.subrange(index + 1, chars@.len() as int);
        assert(here.subrange(1, here.len() as int) =~= next);
        if chars[index] != '\'' {
            index = index + 1;
        } else {
            let (buffer, end) = read_quoted_run(&chars, index + 1);
            let ghost before = texts(segments@);
            let ghost rest = chars@.subrange(end as int, chars@.len() as int);
            if !buffer.as_str().is_empty() {
                segments.push(buffer);
                assert(texts(segments@) =~= before.push(buffer@));
                assert(before.push(buffer@) + quoted_segments(rest) =~= before + (seq![buffer@]
                    + quoted_segments(rest)));
            }
            index = end;
        }
    }
    assert(chars@.subrange(index as int, chars@.len() as int) =~= Seq::empty());
    assert(texts(segments@) + Seq::<Seq<char>>::empty() =~= texts(segments@));
    segments
}

/// A text that reads like a path: it starts like one, has a backslash or has a drive.
pub open spec fn reads_like_a_path(s: Seq<char>) -> bool {
    ||| "/"@.is_prefix_of(s)
    ||| "./"@.is_prefix_of(s)
    ||| "../"@.is_prefix_of(s)
    ||| ".\\"@.is_prefix_of(s)
    ||| "..\\"@.is_prefix_of(s)
    ||| s.contains('\\')
    ||| s.len() >= 2 && (s[0] as u32) < 0x80 && s[1] == ':'
}

/// Whether a text reads like a path.
pub fn looks_like_filesystem_path(argument: &str) -> (r: bool)
    ensures
        r == reads_like_a_path(argument@),
{
    if starts_with(argument, "/") || starts_with(argument, "./") || starts_with(argument, "../")
        || starts_with(argument, ".\\") || starts_with(argument, "..\\") || contains_char(
        argument,
        '\\',
    ) {
        return true;
    }
    let v = chars_of(argument);
    v.len() >= 2 && (v[0] as u32) < 0x80 && v[1] == ':'
}

/// A text that is worth looking for in the file system.
pub open spec fn is_candidate(s: Seq<char>) -> bool {
    !is_blank(s) && reads_like_a_path(s)
}

/// The texts of a list that are worth looking for.
pub open spec fn candidates_among(parts: Seq<Seq<char>>) -> Seq<Seq<char>>
    decreases parts.len(),
{
    if parts.len() == 0 {
        parts
    } else if is_candidate(parts.last()) {
        candidates_among(parts.drop_last()).push(parts.last())
    } else {
        candidates_among(parts.drop_last())
    }
}

/// The texts in an argument that are worth looking for: the argument itself, and what it has in
/// single quotation marks.
pub fn command_argument_candidates(argument: &str) -> (r: Vec<String>)
    ensures
        texts(r@) == candidates_among(seq![argument@] + quoted_segments(argument@)),
{
    let segments = single_quoted_segments(argument);
    let mut parts: Vec<String> = Vec::new();
    parts.push(argument.to_owned());
    for i in 0..segments.len()
        invariant
            parts.len() == i + 1,
            parts@[0]@ == argument@,
            forall|j: int| 0 <= j < i ==> parts@[j + 1]@ == (#[trigger] segments@[j])@,
    {
        parts.push(segments[i].clone());
    }
    let ghost all = texts(parts@);
    proof {
        let s = texts(segments@);
        assert(all.len() == s.len() + 1);
        assert forall|j: int| 0 < j < all.len() implies all[j] == s[j - 1] by {
            assert(parts@[(j - 1) + 1]@ == segments@[j - 1]@);
        }
        assert(all =~= seq![argument@] + s);
    }
    let mut r: Vec<String> = Vec::new();
    assert(texts(r@) =~= candidates_among(all.take(0)));
    for i in 0..parts.len()
        invariant
            all == texts(parts@),
            texts(r@) == candidates_among(all.take(i as int)),
    {
        proof {
            assert(all.take(i + 1).drop_last() =~= all.take(i as int));
            assert(all.take(i + 1).last() == parts@[i as int]@);
        }
        if !blank(parts[i].as_str()) && looks_like_filesystem_path(parts[i].as_str()) {
            let ghost before = texts(r@);
            r.push(parts[i].clone());
            assert(texts(r@) =~= before.push(parts@[i as int]@));
        }
    }
    assert(all.take(all.len() as int) =~= all);
    r
}

/// What was observed of a text that was looked for: the absolute path, whether it exists, and its
/// parent where that exists.
#[derive(Debug, PartialEq, Eq)]
pub struct CandidateProbe {
    pub absolute: SandboxPath,
    pub exists: bool,
    pub existing_parent: Option<SandboxPath>,
}

/// The value of an optional path.
pub open spec fn optional_path(p: Option<SandboxPath>) -> Option<Seq<u8>> {
    match p {
        Some(x) => Some(x@),
        None => None,
    }
}

/// The path that a text stands for: itself where it exists, else its parent where that exists.
pub fn materialize_path_candidate(probe: &CandidateProbe) -> (r: Option<SandboxPath>)
    ensures
        optional_path(r) == if probe.exists {
            Some(probe.absolute@)
        } else {
            optional_path(probe.existing_parent)
        },
{
    if probe.exists {
        Some(probe.absolute.clone())
    } else {
        match &probe.existing_parent {
            Some(parent) => Some(parent.clone()),
            None => None,
        }
    }
}

/// The parts of a list that are there.
pub open spec fn with_optional(s: Seq<Seq<u8>>, p: Option<Seq<u8>>) -> Seq<Seq<u8>> {
    match p {
        Some(x) => s.push(x),
        None => s,
    }
}

/// The paths of a list of rules.
pub open spec fn all_rule_paths(policy: PolicyView) -> Seq<Seq<u8>> {
    Seq::new(policy.path_permissions.len(), |i: int| policy.path_permissions[i].path)
}

/// The paths that a default applies to: the working directory, the program and its directory, the
/// paths of the rules, and what the arguments name.
pub open spec fn scope_paths(
    cwd: Seq<u8>,
    executable: Seq<u8>,
    parent: Option<Seq<u8>>,
    policy: PolicyView,
    named: Seq<Seq<u8>>,
) -> Seq<Seq<u8>> {
    with_optional(seq![cwd, executable], parent) + all_rule_paths(policy) + named
}

fn start_paths(cwd: &SandboxPath, executable: &SandboxPath, parent: &Option<SandboxPath>) -> (r:
    Vec<SandboxPath>)
    ensures
        path_views(r@) == with_optional(seq![cwd@, executable@], optional_path(*parent)),
{
    let mut paths: Vec<SandboxPath> = Vec::new();
    paths.push(cwd.clone());
    paths.push(executable.clone());
    assert(path_views(paths@) =~= seq![cwd@, executable@]);
    match parent {
        Some(p) => {
            paths.push(p.clone());
            assert(path_views(paths@) =~= seq![cwd@, executable@].push(p@));
        },
        None => {},
    }
    paths
}

/// The paths that a default applies to. `named` are the paths that the arguments stand for.
pub fn default_access_scope_paths(
    cwd: &SandboxPath,
    executable: &SandboxPath,
    parent: &Option<SandboxPath>,
    policy: &SandboxPolicy,
    named: &Vec<SandboxPath>,
) -> (r: Vec<SandboxPath>)
    ensures
        path_views(r@) == scope_paths(
            cwd@,
            executable@,
            optional_path(*parent),
            policy@,
            path_views(named@),
        ),
{
    let mut paths = start_paths(cwd, executable, parent);
    let ghost start = path_views(paths@);
    let ghost rules = all_rule_paths(policy@);
    assert(start =~= start + rules.take(0));
    for i in 0..policy.path_permissions.len()
        invariant
            rules == all_rule_paths(policy@),
            path_views(paths@) == start + rules.take(i as int),
    {
        let ghost before = path_views(paths@);
        let path = policy.path_permissions[i].path.clone();
        paths.push(path);
        assert(rules[i as int] == path@);
        assert(path_views(paths@) =~= before.push(path@));
        assert(before.push(path@) =~= start + rules.take(i + 1));
    }
    assert(rules.take(rules.len() as int) =~= rules);
    append_paths(&mut paths, named);
    paths
}

/// Whether the second token of a command is a path: it has several components or is absolute.
pub fn is_path_argument(argument: &SandboxPath, is_absolute: bool) -> (r: bool)
    ensures
        r == (depth(PathStyle::Windows, argument@) > 1 || is_absolute),
{
    argument.depth(PathStyle::Windows) > 1 || is_absolute
}

/// The paths that a program needs to start: the working directory, the program and its directory,
/// and the script and its directory, where the command names one that exists.
pub fn runtime_bootstrap_readonly_paths(
    cwd: &SandboxPath,
    executable: &SandboxPath,
    parent: &Option<SandboxPath>,
    script: &Option<SandboxPath>,
    script_parent: &Option<SandboxPath>,
) -> (r: Vec<SandboxPath>)
    ensures
        ({
            let start = with_optional(seq![cwd@, executable@], optional_path(*parent));
            path_views(r@) == match optional_path(*script) {
                Some(s) => with_optional(start.push(s), optional_path(*script_parent)),
                None => start,
            }
        }),
{
    let mut paths = start_paths(cwd, executable, parent);
    let ghost start = path_views(paths@);
    match script {
        Some(s) => {
            paths.push(s.clone());
            assert(path_views(paths@) =~= start.push(s@));
            match script_parent {
                Some(p) => {
                    paths.push(p.clone());
                    assert(path_views(paths@) =~= start.push(s@).push(p@));
                },
                None => {},
            }
        },
        None => {},
    }
    paths
}

/// What was observed of a path that access is granted on.
#[derive(Debug, PartialEq, Eq)]
pub enum AllowProbe {
    Missing,
    Failed(IoFailure),
    Resolved(SandboxPath),
}

/// The path that access is granted on, in its short form, or why there is none.
pub fn ensure_safe_allow_path(path: &SandboxPath, probe: &AllowProbe) -> (r: Result<
    SandboxPath,
    SandboxError,
>)
    ensures
        match *probe {
            AllowProbe::Missing => r matches Err(e) && e@ == ErrorView::InvalidRequest(
                "allow path does not exist: "@ + display_text(PathStyle::Windows, path@),
            ),
            AllowProbe::Failed(f) => r matches Err(e) && e@ == ErrorView::Io(
                f.kind,
                f.raw_os_error,
                f.message@,
            ),
            AllowProbe::Resolved(p) => r matches Ok(s) && s@ == without_verbatim_prefix(p@),
        },
{
    match probe {
        AllowProbe::Missing => {
            let shown = path.display(PathStyle::Windows);
            Err(
                SandboxError::InvalidRequest(
                    "allow path does not exist: ".to_owned().concat(shown.as_str()),
                ),
            )
        },
        AllowProbe::Failed(f) => Err(SandboxError::Io(f.clone())),
        AllowProbe::Resolved(p) => Ok(strip_windows_verbatim_prefix(p)),
    }
}

/// What is kept of some paths is what lies below none of the roots.
pub proof fn lemma_outside(paths: Seq<Seq<u8>>, roots: Seq<Seq<u8>>)
    ensures
        forall|p: Seq<u8>| #[trigger]
            outside(paths, roots).contains(p) <==> paths.contains(p) && !is_under(p, roots),
    decreases paths.len(),
{
    if paths.len() > 0 {
        let f = paths.drop_last();
        let o = outside(paths, roots);
        lemma_outside(f, roots);
        assert forall|p: Seq<u8>| #[trigger] o.contains(p) <==> paths.contains(p) && !is_under(
            p,
            roots,
        ) by {
            let front = outside(f, roots);
            if o.contains(p) {
                let i = choose|i: int| 0 <= i < o.len() && o[i] == p;
                if i < front.len() {
                    assert(front.contains(p));
                    let j = choose|j: int| 0 <= j < f.len() && f[j] == p;
                    assert(paths[j] == p);
                } else {
                    assert(paths[paths.len() - 1] == p);
                }
            }
            if paths.contains(p) && !is_under(p, roots) {
                let j = choose|j: int| 0 <= j < paths.len() && paths[j] == p;
                if j < f.len() {
                    assert(f[j] == p);
                    assert(front.contains(p));
                    let i = choose|i: int| 0 <= i < front.len() && front[i] == p;
                    assert(o[i] == p);
                } else {
                    assert(o[front.len() as int] == p);
                }
            }
        }
    }
}

/// Nothing below a denied path is granted, neither by a rule nor by the default.
pub proof fn plans_grant_nothing_below_denied_paths(
    policy: PolicyView,
    scope: Seq<Seq<u8>>,
    p: Seq<u8>,
)
    requires
        is_under(p, planned_acl(policy, scope).deny_access),
    ensures
        !planned_acl(policy, scope).allow_readonly.contains(p),
        !planned_acl(policy, scope).allow_readwrite.contains(p),
{
    let rules = policy.path_permissions;
    let denied = paths_with(rules, set![SandboxPathAccess::Deny]);
    let read_only = outside(paths_with(rules, set![SandboxPathAccess::ReadOnly]), denied);
    let read_write = outside(paths_with(rules, set![SandboxPathAccess::ReadWrite]), denied);
    let open_scope = outside(scope, read_only + denied);
    lemma_outside(paths_with(rules, set![SandboxPathAccess::ReadOnly]), denied);
    lemma_outside(paths_with(rules, set![SandboxPathAccess::ReadWrite]), denied);
    lemma_outside(scope, read_only + denied);
    let k = choose|k: int|
        0 <= k < denied.len() && is_below(PathStyle::Windows, p, #[trigger] denied[k]);
    assert((read_only + denied)[read_only.len() + k] == denied[k]);
    assert(is_under(p, read_only + denied));
    assert(!open_scope.contains(p));
    assert(!read_write.contains(p));
    let both = open_scope + read_write;
    if both.contains(p) {
        let i = choose|i: int| 0 <= i < both.len() && both[i] == p;
        if i < open_scope.len() {
            assert(open_scope[i] == p);
        } else {
            assert(read_write[i - open_scope.len()] == p);
        }
    }
}

/// Below a writable default every read-only path is kept from being written, and the default does
/// not grant writing below it.
pub proof fn read_only_paths_are_not_writable_by_default(
    policy: PolicyView,
    scope: Seq<Seq<u8>>,
    p: Seq<u8>,
)
    requires
        policy.default_access == SandboxDefaultAccess::ReadWrite,
        is_under(p, planned_acl(policy, scope).allow_readonly),
        planned_acl(policy, scope).allow_readwrite.contains(p),
    ensures
        planned_acl(policy, scope).deny_write == planned_acl(policy, scope).allow_readonly,
        paths_with(policy.path_permissions, set![SandboxPathAccess::ReadWrite]).contains(p),
{
    let rules = policy.path_permissions;
    let denied = paths_with(rules, set![SandboxPathAccess::Deny]);
    let read_only = outside(paths_with(rules, set![SandboxPathAccess::ReadOnly]), denied);
    let read_write = outside(paths_with(rules, set![SandboxPathAccess::ReadWrite]), denied);
    let open_scope = outside(scope, read_only + denied);
    lemma_outside(paths_with(rules, set![SandboxPathAccess::ReadWrite]), denied);
    lemma_outside(scope, read_only + denied);
    let k = choose|k: int|
        0 <= k < read_only.len() && is_below(PathStyle::Windows, p, #[trigger] read_only[k]);
    assert((read_only + denied)[k] == read_only[k]);
    assert(is_under(p, read_only + denied));
    let both = open_scope + read_write;
    let i = choose|i: int| 0 <= i < both.len() && both[i] == p;
    if i < open_scope.len() {
        assert(open_scope[i] == p);
        assert(open_scope.contains(p));
    } else {
        assert(read_write[i - open_scope.len()] == p);
        assert(read_write.contains(p));
    }
}

/// A path lies at or below the path of a rule with the access.
pub open spec fn is_below_rule(
    rules: Seq<PermissionView>,
    access: SandboxPathAccess,
    p: Seq<u8>,
) -> bool {
    exists|i: int|
        0 <= i < rules.len() && (#[trigger] rules[i]).access == access && is_below(
            PathStyle::Windows,
            p,
            rules[i].path,
        )
}

proof fn lemma_listed(rules: Seq<PermissionView>, access: SandboxPathAccess, p: Seq<u8>)
    ensures
        paths_with(rules, set![access]).contains(p) <==> has_rule(rules, access, p),
        is_under(p, paths_with(rules, set![access])) <==> is_below_rule(rules, access, p),
{
    let paths = paths_with(rules, set![access]);
    listed_paths_are_those_of_the_rules(rules, set![access], p);
    if paths.contains(p) {
        let i = choose|i: int|
            0 <= i < rules.len() && (#[trigger] rules[i]).path == p && set![access].contains(
                rules[i].access,
            );
        assert(rules[i].access == access);
    }
    if has_rule(rules, access, p) {
        let i = choose|i: int|
            0 <= i < rules.len() && (#[trigger] rules[i]).access == access && rules[i].path == p;
        assert(set![access].contains(rules[i].access));
    }
    if is_under(p, paths) {
        let k = choose|k: int|
            0 <= k < paths.len() && is_below(PathStyle::Windows, p, #[trigger] paths[k]);
        listed_paths_are_those_of_the_rules(rules, set![access], paths[k]);
        assert(paths.contains(paths[k]));
        let i = choose|i: int|
            0 <= i < rules.len() && (#[trigger] rules[i]).path == paths[k] && set![access].contains(
                rules[i].access,
            );
        assert(rules[i].access == access);
    }
    if is_below_rule(rules, access, p) {
        let i = choose|i: int|
            0 <= i < rules.len() && (#[trigger] rules[i]).access == access && is_below(
                PathStyle::Windows,
                p,
                rules[i].path,
            );
        assert(set![access].contains(rules[i].access));
        listed_paths_are_those_of_the_rules(rules, set![access], rules[i].path);
        let k = choose|k: int| 0 <= k < paths.len() && paths[k] == rules[i].path;
        assert(is_below(PathStyle::Windows, p, paths[k]));
    }
}

/// What lies below a read-only rule lies below one that is not itself below a denied path, or below
/// a denied path.
proof fn lemma_read_only_roots(rules: Seq<PermissionView>, p: Seq<u8>)
    ensures
        ({
            let denied = paths_with(rules, set![SandboxPathAccess::Deny]);
            let all = paths_with(rules, set![SandboxPathAccess::ReadOnly]);
            is_under(p, outside(all, denied) + denied) <==> is_below_rule(
                rules,
                SandboxPathAccess::ReadOnly,
                p,
            ) || is_below_rule(rules, SandboxPathAccess::Deny, p)
        }),
{
    let denied = paths_with(rules, set![SandboxPathAccess::Deny]);
    let all = paths_with(rules, set![SandboxPathAccess::ReadOnly]);
    let kept = outside(all, denied);
    let both = kept + denied;
    lemma_listed(rules, SandboxPathAccess::ReadOnly, p);
    lemma_listed(rules, SandboxPathAccess::Deny, p);
    lemma_outside(all, denied);
    if is_under(p, both) {
        let k = choose|k: int|
            0 <= k < both.len() && is_below(PathStyle::Windows, p, #[trigger] both[k]);
        if k < kept.len() {
            assert(kept.contains(kept[k]));
            assert(all.contains(kept[k]));
            let j = choose|j: int| 0 <= j < all.len() && all[j] == kept[k];
            assert(is_below(PathStyle::Windows, p, all[j]));
        } else {
            assert(is_below(PathStyle::Windows, p, denied[k - kept.len()]));
        }
    }
    if is_under(p, denied) {
        let k = choose|k: int|
            0 <= k < denied.len() && is_below(PathStyle::Windows, p, #[trigger] denied[k]);
        assert(both[kept.len() + k] == denied[k]);
    } else if is_under(p, all) {
        let k = choose|k: int|
            0 <= k < all.len() && is_below(PathStyle::Windows, p, #[trigger] all[k]);
        if is_under(all[k], denied) {
            let m = choose|m: int|
                0 <= m < denied.len() && is_below(PathStyle::Windows, all[k], #[trigger] denied[m]);
            below_is_transitive(PathStyle::Windows, p, all[k], denied[m]);
            assert(is_below(PathStyle::Windows, p, denied[m]));
        } else {
            assert(all.contains(all[k]));
            assert(kept.contains(all[k]));
            let m = choose|m: int| 0 <= m < kept.len() && kept[m] == all[k];
            assert(both[m] == all[k]);
        }
    }
}

/// Whatever the default and the scope, access is denied to the path of every rule that denies it,
/// and to no other path.
pub proof fn exactly_the_denied_paths_are_denied(
    policy: PolicyView,
    scope: Seq<Seq<u8>>,
    p: Seq<u8>,
)
    ensures
        planned_acl(policy, scope).deny_access.contains(p) <==> exists|i: int|
            0 <= i < policy.path_permissions.len() && (#[trigger] policy.path_permissions[i]).access
                == SandboxPathAccess::Deny && policy.path_permissions[i].path == p,
{
    lemma_listed(policy.path_permissions, SandboxPathAccess::Deny, p);
}

/// What a plan grants, and what it keeps from being written, in terms of the policy's rules alone.
///
/// Nothing at or below a denied path is granted. Below a read-only default the writable paths are
/// those of the rules, and the scope can be read outside the read-only rules. Below a writable
/// default the scope can be written outside the read-only rules, whose paths can be read and not
/// written.
pub proof fn plans_grant_what_the_rules_say(policy: PolicyView, scope: Seq<Seq<u8>>, p: Seq<u8>)
    ensures
        ({
            let rules = policy.path_permissions;
            let plan = planned_acl(policy, scope);
            let denied = is_below_rule(rules, SandboxPathAccess::Deny, p);
            let closed = is_below_rule(rules, SandboxPathAccess::ReadOnly, p);
            let readable = has_rule(rules, SandboxPathAccess::ReadOnly, p) && !denied;
            let writable = has_rule(rules, SandboxPathAccess::ReadWrite, p) && !denied;
            let open = scope.contains(p) && !denied && !closed;
            &&& policy.default_access == SandboxDefaultAccess::ReadOnly ==> {
                &&& plan.allow_readonly.contains(p) <==> open
                &&& plan.allow_readwrite.contains(p) <==> writable
                &&& !plan.deny_write.contains(p)
            }
            &&& policy.default_access == SandboxDefaultAccess::ReadWrite ==> {
                &&& plan.allow_readonly.contains(p) <==> readable
                &&& plan.allow_readwrite.contains(p) <==> open || writable
                &&& plan.deny_write.contains(p) <==> readable
            }
        }),
{
    let rules = policy.path_permissions;
    let denied = paths_with(rules, set![SandboxPathAccess::Deny]);
    let read_only = outside(paths_with(rules, set![SandboxPathAccess::ReadOnly]), denied);
    let read_write = outside(paths_with(rules, set![SandboxPathAccess::ReadWrite]), denied);
    let open_scope = outside(scope, read_only + denied);
    lemma_listed(rules, SandboxPathAccess::Deny, p);
    lemma_listed(rules, SandboxPathAccess::ReadOnly, p);
    lemma_listed(rules, SandboxPathAccess::ReadWrite, p);
    lemma_outside(paths_with(rules, set![SandboxPathAccess::ReadOnly]), denied);
    lemma_outside(paths_with(rules, set![SandboxPathAccess::ReadWrite]), denied);
    lemma_outside(scope, read_only + denied);
    lemma_read_only_roots(rules, p);
    let both = open_scope + read_write;
    if both.contains(p) {
        let i = choose|i: int| 0 <= i < both.len() && both[i] == p;
        if i < open_scope.len() {
            assert(open_scope[i] == p);
            assert(open_scope.contains(p));
        } else {
            assert(read_write[i - open_scope.len()] == p);
            assert(read_write.contains(p));
        }
    }
    if open_scope.contains(p) {
        let i = choose|i: int| 0 <= i < open_scope.len() && open_scope[i] == p;
        assert(both[i] == p);
    }
    if read_write.contains(p) {
        let i = choose|i: int| 0 <= i < read_write.len() && read_write[i] == p;
        assert(both[open_scope.len() + i] == p);
    }
}

proof fn lemma_without_keys(paths: Seq<Seq<u8>>, others: Seq<Seq<u8>>, p: Seq<u8>)
    ensures
        without_keys(paths, others).contains(p) <==> paths.contains(p) && !has_key(
            PathKeyMode::AsciiCaseInsensitive,
            others,
            text_key(PathKeyMode::AsciiCaseInsensitive, p),
        ),
    decreases paths.len(),
{
    if paths.len() > 0 {
        let f = paths.drop_last();
        let o = without_keys(paths, others);
        let front = without_keys(f, others);
        lemma_without_keys(f, others, p);
        if o.contains(p) {
            let i = choose|i: int| 0 <= i < o.len() && o[i] == p;
            if i < front.len() {
                assert(front[i] == p);
                let j = choose|j: int| 0 <= j < f.len() && f[j] == p;
                assert(paths[j] == p);
            } else {
                assert(paths[paths.len() - 1] == p);
            }
        }
        if paths.contains(p) && !has_key(
            PathKeyMode::AsciiCaseInsensitive,
            others,
            text_key(PathKeyMode::AsciiCaseInsensitive, p),
        ) {
            let j = choose|j: int| 0 <= j < paths.len() && paths[j] == p;
            if j < f.len() {
                assert(f[j] == p);
                let i = choose|i: int| 0 <= i < front.len() && front[i] == p;
                assert(o[i] == p);
            } else {
                assert(o[front.len() as int] == p);
            }
        }
    }
}

/// Where a plan both grants writing and something less on a path, however its letters are cased,
/// the writing stays and the rest is dropped; nothing else is.
pub proof fn writing_settles_conflicts(plan: AclView, p: Seq<u8>)
    ensures
        ({
            let after = without_conflicts(plan);
            let writable = exists|k: int|
                0 <= k < plan.allow_readwrite.len() && text_key(
                    PathKeyMode::AsciiCaseInsensitive,
                    #[trigger] plan.allow_readwrite[k],
                ) == text_key(PathKeyMode::AsciiCaseInsensitive, p);
            &&& after.deny_access == plan.deny_access
            &&& after.allow_readwrite == plan.allow_readwrite
            &&& after.allow_readonly.contains(p) <==> plan.allow_readonly.contains(p) && !writable
            &&& after.deny_write.contains(p) <==> plan.deny_write.contains(p) && !writable
        }),
{
    lemma_without_keys(plan.allow_readonly, plan.allow_readwrite, p);
    lemma_without_keys(plan.deny_write, plan.allow_readwrite, p);
}

/// The scope of a run holds the directory, the executable and its parent, the path of every rule,
/// and every path that the command names.
pub proof fn scopes_hold_everything_a_run_touches(
    cwd: Seq<u8>,
    executable: Seq<u8>,
    parent: Option<Seq<u8>>,
    policy: PolicyView,
    named: Seq<Seq<u8>>,
    p: Seq<u8>,
)
    ensures
        scope_paths(cwd, executable, parent, policy, named).contains(p) <==> {
            ||| p == cwd
            ||| p == executable
            ||| parent == Some(p)
            ||| exists|i: int|
                0 <= i < policy.path_permissions.len() && (
                #[trigger] policy.path_permissions[i]).path == p
            ||| named.contains(p)
        },
{
    let first = with_optional(seq![cwd, executable], parent);
    let rules = all_rule_paths(policy);
    let s = scope_paths(cwd, executable, parent, policy, named);
    let n = first.len() as int;
    let m = n + rules.len();
    assert(first[0] == cwd && first[1] == executable);
    assert(s[0] == cwd && s[1] == executable);
    assert(parent is Some ==> s[2] == parent->0);
    assert forall|i: int| 0 <= i < rules.len() implies s[n + i] == #[trigger] rules[i] by {}
    assert forall|i: int| 0 <= i < named.len() implies s[m + i] == #[trigger] named[i] by {}
    if s.contains(p) {
        let i = choose|i: int| 0 <= i < s.len() && s[i] == p;
        if i < n {
            assert(s[i] == first[i]);
        } else if i < m {
            assert(s[i] == rules[i - n]);
            assert(policy.path_permissions[i - n].path == p);
        } else {
            assert(s[i] == named[i - m]);
        }
    }
    if exists|i: int|
        0 <= i < policy.path_permissions.len() && (#[trigger] policy.path_permissions[i]).path
            == p {
        let i = choose|i: int|
            0 <= i < policy.path_permissions.len() && (#[trigger] policy.path_permissions[i]).path
                == p;
        assert(rules[i] == p);
        assert(s[n + i] == p);
    }
    if named.contains(p) {
        let i = choose|i: int| 0 <= i < named.len() && named[i] == p;
        assert(s[m + i] == p);
    }
}

/// Text outside quotation marks names nothing, and the text between two of them is one segment, in
/// which no more than a doubled mark stands for one.
pub proof fn quoted_text_is_found(before: Seq<char>, inner: Seq<char>, after: Seq<char>)
    requires
        !before.contains('\''),
        !inner.contains('\''),
        inner.len() > 0,
        after.len() == 0 || after[0] != '\'',
    ensures
        quoted_segments(before) == Seq::<Seq<char>>::empty(),
        quoted_segments(before + seq!['\''] + inner + seq!['\''] + after) == seq![inner]
            + quoted_segments(after),
    decreases before.len(),
{
    if before.len() == 0 {
        let s = before + seq!['\''] + inner + seq!['\''] + after;
        assert(s[0] == '\'');
        let rest = s.subrange(1, s.len() as int);
        assert(rest =~= inner + seq!['\''] + after);
        lemma_quoted_run_of(inner, after);
    } else {
        let b = before.subrange(1, before.len() as int);
        assert forall|i: int| 0 <= i < b.len() implies b[i] != '\'' by {
            assert(b[i] == before[i + 1]);
        }
        quoted_text_is_found(b, inner, after);
        let s = before + seq!['\''] + inner + seq!['\''] + after;
        assert(before.contains(before[0]));
        assert(s[0] == before[0]);
        assert(s.subrange(1, s.len() as int) =~= b + seq!['\''] + inner + seq!['\''] + after);
    }
}

proof fn lemma_quoted_run_of(inner: Seq<char>, after: Seq<char>)
    requires
        !inner.contains('\''),
        after.len() == 0 || after[0] != '\'',
    ensures
        quoted_run(inner + seq!['\''] + after) == (inner, after),
    decreases inner.len(),
{
    let s = inner + seq!['\''] + after;
    if inner.len() == 0 {
        assert(s[0] == '\'');
        assert(s.len() > 1 ==> s[1] == after[0]);
        assert(s.subrange(1, s.len() as int) =~= after);
        assert(inner =~= Seq::empty());
    } else {
        let b = inner.subrange(1, inner.len() as int);
        assert forall|i: int| 0 <= i < b.len() implies b[i] != '\'' by {
            assert(b[i] == inner[i + 1]);
        }
        lemma_quoted_run_of(b, after);
        assert(inner.contains(inner[0]));
        assert(s[0] == inner[0]);
        assert(s.subrange(1, s.len() as int) =~= b + seq!['\''] + after);
        assert(seq![inner[0]] + b =~= inner);
    }
}

/// The candidates among some texts are those that name a path, in their order.
pub proof fn candidates_are_picked_one_by_one(
    a: Seq<Seq<char>>,
    b: Seq<Seq<char>>,
    s: Seq<char>,
)
    ensures
        candidates_among(a + b) == candidates_among(a) + candidates_among(b),
        candidates_among(seq![s]) == if is_candidate(s) { seq![s] } else { Seq::empty() },
    decreases b.len(),
{
    let one = seq![s];
    assert(one.drop_last() =~= Seq::empty());
    assert(candidates_among(one.drop_last()) =~= Seq::empty());
    assert(is_candidate(s) ==> candidates_among(one) =~= one);
    if b.len() == 0 {
        assert(a + b =~= a);
        assert(candidates_among(a) + candidates_among(b) =~= candidates_among(a));
    } else {
        let f = b.drop_last();
        candidates_are_picked_one_by_one(a, f, s);
        assert((a + b).drop_last() =~= a + f);
        assert((a + b).last() == b.last());
        assert(candidates_among(a + b) =~= candidates_among(a) + candidates_among(b));
    }
}

/// Which texts are taken for a path: those with a backslash, those that start at the root or at a
/// directory by a dot or two, and those with a drive's letter and colon. A text of blanks is not.
pub proof fn path_like_texts_are_candidates(s: Seq<char>)
    ensures
        is_candidate(s) <==> !is_blank(s) && {
            ||| s.contains('\\')
            ||| s.len() > 0 && s[0] == '/'
            ||| s.len() > 1 && s[0] == '.' && s[1] == '/'
            ||| s.len() > 2 && s[0] == '.' && s[1] == '.' && s[2] == '/'
            ||| s.len() > 1 && (s[0] as u32) < 128 && s[1] == ':'
        },
{
    reveal_strlit("/");
    reveal_strlit("./");
    reveal_strlit("../");
    reveal_strlit(".\\");
    reveal_strlit("..\\");
    if "/"@.is_prefix_of(s) {
        assert(s[0] == "/"@[0]);
    }
    if "./"@.is_prefix_of(s) {
        assert(s[0] == "./"@[0] && s[1] == "./"@[1]);
    }
    if "../"@.is_prefix_of(s) {
        assert(s[0] == "../"@[0] && s[1] == "../"@[1] && s[2] == "../"@[2]);
    }
    if ".\\"@.is_prefix_of(s) {
        assert(s[1] == ".\\"@[1]);
        assert(s.contains(s[1]));
    }
    if "..\\"@.is_prefix_of(s) {
        assert(s[2] == "..\\"@[2]);
        assert(s.contains(s[2]));
    }
}

/// Paths outside some roots are kept one by one, in their order.
pub proof fn outside_paths_are_kept_one_by_one(
    a: Seq<Seq<u8>>,
    b: Seq<Seq<u8>>,
    p: Seq<u8>,
    roots: Seq<Seq<u8>>,
)
    ensures
        outside(a + b, roots) == outside(a, roots) + outside(b, roots),
        is_under(p, roots) ==> outside(seq![p], roots).len() == 0,
        !is_under(p, roots) ==> outside(seq![p], roots) == seq![p],
    decreases b.len(),
{
    let one = seq![p];
    assert(one.drop_last() =~= Seq::empty());
    assert(outside(one.drop_last(), roots) =~= Seq::empty());
    assert(!is_under(p, roots) ==> outside(one, roots) =~= one);
    if b.len() == 0 {
        assert(a + b =~= a);
        assert(outside(a, roots) + outside(b, roots) =~= outside(a, roots));
    } else {
        let f = b.drop_last();
        outside_paths_are_kept_one_by_one(a, f, p, roots);
        assert((a + b).drop_last() =~= a + f);
        assert((a + b).last() == b.last());
        assert(outside(a + b, roots) =~= outside(a, roots) + outside(b, roots));
    }
}

/// The lists of a plan are in the order of the rules, each path as often as the rules name it.
pub proof fn plans_keep_the_order_of_the_rules(policy: PolicyView, scope: Seq<Seq<u8>>)
    ensures
        ({
            let rules = policy.path_permissions;
            let plan = planned_acl(policy, scope);
            let denied = paths_with(rules, set![SandboxPathAccess::Deny]);
            let writable = outside(paths_with(rules, set![SandboxPathAccess::ReadWrite]), denied);
            let readable = outside(paths_with(rules, set![SandboxPathAccess::ReadOnly]), denied);
            &&& plan.deny_access == denied
            &&& policy.default_access == SandboxDefaultAccess::ReadOnly ==> plan.allow_readwrite
                == writable && plan.deny_write.len() == 0
            &&& policy.default_access == SandboxDefaultAccess::ReadWrite ==> plan.allow_readonly
                == readable && plan.deny_write == readable && plan.allow_readwrite.len() <= scope.len()
                + writable.len()
        }),
{
    let rules = policy.path_permissions;
    let denied = paths_with(rules, set![SandboxPathAccess::Deny]);
    let readable = outside(paths_with(rules, set![SandboxPathAccess::ReadOnly]), denied);
    lemma_outside_is_not_longer(scope, readable + denied);
}

proof fn lemma_outside_is_not_longer(paths: Seq<Seq<u8>>, roots: Seq<Seq<u8>>)
    ensures
        outside(paths, roots).len() <= paths.len(),
    decreases paths.len(),
{
    if paths.len() > 0 {
        lemma_outside_is_not_longer(paths.drop_last(), roots);
    }
}

} // verus!
