//! The profile and the command line of a run on macOS.
use vstd::prelude::*;
use vstd::string::StringExecFns;

use crate::error::{ErrorView, SandboxError};
use crate::path::{display_text, path_views, PathStyle, SandboxPath};
use crate::policy::{
    coarse_shape, has_rule, listed_paths_are_those_of_the_rules, paths_with, PermissionView,
    PolicyView, SandboxCoarseNetworkPolicy, SandboxDefaultAccess,
    SandboxPathAccess, SandboxPolicy,
};
use crate::text::{blank, chars_of, is_blank, join, join_texts, texts};

verus! {

/// Where the system keeps its sandbox program.
pub const DEFAULT_SANDBOX_EXEC_PATH: &'static str = "/usr/bin/sandbox-exec";

/// The environment variable that names another sandbox program.
pub const MACOS_SANDBOX_EXEC_ENV: &'static str = "PROCWARDEN_MACOS_SANDBOX_EXEC";

/// A text with backslashes and quotation marks escaped.
pub open spec fn escaped(s: Seq<char>) -> Seq<char>
    decreases s.len(),
{
    if s.len() == 0 {
        Seq::empty()
    } else {
        let front = escaped(s.drop_last());
        if s.last() == '\\' || s.last() == '"' {
            front.push('\\').push(s.last())
        } else {
            front.push(s.last())
        }
    }
}

/// A path as a string of the profile language.
pub open spec fn quoted_path(path: Seq<u8>) -> Seq<char> {
    seq!['"'] + escaped(display_text(PathStyle::Unix, path)) + seq!['"']
}

/// One rule of the profile language.
pub open spec fn rule_line(
    action: Seq<char>,
    operation: Seq<char>,
    filter: Seq<char>,
    path: Seq<u8>,
) -> Seq<char> {
    "("@ + action + " "@ + operation + " ("@ + filter + " "@ + quoted_path(path) + "))"@
}

/// The rules for a path itself and for what lies below it.
pub open spec fn path_rules(action: Seq<char>, operation: Seq<char>, path: Seq<u8>) -> Seq<
    Seq<char>,
> {
    seq![
        rule_line(action, operation, "literal"@, path),
        rule_line(action, operation, "subpath"@, path),
    ]
}

/// The rules that give or take away writing at some paths.
pub open spec fn write_rules(action: Seq<char>, paths: Seq<Seq<u8>>) -> Seq<Seq<char>>
    decreases paths.len(),
{
    if paths.len() == 0 {
        Seq::empty()
    } else {
        write_rules(action, paths.drop_last()) + path_rules(action, "file-write*"@, paths.last())
    }
}

/// The rules that take away reading and writing at some paths.
pub open spec fn deny_rules(paths: Seq<Seq<u8>>) -> Seq<Seq<char>>
    decreases paths.len(),
{
    if paths.len() == 0 {
        Seq::empty()
    } else {
        deny_rules(paths.drop_last()) + path_rules("deny"@, "file-read*"@, paths.last())
            + path_rules("deny"@, "file-write*"@, paths.last())
    }
}

/// The rules for the network.
pub open spec fn network_rules(shape: SandboxCoarseNetworkPolicy) -> Seq<Seq<char>> {
    match shape {
        SandboxCoarseNetworkPolicy::Disabled => seq!["(deny network*)"@],
        SandboxCoarseNetworkPolicy::OutboundOnly => seq![
            "(deny network-bind)"@,
            "(deny network-inbound)"@,
        ],
        SandboxCoarseNetworkPolicy::Bidirectional => Seq::empty(),
    }
}

/// The rules for files. A later rule wins over an earlier one, so denials come last.
pub open spec fn file_rules(policy: PolicyView) -> Seq<Seq<char>> {
    let rules = policy.path_permissions;
    let denied = deny_rules(paths_with(rules, set![SandboxPathAccess::Deny]));
    match policy.default_access {
        SandboxDefaultAccess::ReadWrite => write_rules(
            "deny"@,
            paths_with(rules, set![SandboxPathAccess::ReadOnly]),
        ) + denied,
        SandboxDefaultAccess::ReadOnly => seq!["(deny file-write*)"@] + write_rules(
            "allow"@,
            paths_with(rules, set![SandboxPathAccess::ReadWrite]),
        ) + denied,
    }
}

/// The lines of a profile.
pub open spec fn profile_lines(policy: PolicyView, shape: SandboxCoarseNetworkPolicy) -> Seq<
    Seq<char>,
> {
    seq!["(version 1)"@, "(allow default)"@] + network_rules(shape) + file_rules(policy)
}

/// The error for a network policy that has no coarse shape.
pub open spec fn custom_network_error() -> ErrorView {
    ErrorView::Unavailable(
        "macOS backend only supports SandboxNetworkPolicy::disabled(), ::outbound_only(), or ::bidirectional()"@,
    )
}

/// The profile of a policy, or the error for a network policy that has no coarse shape.
pub open spec fn profile(policy: PolicyView) -> Result<Seq<char>, ErrorView> {
    match coarse_shape(policy.network_policy) {
        Some(shape) => Ok(join(profile_lines(policy, shape), "\n"@)),
        None => Err(custom_network_error()),
    }
}

/// A path as a string of the profile language.
pub fn quote_sbpl_string(path: &SandboxPath) -> (r: String)
    ensures
        r@ == quoted_path(path@),
{
    let shown = path.display(PathStyle::Unix);
    let s = chars_of(shown.as_str());
    let mut r = String::new();
    r.push('"');
    let ghost open = seq!['"'];
    assert(r@ =~= open + escaped(s@.take(0)));
    for i in 0..s.len()
        invariant
            r@ == open + escaped(s@.take(i as int)),
    {
        proof {
            assert(s@.take(i + 1).drop_last() =~= s@.take(i as int));
            assert(s@.take(i + 1).last() == s@[i as int]);
        }
        let ghost front = escaped(s@.take(i as int));
        let c = s[i];
        if c == '\\' || c == '"' {
            r.push('\\');
            r.push(c);
            assert(r@ =~= open + front.push('\\').push(c));
        } else {
            r.push(c);
            assert(r@ =~= open + front.push(c));
        }
    }
    assert(s@.take(s.len() as int) =~= s@);
    r.push('"');
    assert(r@ =~= quoted_path(path@));
    r
}

fn rule_text(action: &str, operation: &str, filter: &str, path: &SandboxPath) -> (r: String)
    ensures
        r@ == rule_line(action@, operation@, filter@, path@),
{
    let mut line = "(".to_owned();
    line.append(action);
    line.append(" ");
    line.append(operation);
    line.append(" (");
    line.append(filter);
    line.append(" ");
    line.append(quote_sbpl_string(path).as_str());
    line.append("))");
    line
}

fn push_line(lines: &mut Vec<String>, line: String)
    ensures
        texts(final(lines)@) == texts(old(lines)@).push(line@),
{
    let ghost before = texts(lines@);
    lines.push(line);
    assert(texts(lines@) =~= before.push(line@));
}

/// Adds the rules for a path itself and for what lies below it.
pub fn push_path_rule(lines: &mut Vec<String>, action: &str, operation: &str, path: &SandboxPath)
    ensures
        texts(final(lines)@) == texts(old(lines)@) + path_rules(action@, operation@, path@),
{
    let ghost before = texts(lines@);
    push_line(lines, rule_text(action, operation, "literal", path));
    push_line(lines, rule_text(action, operation, "subpath", path));
    assert(texts(lines@) =~= before + path_rules(action@, operation@, path@));
}

fn push_write_rules(lines: &mut Vec<String>, action: &str, paths: &Vec<SandboxPath>)
    ensures
        texts(final(lines)@) == texts(old(lines)@) + write_rules(action@, path_views(paths@)),
{
    let ghost before = texts(lines@);
    let ghost all = path_views(paths@);
    assert(before =~= before + write_rules(action@, all.take(0)));
    for i in 0..paths.len()
        invariant
            all == path_views(paths@),
            texts(lines@) == before + write_rules(action@, all.take(i as int)),
    {
        proof {
            assert(all.take(i + 1).drop_last() =~= all.take(i as int));
            assert(all.take(i + 1).last() == paths@[i as int]@);
        }
        push_path_rule(lines, action, "file-write*", &paths[i]);
        assert(texts(lines@) =~= before + write_rules(action@, all.take(i + 1)));
    }
    assert(all.take(all.len() as int) =~= all);
}

fn push_deny_rules(lines: &mut Vec<String>, paths: &Vec<SandboxPath>)
    ensures
        texts(final(lines)@) == texts(old(lines)@) + deny_rules(path_views(paths@)),
{
    let ghost before = texts(lines@);
    let ghost all = path_views(paths@);
    assert(before =~= before + deny_rules(all.take(0)));
    for i in 0..paths.len()
        invariant
            all == path_views(paths@),
            texts(lines@) == before + deny_rules(all.take(i as int)),
    {
        proof {
            assert(all.take(i + 1).drop_last() =~= all.take(i as int));
            assert(all.take(i + 1).last() == paths@[i as int]@);
        }
        push_path_rule(lines, "deny", "file-read*", &paths[i]);
        push_path_rule(lines, "deny", "file-write*", &paths[i]);
        assert(texts(lines@) =~= before + deny_rules(all.take(i + 1)));
    }
    assert(all.take(all.len() as int) =~= all);
}

/// The profile of a policy.
pub fn build_sbpl_profile(policy: &SandboxPolicy) -> (r: Result<String, SandboxError>)
    ensures
        match r {
            Ok(text) => profile(policy@) == Ok::<Seq<char>, ErrorView>(text@),
            Err(e) => profile(policy@) == Err::<Seq<char>, ErrorView>(e@),
        },
{
    let shape = match policy.network_policy.coarse_policy() {
        Some(shape) => shape,
        None => {
            return Err(
                SandboxError::Unavailable(
                    "macOS backend only supports SandboxNetworkPolicy::disabled(), ::outbound_only(), or ::bidirectional()".to_owned(),
                ),
            );
        },
    };
    let mut lines: Vec<String> = Vec::new();
    push_line(&mut lines, "(version 1)".to_owned());
    push_line(&mut lines, "(allow default)".to_owned());
    let ghost head = seq!["(version 1)"@, "(allow default)"@];
    assert(texts(lines@) =~= head);
    match shape {
        SandboxCoarseNetworkPolicy::Disabled => {
            push_line(&mut lines, "(deny network*)".to_owned());
        },
        SandboxCoarseNetworkPolicy::OutboundOnly => {
            push_line(&mut lines, "(deny network-bind)".to_owned());
            push_line(&mut lines, "(deny network-inbound)".to_owned());
        },
        SandboxCoarseNetworkPolicy::Bidirectional => {},
    }
    let ghost start = head + network_rules(shape);
    assert(texts(lines@) =~= start);
    match policy.default_access {
        SandboxDefaultAccess::ReadWrite => {
            push_write_rules(&mut lines, "deny", &policy.read_only_paths());
        },
        SandboxDefaultAccess::ReadOnly => {
            push_line(&mut lines, "(deny file-write*)".to_owned());
            push_write_rules(&mut lines, "allow", &policy.read_write_paths());
        },
    }
    push_deny_rules(&mut lines, &policy.denied_paths());
    assert(texts(lines@) =~= start + file_rules(policy@));
    Ok(join_texts(&lines, "\n"))
}

/// The sandbox program: the one that the environment names, where it names one, and otherwise
/// the system's own.
pub open spec fn sandbox_program(named: Option<Seq<char>>) -> Seq<char> {
    match named {
        Some(path) => if is_blank(path) {
            DEFAULT_SANDBOX_EXEC_PATH@
        } else {
            path
        },
        None => DEFAULT_SANDBOX_EXEC_PATH@,
    }
}

/// The value of an optional text.
pub open spec fn optional_text(s: Option<String>) -> Option<Seq<char>> {
    match s {
        Some(x) => Some(x@),
        None => None,
    }
}

/// The sandbox program for a value of the environment variable that names it.
pub fn sandbox_exec_path(named: &Option<String>) -> (r: String)
    ensures
        r@ == sandbox_program(optional_text(*named)),
{
    match named {
        Some(path) => if blank(path.as_str()) {
            DEFAULT_SANDBOX_EXEC_PATH.to_owned()
        } else {
            path.clone()
        },
        None => DEFAULT_SANDBOX_EXEC_PATH.to_owned(),
    }
}

/// The error where there is no sandbox program.
pub open spec fn missing_program(path: Seq<char>) -> ErrorView {
    ErrorView::Unavailable(
        "macOS sandbox executable not found at "@ + path + "; set "@ + MACOS_SANDBOX_EXEC_ENV@
            + " to override the path"@,
    )
}

/// The command line of a run, or why there is none: a sandbox program has to be there, and the
/// network policy has to have a coarse shape.
pub open spec fn command_line(
    command: Seq<Seq<char>>,
    policy: PolicyView,
    named: Option<Seq<char>>,
    is_file: bool,
) -> Result<Seq<Seq<char>>, ErrorView> {
    if !is_file {
        Err(missing_program(sandbox_program(named)))
    } else {
        match profile(policy) {
            Err(e) => Err(e),
            Ok(text) => Ok(seq![sandbox_program(named), "-p"@, text, "--"@] + command),
        }
    }
}

/// The command line of a run: the sandbox program with the policy's profile, and then the
/// command. `is_file` says whether the sandbox program is there.
pub fn plan_macos_run(
    command: &Vec<String>,
    policy: &SandboxPolicy,
    named: &Option<String>,
    is_file: bool,
) -> (r: Result<Vec<String>, SandboxError>)
    ensures
        match r {
            Ok(argv) => command_line(texts(command@), policy@, optional_text(*named), is_file)
                == Ok::<Seq<Seq<char>>, ErrorView>(texts(argv@)),
            Err(e) => command_line(texts(command@), policy@, optional_text(*named), is_file)
                == Err::<Seq<Seq<char>>, ErrorView>(e@),
        },
{
    let program = sandbox_exec_path(named);
    if !is_file {
        let mut message = "macOS sandbox executable not found at ".to_owned();
        message.append(program.as_str());
        message.append("; set ");
        message.append(MACOS_SANDBOX_EXEC_ENV);
        message.append(" to override the path");
        return Err(SandboxError::Unavailable(message));
    }
    let text = match build_sbpl_profile(policy) {
        Ok(text) => text,
        Err(e) => {
            return Err(e);
        },
    };
    let ghost head = seq![program@, "-p"@, text@, "--"@];
    let mut argv: Vec<String> = Vec::new();
    push_line(&mut argv, program);
    push_line(&mut argv, "-p".to_owned());
    push_line(&mut argv, text);
    push_line(&mut argv, "--".to_owned());
    assert(texts(argv@) =~= head);
    for i in 0..command.len()
        invariant
            texts(argv@) =~= head + texts(command@).take(i as int),
    {
        push_line(&mut argv, command[i].clone());
    }
    assert(texts(command@).take(command.len() as int) =~= texts(command@));
    Ok(argv)
}

/// What an escaped text stands for: a backslash gives way to the character behind it.
pub open spec fn unescaped(s: Seq<char>) -> Seq<char>
    decreases s.len(),
{
    if s.len() == 0 {
        s
    } else if s[0] == '\\' && s.len() > 1 {
        seq![s[1]] + unescaped(s.subrange(2, s.len() as int))
    } else {
        seq![s[0]] + unescaped(s.subrange(1, s.len() as int))
    }
}

/// One character, escaped where it has to be.
spec fn escaped_char(c: char) -> Seq<char> {
    if c == '\\' || c == '"' {
        seq!['\\', c]
    } else {
        seq![c]
    }
}

proof fn lemma_escaped_from_left(s: Seq<char>)
    requires
        s.len() > 0,
    ensures
        escaped(s) == escaped_char(s[0]) + escaped(s.subrange(1, s.len() as int)),
    decreases s.len(),
{
    let rest = s.subrange(1, s.len() as int);
    if s.len() == 1 {
        assert(s.drop_last() =~= Seq::empty());
        assert(rest =~= Seq::empty());
        assert(escaped(s) =~= escaped_char(s[0]) + escaped(rest));
    } else {
        lemma_escaped_from_left(s.drop_last());
        assert(s.drop_last().subrange(1, s.len() - 1) =~= rest.drop_last());
        assert(escaped(s) =~= escaped_char(s[0]) + escaped(rest));
    }
}

/// Escaping can be undone: an escaped text reads back as the text, so that no path can be taken
/// for another one or end its string early.
pub proof fn escaping_can_be_undone(s: Seq<char>)
    ensures
        unescaped(escaped(s)) == s,
    decreases s.len(),
{
    if s.len() > 0 {
        let rest = s.subrange(1, s.len() as int);
        lemma_escaped_from_left(s);
        escaping_can_be_undone(rest);
        let e = escaped(s);
        if s[0] == '\\' || s[0] == '"' {
            assert(e[0] == '\\' && e[1] == s[0]);
            assert(e.subrange(2, e.len() as int) =~= escaped(rest));
        } else {
            assert(e[0] == s[0]);
            assert(e.subrange(1, e.len() as int) =~= escaped(rest));
        }
        assert(unescaped(e) =~= seq![s[0]] + rest);
        assert(seq![s[0]] + rest =~= s);
    }
}

/// The denials of a profile are its last lines, so that no other rule overrides them.
pub proof fn denials_come_last(policy: PolicyView, shape: SandboxCoarseNetworkPolicy)
    ensures
        ({
            let lines = profile_lines(policy, shape);
            let denied = deny_rules(
                paths_with(policy.path_permissions, set![SandboxPathAccess::Deny]),
            );
            &&& denied.len() <= lines.len()
            &&& lines.subrange(lines.len() - denied.len(), lines.len() as int) == denied
        }),
{
    let lines = profile_lines(policy, shape);
    let denied = deny_rules(paths_with(policy.path_permissions, set![SandboxPathAccess::Deny]));
    assert(lines.subrange(lines.len() - denied.len(), lines.len() as int) =~= denied);
}

/// Below a read-only default the global write denial comes before every write permission.
pub proof fn write_denial_comes_before_permissions(
    policy: PolicyView,
    shape: SandboxCoarseNetworkPolicy,
)
    requires
        policy.default_access == SandboxDefaultAccess::ReadOnly,
    ensures
        ({
            let lines = profile_lines(policy, shape);
            let at = 2 + network_rules(shape).len();
            let allowed = write_rules(
                "allow"@,
                paths_with(policy.path_permissions, set![SandboxPathAccess::ReadWrite]),
            );
            &&& lines[at as int] == "(deny file-write*)"@
            &&& lines.subrange(at + 1int, at + 1int + allowed.len()) == allowed
        }),
{
    let lines = profile_lines(policy, shape);
    let at = 2 + network_rules(shape).len();
    let allowed = write_rules(
        "allow"@,
        paths_with(policy.path_permissions, set![SandboxPathAccess::ReadWrite]),
    );
    assert(lines.subrange(at + 1int, at + 1int + allowed.len()) =~= allowed);
}

/// Exactly the network policies with a coarse shape have a profile.
pub proof fn only_coarse_policies_have_a_profile(policy: PolicyView)
    ensures
        profile(policy) is Ok <==> coarse_shape(policy.network_policy) is Some,
{
}

/// What one rule asks of the lines of a profile: a denied path is closed to reading and to writing,
/// a writable one is opened for writing where writing is otherwise denied, and a read-only one is
/// closed to writing where it is otherwise allowed; each of the path itself and of what is below.
pub open spec fn is_line_of_rule(
    rule: PermissionView,
    default_access: SandboxDefaultAccess,
    line: Seq<char>,
) -> bool {
    let name = escaped(display_text(PathStyle::Unix, rule.path));
    let end = "\"))"@;
    match (rule.access, default_access) {
        (SandboxPathAccess::Deny, _) => {
            ||| line == "(deny file-read* (literal \""@ + name + end
            ||| line == "(deny file-read* (subpath \""@ + name + end
            ||| line == "(deny file-write* (literal \""@ + name + end
            ||| line == "(deny file-write* (subpath \""@ + name + end
        },
        (SandboxPathAccess::ReadWrite, SandboxDefaultAccess::ReadOnly) => {
            ||| line == "(allow file-write* (literal \""@ + name + end
            ||| line == "(allow file-write* (subpath \""@ + name + end
        },
        (SandboxPathAccess::ReadOnly, SandboxDefaultAccess::ReadWrite) => {
            ||| line == "(deny file-write* (literal \""@ + name + end
            ||| line == "(deny file-write* (subpath \""@ + name + end
        },
        _ => false,
    }
}

/// The lines that every policy with a shape and a default has.
pub open spec fn is_fixed_line(
    default_access: SandboxDefaultAccess,
    shape: SandboxCoarseNetworkPolicy,
    line: Seq<char>,
) -> bool {
    ||| line == "(version 1)"@
    ||| line == "(allow default)"@
    ||| line == "(deny network*)"@ && shape == SandboxCoarseNetworkPolicy::Disabled
    ||| line == "(deny network-bind)"@ && shape == SandboxCoarseNetworkPolicy::OutboundOnly
    ||| line == "(deny network-inbound)"@ && shape == SandboxCoarseNetworkPolicy::OutboundOnly
    ||| line == "(deny file-write*)"@ && default_access == SandboxDefaultAccess::ReadOnly
}

proof fn lemma_rule_lines(path: Seq<u8>)
    ensures
        ({
            let name = escaped(display_text(PathStyle::Unix, path));
            let end = "\"))"@;
            &&& rule_line("deny"@, "file-read*"@, "literal"@, path)
                == "(deny file-read* (literal \""@ + name + end
            &&& rule_line("deny"@, "file-read*"@, "subpath"@, path)
                == "(deny file-read* (subpath \""@ + name + end
            &&& rule_line("deny"@, "file-write*"@, "literal"@, path)
                == "(deny file-write* (literal \""@ + name + end
            &&& rule_line("deny"@, "file-write*"@, "subpath"@, path)
                == "(deny file-write* (subpath \""@ + name + end
            &&& rule_line("allow"@, "file-write*"@, "literal"@, path)
                == "(allow file-write* (literal \""@ + name + end
            &&& rule_line("allow"@, "file-write*"@, "subpath"@, path)
                == "(allow file-write* (subpath \""@ + name + end
        }),
{
    let name = escaped(display_text(PathStyle::Unix, path));
    let end = "\"))"@;
    reveal_strlit("(");
    reveal_strlit(" ");
    reveal_strlit(" (");
    reveal_strlit("))");
    reveal_strlit("\"))");
    reveal_strlit("deny");
    reveal_strlit("allow");
    reveal_strlit("file-read*");
    reveal_strlit("file-write*");
    reveal_strlit("literal");
    reveal_strlit("subpath");
    reveal_strlit("(deny file-read* (literal \"");
    reveal_strlit("(deny file-read* (subpath \"");
    reveal_strlit("(deny file-write* (literal \"");
    reveal_strlit("(deny file-write* (subpath \"");
    reveal_strlit("(allow file-write* (literal \"");
    reveal_strlit("(allow file-write* (subpath \"");
    assert(rule_line("deny"@, "file-read*"@, "literal"@, path)
        =~= "(deny file-read* (literal \""@ + name + end);
    assert(rule_line("deny"@, "file-read*"@, "subpath"@, path)
        =~= "(deny file-read* (subpath \""@ + name + end);
    assert(rule_line("deny"@, "file-write*"@, "literal"@, path)
        =~= "(deny file-write* (literal \""@ + name + end);
    assert(rule_line("deny"@, "file-write*"@, "subpath"@, path)
        =~= "(deny file-write* (subpath \""@ + name + end);
    assert(rule_line("allow"@, "file-write*"@, "literal"@, path)
        =~= "(allow file-write* (literal \""@ + name + end);
    assert(rule_line("allow"@, "file-write*"@, "subpath"@, path)
        =~= "(allow file-write* (subpath \""@ + name + end);
}

proof fn lemma_contains_sum<A>(a: Seq<A>, b: Seq<A>, x: A)
    ensures
        (a + b).contains(x) <==> a.contains(x) || b.contains(x),
{
    let s = a + b;
    if s.contains(x) {
        let i = choose|i: int| 0 <= i < s.len() && s[i] == x;
        if i < a.len() {
            assert(a[i] == x);
        } else {
            assert(b[i - a.len()] == x);
        }
    }
    if a.contains(x) {
        let i = choose|i: int| 0 <= i < a.len() && a[i] == x;
        assert(s[i] == x);
    }
    if b.contains(x) {
        let i = choose|i: int| 0 <= i < b.len() && b[i] == x;
        assert(s[i + a.len()] == x);
    }
}

proof fn lemma_path_rules(action: Seq<char>, operation: Seq<char>, path: Seq<u8>, line: Seq<char>)
    ensures
        path_rules(action, operation, path).contains(line) <==> line == rule_line(
            action,
            operation,
            "literal"@,
            path,
        ) || line == rule_line(action, operation, "subpath"@, path),
{
    let r = path_rules(action, operation, path);
    assert(r[0] == rule_line(action, operation, "literal"@, path));
    assert(r[1] == rule_line(action, operation, "subpath"@, path));
}

proof fn lemma_write_lines(action: Seq<char>, paths: Seq<Seq<u8>>, line: Seq<char>)
    ensures
        write_rules(action, paths).contains(line) <==> exists|k: int|
            0 <= k < paths.len() && path_rules(
                action,
                "file-write*"@,
                #[trigger] paths[k],
            ).contains(line),
    decreases paths.len(),
{
    if paths.len() > 0 {
        let f = paths.drop_last();
        let last = path_rules(action, "file-write*"@, paths.last());
        lemma_write_lines(action, f, line);
        lemma_contains_sum(write_rules(action, f), last, line);
        if write_rules(action, f).contains(line) {
            let k = choose|k: int|
                0 <= k < f.len() && path_rules(action, "file-write*"@, #[trigger] f[k]).contains(
                    line,
                );
            assert(paths[k] == f[k]);
        }
        if last.contains(line) {
            assert(paths[paths.len() - 1] == paths.last());
        }
        if exists|k: int|
            0 <= k < paths.len() && path_rules(
                action,
                "file-write*"@,
                #[trigger] paths[k],
            ).contains(line) {
            let k = choose|k: int|
                0 <= k < paths.len() && path_rules(
                    action,
                    "file-write*"@,
                    #[trigger] paths[k],
                ).contains(line);
            if k < f.len() {
                assert(f[k] == paths[k]);
            }
        }
    }
}

proof fn lemma_deny_lines(paths: Seq<Seq<u8>>, line: Seq<char>)
    ensures
        deny_rules(paths).contains(line) <==> exists|k: int|
            0 <= k < paths.len() && (path_rules("deny"@, "file-read*"@, #[trigger] paths[k])
                + path_rules("deny"@, "file-write*"@, paths[k])).contains(line),
    decreases paths.len(),
{
    if paths.len() > 0 {
        let f = paths.drop_last();
        let last = path_rules("deny"@, "file-read*"@, paths.last()) + path_rules(
            "deny"@,
            "file-write*"@,
            paths.last(),
        );
        lemma_deny_lines(f, line);
        assert(deny_rules(paths) =~= deny_rules(f) + last);
        lemma_contains_sum(deny_rules(f), last, line);
        if deny_rules(f).contains(line) {
            let k = choose|k: int|
                0 <= k < f.len() && (path_rules("deny"@, "file-read*"@, #[trigger] f[k])
                    + path_rules("deny"@, "file-write*"@, f[k])).contains(line);
            assert(paths[k] == f[k]);
        }
        if last.contains(line) {
            assert(paths[paths.len() - 1] == paths.last());
        }
        if exists|k: int|
            0 <= k < paths.len() && (path_rules("deny"@, "file-read*"@, #[trigger] paths[k])
                + path_rules("deny"@, "file-write*"@, paths[k])).contains(line) {
            let k = choose|k: int|
                0 <= k < paths.len() && (path_rules("deny"@, "file-read*"@, #[trigger] paths[k])
                    + path_rules("deny"@, "file-write*"@, paths[k])).contains(line);
            if k < f.len() {
                assert(f[k] == paths[k]);
            }
        }
    }
}

/// The paths of the rules with one access.
proof fn lemma_paths_of(rules: Seq<PermissionView>, access: SandboxPathAccess)
    ensures
        forall|i: int|
            0 <= i < rules.len() && (#[trigger] rules[i]).access == access ==> paths_with(
                rules,
                set![access],
            ).contains(rules[i].path),
        forall|k: int|
            0 <= k < paths_with(rules, set![access]).len() ==> has_rule(
                rules,
                access,
                #[trigger] paths_with(rules, set![access])[k],
            ),
{
    let paths = paths_with(rules, set![access]);
    assert forall|i: int|
        0 <= i < rules.len() && (#[trigger] rules[i]).access == access implies paths.contains(
        rules[i].path,
    ) by {
        listed_paths_are_those_of_the_rules(rules, set![access], rules[i].path);
    }
    assert forall|k: int| 0 <= k < paths.len() implies has_rule(
        rules,
        access,
        #[trigger] paths[k],
    ) by {
        listed_paths_are_those_of_the_rules(rules, set![access], paths[k]);
        let i = choose|i: int|
            0 <= i < rules.len() && (#[trigger] rules[i]).path == paths[k] && set![access].contains(
                rules[i].access,
            );
        assert(rules[i].access == access);
    }
}

proof fn lemma_write_lines_of_rules(
    rules: Seq<PermissionView>,
    access: SandboxPathAccess,
    action: Seq<char>,
    line: Seq<char>,
)
    ensures
        write_rules(action, paths_with(rules, set![access])).contains(line) <==> exists|i: int|
            0 <= i < rules.len() && (#[trigger] rules[i]).access == access && path_rules(
                action,
                "file-write*"@,
                rules[i].path,
            ).contains(line),
{
    let paths = paths_with(rules, set![access]);
    lemma_paths_of(rules, access);
    lemma_write_lines(action, paths, line);
    if write_rules(action, paths).contains(line) {
        let k = choose|k: int|
            0 <= k < paths.len() && path_rules(
                action,
                "file-write*"@,
                #[trigger] paths[k],
            ).contains(line);
        assert(has_rule(rules, access, paths[k]));
    }
    if exists|i: int|
        0 <= i < rules.len() && (#[trigger] rules[i]).access == access && path_rules(
            action,
            "file-write*"@,
            rules[i].path,
        ).contains(line) {
        let i = choose|i: int|
            0 <= i < rules.len() && (#[trigger] rules[i]).access == access && path_rules(
                action,
                "file-write*"@,
                rules[i].path,
            ).contains(line);
        let k = choose|k: int| 0 <= k < paths.len() && paths[k] == rules[i].path;
        assert(path_rules(action, "file-write*"@, paths[k]).contains(line));
    }
}

proof fn lemma_deny_lines_of_rules(rules: Seq<PermissionView>, line: Seq<char>)
    ensures
        deny_rules(paths_with(rules, set![SandboxPathAccess::Deny])).contains(line) <==> exists|
            i: int,
        |
            0 <= i < rules.len() && (#[trigger] rules[i]).access == SandboxPathAccess::Deny && (
            path_rules("deny"@, "file-read*"@, rules[i].path) + path_rules(
                "deny"@,
                "file-write*"@,
                rules[i].path,
            )).contains(line),
{
    let paths = paths_with(rules, set![SandboxPathAccess::Deny]);
    lemma_paths_of(rules, SandboxPathAccess::Deny);
    lemma_deny_lines(paths, line);
    if deny_rules(paths).contains(line) {
        let k = choose|k: int|
            0 <= k < paths.len() && (path_rules("deny"@, "file-read*"@, #[trigger] paths[k])
                + path_rules("deny"@, "file-write*"@, paths[k])).contains(line);
        assert(has_rule(rules, SandboxPathAccess::Deny, paths[k]));
    }
    if exists|i: int|
        0 <= i < rules.len() && (#[trigger] rules[i]).access == SandboxPathAccess::Deny && (
        path_rules("deny"@, "file-read*"@, rules[i].path) + path_rules(
            "deny"@,
            "file-write*"@,
            rules[i].path,
        )).contains(line) {
        let i = choose|i: int|
            0 <= i < rules.len() && (#[trigger] rules[i]).access == SandboxPathAccess::Deny && (
            path_rules("deny"@, "file-read*"@, rules[i].path) + path_rules(
                "deny"@,
                "file-write*"@,
                rules[i].path,
            )).contains(line);
        let k = choose|k: int| 0 <= k < paths.len() && paths[k] == rules[i].path;
        assert((path_rules("deny"@, "file-read*"@, paths[k]) + path_rules(
            "deny"@,
            "file-write*"@,
            paths[k],
        )).contains(line));
    }
}

proof fn lemma_line_of_rule(
    rule: PermissionView,
    default_access: SandboxDefaultAccess,
    line: Seq<char>,
)
    ensures
        is_line_of_rule(rule, default_access, line) <==> match (rule.access, default_access) {
            (SandboxPathAccess::Deny, _) => (path_rules("deny"@, "file-read*"@, rule.path)
                + path_rules("deny"@, "file-write*"@, rule.path)).contains(line),
            (SandboxPathAccess::ReadWrite, SandboxDefaultAccess::ReadOnly) => path_rules(
                "allow"@,
                "file-write*"@,
                rule.path,
            ).contains(line),
            (SandboxPathAccess::ReadOnly, SandboxDefaultAccess::ReadWrite) => path_rules(
                "deny"@,
                "file-write*"@,
                rule.path,
            ).contains(line),
            _ => false,
        },
{
    lemma_rule_lines(rule.path);
    lemma_path_rules("deny"@, "file-read*"@, rule.path, line);
    lemma_path_rules("deny"@, "file-write*"@, rule.path, line);
    lemma_path_rules("allow"@, "file-write*"@, rule.path, line);
    lemma_contains_sum(
        path_rules("deny"@, "file-read*"@, rule.path),
        path_rules("deny"@, "file-write*"@, rule.path),
        line,
    );
}

proof fn lemma_file_lines(policy: PolicyView, line: Seq<char>)
    ensures
        file_rules(policy).contains(line) <==> {
            ||| line == "(deny file-write*)"@ && policy.default_access
                == SandboxDefaultAccess::ReadOnly
            ||| exists|i: int|
                0 <= i < policy.path_permissions.len() && is_line_of_rule(
                    #[trigger] policy.path_permissions[i],
                    policy.default_access,
                    line,
                )
        },
{
    let rules = policy.path_permissions;
    let d = policy.default_access;
    let denied = deny_rules(paths_with(rules, set![SandboxPathAccess::Deny]));
    let closed = write_rules("deny"@, paths_with(rules, set![SandboxPathAccess::ReadOnly]));
    let opened = write_rules("allow"@, paths_with(rules, set![SandboxPathAccess::ReadWrite]));
    lemma_deny_lines_of_rules(rules, line);
    lemma_write_lines_of_rules(rules, SandboxPathAccess::ReadOnly, "deny"@, line);
    lemma_write_lines_of_rules(rules, SandboxPathAccess::ReadWrite, "allow"@, line);
    lemma_contains_sum(closed, denied, line);
    let first = seq!["(deny file-write*)"@];
    assert(first[0] == "(deny file-write*)"@);
    lemma_contains_sum(first, opened, line);
    lemma_contains_sum(first + opened, denied, line);
    assert forall|i: int| 0 <= i < rules.len() implies (is_line_of_rule(#[trigger] rules[i], d, line)
        <==> match (rules[i].access, d) {
        (SandboxPathAccess::Deny, _) => (path_rules("deny"@, "file-read*"@, rules[i].path)
            + path_rules("deny"@, "file-write*"@, rules[i].path)).contains(line),
        (SandboxPathAccess::ReadWrite, SandboxDefaultAccess::ReadOnly) => path_rules(
            "allow"@,
            "file-write*"@,
            rules[i].path,
        ).contains(line),
        (SandboxPathAccess::ReadOnly, SandboxDefaultAccess::ReadWrite) => path_rules(
            "deny"@,
            "file-write*"@,
            rules[i].path,
        ).contains(line),
        _ => false,
    }) by {
        lemma_line_of_rule(rules[i], d, line);
    }
}

/// A profile holds every line that a rule of the policy asks for, whichever rule it is, the lines
/// of its default and of its network shape, and no others.
pub proof fn profiles_hold_the_lines_of_every_rule(
    policy: PolicyView,
    shape: SandboxCoarseNetworkPolicy,
    line: Seq<char>,
)
    ensures
        profile_lines(policy, shape).contains(line) <==> {
            ||| is_fixed_line(policy.default_access, shape, line)
            ||| exists|i: int|
                0 <= i < policy.path_permissions.len() && is_line_of_rule(
                    #[trigger] policy.path_permissions[i],
                    policy.default_access,
                    line,
                )
        },
{
    lemma_file_lines(policy, line);
    let head = seq!["(version 1)"@, "(allow default)"@];
    assert(head[0] == "(version 1)"@ && head[1] == "(allow default)"@);
    let net = network_rules(shape);
    if shape == SandboxCoarseNetworkPolicy::Disabled {
        assert(net[0] == "(deny network*)"@);
    } else if shape == SandboxCoarseNetworkPolicy::OutboundOnly {
        assert(net[0] == "(deny network-bind)"@ && net[1] == "(deny network-inbound)"@);
    }
    lemma_contains_sum(head, net, line);
    lemma_contains_sum(head + net, file_rules(policy), line);
}

/// Every denied path of a policy is closed by its profile, to reading and to writing, itself and
/// everything below it, whatever the other rules are.
pub proof fn every_denied_path_is_closed(
    policy: PolicyView,
    shape: SandboxCoarseNetworkPolicy,
    i: int,
)
    requires
        0 <= i < policy.path_permissions.len(),
        policy.path_permissions[i].access == SandboxPathAccess::Deny,
    ensures
        ({
            let lines = profile_lines(policy, shape);
            let name = escaped(display_text(PathStyle::Unix, policy.path_permissions[i].path));
            let end = "\"))"@;
            &&& lines.contains("(deny file-read* (literal \""@ + name + end)
            &&& lines.contains("(deny file-read* (subpath \""@ + name + end)
            &&& lines.contains("(deny file-write* (literal \""@ + name + end)
            &&& lines.contains("(deny file-write* (subpath \""@ + name + end)
        }),
{
    let name = escaped(display_text(PathStyle::Unix, policy.path_permissions[i].path));
    let end = "\"))"@;
    profiles_hold_the_lines_of_every_rule(
        policy,
        shape,
        "(deny file-read* (literal \""@ + name + end,
    );
    profiles_hold_the_lines_of_every_rule(
        policy,
        shape,
        "(deny file-read* (subpath \""@ + name + end,
    );
    profiles_hold_the_lines_of_every_rule(
        policy,
        shape,
        "(deny file-write* (literal \""@ + name + end,
    );
    profiles_hold_the_lines_of_every_rule(
        policy,
        shape,
        "(deny file-write* (subpath \""@ + name + end,
    );
}

/// Every writable path below a read-only default is opened for writing, and every read-only path
/// below a writable default is closed to it.
pub proof fn every_exception_to_the_default_is_written(
    policy: PolicyView,
    shape: SandboxCoarseNetworkPolicy,
    i: int,
)
    requires
        0 <= i < policy.path_permissions.len(),
    ensures
        ({
            let rule = policy.path_permissions[i];
            let lines = profile_lines(policy, shape);
            let name = escaped(display_text(PathStyle::Unix, rule.path));
            let end = "\"))"@;
            &&& rule.access == SandboxPathAccess::ReadWrite && policy.default_access
                == SandboxDefaultAccess::ReadOnly ==> lines.contains(
                "(allow file-write* (literal \""@ + name + end,
            ) && lines.contains("(allow file-write* (subpath \""@ + name + end)
            &&& rule.access == SandboxPathAccess::ReadOnly && policy.default_access
                == SandboxDefaultAccess::ReadWrite ==> lines.contains(
                "(deny file-write* (literal \""@ + name + end,
            ) && lines.contains("(deny file-write* (subpath \""@ + name + end)
        }),
{
    let name = escaped(display_text(PathStyle::Unix, policy.path_permissions[i].path));
    let end = "\"))"@;
    profiles_hold_the_lines_of_every_rule(
        policy,
        shape,
        "(allow file-write* (literal \""@ + name + end,
    );
    profiles_hold_the_lines_of_every_rule(
        policy,
        shape,
        "(allow file-write* (subpath \""@ + name + end,
    );
    profiles_hold_the_lines_of_every_rule(
        policy,
        shape,
        "(deny file-write* (literal \""@ + name + end,
    );
    profiles_hold_the_lines_of_every_rule(
        policy,
        shape,
        "(deny file-write* (subpath \""@ + name + end,
    );
}

/// Of two lines of a profile, one that opens a path for writing and one that closes a denied path,
/// the second comes later: the last line that fits decides, so a denial is never opened again.
pub proof fn denials_override_permissions(
    policy: PolicyView,
    shape: SandboxCoarseNetworkPolicy,
    a: int,
    d: int,
    i: int,
    j: int,
)
    requires
        policy.default_access == SandboxDefaultAccess::ReadOnly,
        0 <= a < policy.path_permissions.len(),
        0 <= d < policy.path_permissions.len(),
        policy.path_permissions[a].access == SandboxPathAccess::ReadWrite,
        policy.path_permissions[d].access == SandboxPathAccess::Deny,
        0 <= i < profile_lines(policy, shape).len(),
        0 <= j < profile_lines(policy, shape).len(),
        is_line_of_rule(
            policy.path_permissions[a],
            policy.default_access,
            profile_lines(policy, shape)[i],
        ),
        is_line_of_rule(
            policy.path_permissions[d],
            policy.default_access,
            profile_lines(policy, shape)[j],
        ),
    ensures
        i < j,
{
    let rules = policy.path_permissions;
    let lines = profile_lines(policy, shape);
    let denied = deny_rules(paths_with(rules, set![SandboxPathAccess::Deny]));
    let opened = write_rules("allow"@, paths_with(rules, set![SandboxPathAccess::ReadWrite]));
    let net = network_rules(shape);
    let n = lines.len() - denied.len();
    reveal_strlit("(version 1)");
    reveal_strlit("(allow default)");
    reveal_strlit("(deny network*)");
    reveal_strlit("(deny network-bind)");
    reveal_strlit("(deny network-inbound)");
    reveal_strlit("(deny file-write*)");
    reveal_strlit("(deny file-read* (literal \"");
    reveal_strlit("(deny file-read* (subpath \"");
    reveal_strlit("(deny file-write* (literal \"");
    reveal_strlit("(deny file-write* (subpath \"");
    reveal_strlit("(allow file-write* (literal \"");
    reveal_strlit("(allow file-write* (subpath \"");
    assert(lines[i][1] == 'a');
    assert(lines[j].len() > 17 && lines[j][1] == 'd' && lines[j][6] == 'f' && lines[j][17] != ')');
    if i >= n {
        assert(denied[i - n] == lines[i]);
        assert(denied.contains(lines[i]));
        lemma_deny_lines_of_rules(rules, lines[i]);
        let k = choose|k: int|
            0 <= k < rules.len() && (#[trigger] rules[k]).access == SandboxPathAccess::Deny && (
            path_rules("deny"@, "file-read*"@, rules[k].path) + path_rules(
                "deny"@,
                "file-write*"@,
                rules[k].path,
            )).contains(lines[i]);
        lemma_line_of_rule(rules[k], policy.default_access, lines[i]);
        assert(lines[i][1] == 'd');
    }
    if j < n {
        if j < 2 {
        } else if j < 2 + net.len() {
            assert(lines[j] == net[j - 2]);
        } else if j == 2 + net.len() {
            assert(lines[j] == "(deny file-write*)"@);
        } else {
            let at = j - 3 - net.len();
            assert(lines[j] == opened[at]);
            assert(opened.contains(lines[j]));
            lemma_write_lines_of_rules(rules, SandboxPathAccess::ReadWrite, "allow"@, lines[j]);
            let k = choose|k: int|
                0 <= k < rules.len() && (#[trigger] rules[k]).access
                    == SandboxPathAccess::ReadWrite && path_rules(
                    "allow"@,
                    "file-write*"@,
                    rules[k].path,
                ).contains(lines[j]);
            lemma_line_of_rule(rules[k], policy.default_access, lines[j]);
            assert(lines[j][1] == 'a');
        }
    }
}

/// A profile's text is its lines with line breaks between them, and the command runs behind the
/// sandbox program and its profile: the command's own words come last and unchanged.
pub proof fn commands_run_behind_their_profile(
    command: Seq<Seq<char>>,
    policy: PolicyView,
    named: Option<Seq<char>>,
    is_file: bool,
)
    ensures
        ({
            let r = command_line(command, policy, named, is_file);
            let shape = coarse_shape(policy.network_policy);
            &&& r is Ok <==> is_file && shape is Some
            &&& r matches Ok(words) ==> {
                &&& words.len() == command.len() + 4
                &&& words.subrange(4, words.len() as int) == command
                &&& words[1] == "-p"@ && words[3] == "--"@
                &&& words[2] == join(profile_lines(policy, shape->0), "\n"@)
                &&& (named is Some && !is_blank(named->0)) ==> words[0] == named->0
                &&& (named is None || is_blank(named->0)) ==> words[0] == "/usr/bin/sandbox-exec"@
            }
        }),
{
    let r = command_line(command, policy, named, is_file);
    if r is Ok {
        let words = r->Ok_0;
        assert(words.subrange(4, words.len() as int) =~= command);
    }
}

/// Escaping works character by character: only a backslash and a quotation mark get a backslash
/// before them.
pub proof fn characters_are_escaped_one_by_one(a: Seq<char>, b: Seq<char>, c: char)
    ensures
        escaped(a + b) == escaped(a) + escaped(b),
        c == '\\' || c == '"' ==> escaped(seq![c]) == seq!['\\', c],
        c != '\\' && c != '"' ==> escaped(seq![c]) == seq![c],
    decreases b.len(),
{
    let one = seq![c];
    assert(one.drop_last() =~= Seq::empty());
    assert(escaped(one.drop_last()) =~= Seq::empty());
    if c == '\\' || c == '"' {
        assert(escaped(one) =~= seq!['\\', c]);
    } else {
        assert(escaped(one) =~= seq![c]);
    }
    if b.len() == 0 {
        assert(a + b =~= a);
        assert(escaped(a) + escaped(b) =~= escaped(a));
    } else {
        let f = b.drop_last();
        characters_are_escaped_one_by_one(a, f, c);
        assert((a + b).drop_last() =~= a + f);
        assert((a + b).last() == b.last());
        assert(escaped(a + b) =~= escaped(a) + escaped(b));
    }
}

/// What is said where the sandbox program is missing, and where a network has no shape.
pub proof fn missing_programs_are_named(
    command: Seq<Seq<char>>,
    policy: PolicyView,
    named: Option<Seq<char>>,
    is_file: bool,
)
    ensures
        !is_file ==> command_line(command, policy, named, is_file) == Err::<
            Seq<Seq<char>>,
            ErrorView,
        >(
            ErrorView::Unavailable(
                "macOS sandbox executable not found at "@ + sandbox_program(named) + "; set "@
                    + "PROCWARDEN_MACOS_SANDBOX_EXEC"@ + " to override the path"@,
            ),
        ),
        is_file && coarse_shape(policy.network_policy) is None ==> command_line(
            command,
            policy,
            named,
            is_file,
        ) == Err::<Seq<Seq<char>>, ErrorView>(
            ErrorView::Unavailable(
                "macOS backend only supports SandboxNetworkPolicy::disabled(), ::outbound_only(), or ::bidirectional()"@,
            ),
        ),
{
}

/// A profile starts with its version and the general permission.
pub proof fn profiles_start_open(policy: PolicyView, shape: SandboxCoarseNetworkPolicy)
    ensures
        profile_lines(policy, shape).len() >= 2,
        profile_lines(policy, shape)[0] == "(version 1)"@,
        profile_lines(policy, shape)[1] == "(allow default)"@,
{
}

proof fn lemma_line_counts(action: Seq<char>, paths: Seq<Seq<u8>>)
    ensures
        write_rules(action, paths).len() == 2 * paths.len(),
        deny_rules(paths).len() == 4 * paths.len(),
    decreases paths.len(),
{
    if paths.len() > 0 {
        lemma_line_counts(action, paths.drop_last());
    }
}

/// A profile has as many lines as its rules ask for: four for each denied path, and two for each
/// exception to its default.
pub proof fn profiles_hold_no_line_too_many(
    policy: PolicyView,
    shape: SandboxCoarseNetworkPolicy,
)
    ensures
        ({
            let rules = policy.path_permissions;
            let network: int = match shape {
                SandboxCoarseNetworkPolicy::Disabled => 1,
                SandboxCoarseNetworkPolicy::OutboundOnly => 2,
                SandboxCoarseNetworkPolicy::Bidirectional => 0,
            };
            let denied = 4 * paths_with(rules, set![SandboxPathAccess::Deny]).len();
            profile_lines(policy, shape).len() == 2 + network + denied
                + match policy.default_access {
                SandboxDefaultAccess::ReadOnly => 1 + 2 * paths_with(
                    rules,
                    set![SandboxPathAccess::ReadWrite],
                ).len(),
                SandboxDefaultAccess::ReadWrite => 2 * paths_with(
                    rules,
                    set![SandboxPathAccess::ReadOnly],
                ).len(),
            }
        }),
{
    let rules = policy.path_permissions;
    lemma_line_counts("deny"@, paths_with(rules, set![SandboxPathAccess::Deny]));
    lemma_line_counts("allow"@, paths_with(rules, set![SandboxPathAccess::ReadWrite]));
    lemma_line_counts("deny"@, paths_with(rules, set![SandboxPathAccess::ReadOnly]));
}

} // verus!
