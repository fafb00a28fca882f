//! Command lines as Windows programs take them apart.
use vstd::prelude::*;

use crate::text::{chars_of, join, join_texts, texts};

verus! {

/// An argument that has to be put in quotation marks.
pub open spec fn needs_quotes(arg: Seq<char>) -> bool {
    arg.len() == 0 || arg.contains(' ') || arg.contains('\t') || arg.contains('\n')
        || arg.contains('\r') || arg.contains('"')
}

/// A run of backslashes.
pub open spec fn backslashes(n: nat) -> Seq<char> {
    Seq::new(n, |i: int| '\\')
}

/// How many backslashes a text starts with.
pub open spec fn leading_backslashes(s: Seq<char>) -> nat
    decreases s.len(),
{
    if s.len() > 0 && s[0] == '\\' {
        1 + leading_backslashes(s.subrange(1, s.len() as int))
    } else {
        0
    }
}

/// What stands between the quotation marks: a run of backslashes is doubled in front of a
/// quotation mark, which gets one more, and at the end; every other one stays.
pub open spec fn quoted_body(s: Seq<char>) -> Seq<char>
    decreases s.len(),
    via quoted_body_shrinks
{
    let n = leading_backslashes(s);
    if s.len() == 0 {
        s
    } else if n == s.len() {
        backslashes(n + n)
    } else if s[n as int] == '"' {
        backslashes(n + n + 1) + seq!['"'] + quoted_body(s.subrange(n + 1int, s.len() as int))
    } else {
        backslashes(n) + seq![s[n as int]] + quoted_body(s.subrange(n + 1int, s.len() as int))
    }
}

#[via_fn]
proof fn quoted_body_shrinks(s: Seq<char>) {
    lemma_leading_backslashes(s);
}

/// An argument as it is written on a command line.
pub open spec fn quoted(arg: Seq<char>) -> Seq<char> {
    if needs_quotes(arg) {
        seq!['"'] + quoted_body(arg) + seq!['"']
    } else {
        arg
    }
}

/// The arguments as they are written on a command line.
pub open spec fn quoted_all(args: Seq<Seq<char>>) -> Seq<Seq<char>> {
    Seq::new(args.len(), |i: int| quoted(args[i]))
}

/// The command line of some arguments.
pub open spec fn command_line(args: Seq<Seq<char>>) -> Seq<char> {
    join(quoted_all(args), " "@)
}

proof fn lemma_leading_backslashes(s: Seq<char>)
    ensures
        leading_backslashes(s) <= s.len(),
        forall|i: int| 0 <= i < leading_backslashes(s) ==> s[i] == '\\',
        leading_backslashes(s) < s.len() ==> s[leading_backslashes(s) as int] != '\\',
    decreases s.len(),
{
    if s.len() > 0 && s[0] == '\\' {
        let rest = s.subrange(1, s.len() as int);
        lemma_leading_backslashes(rest);
        assert forall|i: int| 0 <= i < leading_backslashes(s) implies s[i] == '\\' by {
            if i > 0 {
                assert(rest[i - 1] == '\\');
            }
        }
        if leading_backslashes(s) < s.len() {
            assert(rest[leading_backslashes(rest) as int] == s[leading_backslashes(s) as int]);
        }
    }
}

proof fn lemma_leading_is(s: Seq<char>, n: nat)
    requires
        n <= s.len(),
        forall|i: int| 0 <= i < n ==> s[i] == '\\',
        n < s.len() ==> s[n as int] != '\\',
    ensures
        leading_backslashes(s) == n,
{
    lemma_leading_backslashes(s);
    if leading_backslashes(s) < n {
        assert(s[leading_backslashes(s) as int] == '\\');
    }
}

fn push_backslashes(out: &mut String, n: usize)
    ensures
        final(out)@ == old(out)@ + backslashes(n as nat),
{
    let ghost before = out@;
    assert(before =~= before + backslashes(0));
    for i in 0..n
        invariant
            out@ =~= before + backslashes(i as nat),
    {
        out.push('\\');
    }
}

fn must_quote(v: &Vec<char>) -> (r: bool)
    ensures
        r == needs_quotes(v@),
{
    if v.len() == 0 {
        return true;
    }
    for i in 0..v.len()
        invariant
            v.len() > 0,
            forall|j: int|
                0 <= j < i ==> v@[j] != ' ' && v@[j] != '\t' && v@[j] != '\n' && v@[j] != '\r'
                    && v@[j] != '"',
    {
        let c = v[i];
        if c == ' ' || c == '\t' || c == '\n' || c == '\r' || c == '"' {
            assert(v@[i as int] == c);
            assert(v@.contains(c));
            return true;
        }
    }
    false
}

/// An argument as it is written on a command line.
pub fn quote_windows_arg(arg: &str) -> (r: String)
    ensures
        r@ == quoted(arg@),
{
    let v = chars_of(arg);
    if !must_quote(&v) {
        return arg.to_owned();
    }
    let mut out = String::new();
    out.push('"');
    let ghost open = seq!['"'];
    let mut from: usize = 0;
    let mut i: usize = 0;
    assert(v@.subrange(0, v@.len() as int) =~= v@);
    assert(out@ + quoted_body(v@.subrange(0, v@.len() as int)) =~= open + quoted_body(v@));
    while i < v.len()
        invariant
            from <= i <= v.len(),
            forall|k: int| from <= k < i ==> v@[k] == '\\',
            out@ + quoted_body(v@.subrange(from as int, v@.len() as int)) == open + quoted_body(
                v@,
            ),
        decreases v.len() - i,
    {
        let c = v[i];
        if c != '\\' {
            let ghost rest = v@.subrange(from as int, v@.len() as int);
            let ghost next = v@.subrange(i + 1, v@.len() as int);
            let ghost before = out@;
            let n: usize = i - from;
            proof {
                assert forall|k: int| 0 <= k < n implies rest[k] == '\\' by {
                    assert(v@[from + k] == '\\');
                }
                assert(rest[n as int] == c);
                lemma_leading_is(rest, n as nat);
                assert(rest.subrange(n + 1, rest.len() as int) =~= next);
            }
            push_backslashes(&mut out, n);
            if c == '"' {
                push_backslashes(&mut out, n);
                out.push('\\');
                out.push('"');
                assert(backslashes(n as nat) + backslashes(n as nat) + seq!['\\']
                    =~= backslashes((n + n + 1) as nat));
                assert(out@ + quoted_body(next) =~= before + (backslashes((n + n + 1) as nat)
                    + seq!['"'] + quoted_body(next)));
            } else {
                out.push(c);
                assert(out@ + quoted_body(next) =~= before + (backslashes(n as nat) + seq![c]
                    + quoted_body(next)));
            }
            from = i + 1;
        }
        i = i + 1;
    }
    let n: usize = v.len() - from;
    proof {
        let rest = v@.subrange(from as int, v@.len() as int);
        assert forall|k: int| 0 <= k < n implies rest[k] == '\\' by {
            assert(v@[from + k] == '\\');
        }
        lemma_leading_is(rest, n as nat);
        assert(backslashes(n as nat) + backslashes(n as nat) =~= backslashes((n + n) as nat));
        if n == 0 {
            assert(rest =~= backslashes(0));
        }
        assert(quoted_body(rest) =~= backslashes((n + n) as nat));
    }
    let ghost before = out@;
    push_backslashes(&mut out, n);
    push_backslashes(&mut out, n);
    assert(out@ =~= before + backslashes((n + n) as nat));
    out.push('"');
    assert(out@ =~= open + quoted_body(arg@) + seq!['"']);
    out
}

/// The command line of some arguments.
pub fn join_command_line(args: &Vec<String>) -> (r: String)
    ensures
        r@ == command_line(texts(args@)),
{
    let mut parts: Vec<String> = Vec::new();
    for i in 0..args.len()
        invariant
            parts.len() == i,
            forall|j: int| 0 <= j < i ==> (#[trigger] parts@[j])@ == quoted(args@[j]@),
    {
        let part = quote_windows_arg(args[i].as_str());
        parts.push(part);
    }
    assert(texts(parts@) =~= quoted_all(texts(args@)));
    join_texts(&parts, " ")
}

/// How a Windows program reads one argument: backslashes count in pairs in front of a quotation
/// mark, an odd one makes the mark part of the argument, every other mark starts or ends a quoted
/// stretch, and a space or a tab outside such a stretch ends the argument. Gives the argument and
/// what follows it.
pub open spec fn read_arg(s: Seq<char>, in_quotes: bool) -> (Seq<char>, Seq<char>)
    decreases s.len(),
    via read_arg_shrinks
{
    let n = leading_backslashes(s);
    if s.len() == 0 {
        (s, s)
    } else if n < s.len() && s[n as int] == '"' {
        let after = s.subrange(n + 1int, s.len() as int);
        if n % 2 == 1 {
            let more = read_arg(after, in_quotes);
            (backslashes((n / 2) as nat) + seq!['"'] + more.0, more.1)
        } else {
            let more = read_arg(after, !in_quotes);
            (backslashes((n / 2) as nat) + more.0, more.1)
        }
    } else if n > 0 {
        let more = read_arg(s.subrange(n as int, s.len() as int), in_quotes);
        (backslashes(n) + more.0, more.1)
    } else if !in_quotes && (s[0] == ' ' || s[0] == '\t') {
        (Seq::empty(), s)
    } else {
        let more = read_arg(s.subrange(1, s.len() as int), in_quotes);
        (seq![s[0]] + more.0, more.1)
    }
}

#[via_fn]
proof fn read_arg_shrinks(s: Seq<char>, in_quotes: bool) {
    lemma_leading_backslashes(s);
}

/// What can follow an argument on a command line.
pub open spec fn ends_argument(tail: Seq<char>) -> bool {
    tail.len() == 0 || tail[0] == ' '
}

proof fn lemma_read_nothing(tail: Seq<char>)
    requires
        ends_argument(tail),
    ensures
        read_arg(tail, false) == (Seq::<char>::empty(), tail),
{
    lemma_leading_backslashes(tail);
    if tail.len() == 0 {
        assert(tail =~= Seq::empty());
    }
}

proof fn lemma_read_plain(arg: Seq<char>, tail: Seq<char>)
    requires
        !arg.contains(' '),
        !arg.contains('\t'),
        !arg.contains('"'),
        ends_argument(tail),
    ensures
        read_arg(arg + tail, false) == (arg, tail),
    decreases arg.len(),
{
    let s = arg + tail;
    if arg.len() == 0 {
        assert(s =~= tail);
        lemma_read_nothing(tail);
        assert(arg =~= Seq::empty());
    } else {
        let n = leading_backslashes(arg);
        lemma_leading_backslashes(arg);
        if n < arg.len() {
            assert(s[n as int] == arg[n as int]);
        } else if tail.len() > 0 {
            assert(s[n as int] == tail[0]);
        }
        assert forall|i: int| 0 <= i < n implies s[i] == '\\' by {
            assert(arg[i] == '\\');
        }
        lemma_leading_is(s, n);
        if n < arg.len() {
            assert(arg.contains(arg[n as int]));
        }
        let k: int = if n > 0 {
            n as int
        } else {
            1
        };
        let rest = arg.subrange(k, arg.len() as int);
        assert(s.subrange(k, s.len() as int) =~= rest + tail);
        assert forall|c: char| rest.contains(c) implies arg.contains(c) by {
            let i = choose|i: int| 0 <= i < rest.len() && rest[i] == c;
            assert(arg[i + k] == c);
        }
        lemma_read_plain(rest, tail);
        if n > 0 {
            assert(backslashes(n) + rest =~= arg);
        } else {
            assert(arg.contains(arg[0]));
            assert(seq![s[0]] + rest =~= arg);
        }
    }
}

proof fn lemma_read_quoted(arg: Seq<char>, tail: Seq<char>)
    requires
        ends_argument(tail),
    ensures
        read_arg(quoted_body(arg) + seq!['"'] + tail, true) == (arg, tail),
    decreases arg.len(),
{
    let s = quoted_body(arg) + seq!['"'] + tail;
    let n = leading_backslashes(arg);
    lemma_leading_backslashes(arg);
    if n == arg.len() {
        if arg.len() == 0 {
            assert(quoted_body(arg) =~= backslashes(0));
        }
        assert(quoted_body(arg) =~= backslashes(n + n));
        assert(s[(n + n) as int] == '"');
        lemma_leading_is(s, n + n);
        assert(s.subrange((n + n + 1) as int, s.len() as int) =~= tail);
        lemma_read_nothing(tail);
        assert((n + n) % 2 == 0 && (n + n) / 2 == n);
        assert(backslashes(n) + Seq::<char>::empty() =~= arg);
    } else {
        let rest = arg.subrange(n + 1int, arg.len() as int);
        let more = quoted_body(rest) + seq!['"'] + tail;
        lemma_read_quoted(rest, tail);
        if arg[n as int] == '"' {
            let m = n + n + 1;
            assert(quoted_body(arg) == backslashes(m) + seq!['"'] + quoted_body(rest));
            assert(s[m as int] == '"');
            lemma_leading_is(s, m);
            assert(s.subrange(m + 1int, s.len() as int) =~= more);
            assert(m % 2 == 1 && m / 2 == n);
            assert(backslashes(n) + seq!['"'] + rest =~= arg);
        } else {
            let c = arg[n as int];
            assert(quoted_body(arg) == backslashes(n) + seq![c] + quoted_body(rest));
            assert(s[n as int] == c);
            lemma_leading_is(s, n);
            let t = seq![c] + more;
            assert(s.subrange(n as int, s.len() as int) =~= t);
            lemma_leading_is(t, 0);
            assert(t.subrange(1, t.len() as int) =~= more);
            assert(read_arg(t, true) == (seq![c] + rest, tail));
            if n > 0 {
                assert(backslashes(n) + (seq![c] + rest) =~= arg);
            } else {
                assert(s =~= t);
                assert(seq![c] + rest =~= arg);
            }
        }
    }
}

/// A written argument is read back as it was, and the reading stops where it ends.
pub proof fn quoting_can_be_undone(arg: Seq<char>, tail: Seq<char>)
    requires
        ends_argument(tail),
    ensures
        read_arg(quoted(arg) + tail, false) == (arg, tail),
{
    if needs_quotes(arg) {
        let s = quoted(arg) + tail;
        let inner = quoted_body(arg) + seq!['"'] + tail;
        assert(s =~= seq!['"'] + inner);
        lemma_leading_is(s, 0);
        assert(s.subrange(1, s.len() as int) =~= inner);
        lemma_read_quoted(arg, tail);
        assert(backslashes(0) + arg =~= arg);
    } else {
        lemma_read_plain(arg, tail);
    }
}

/// How a Windows program reads a command line that holds `count` arguments, each two separated by
/// one space.
pub open spec fn read_args(s: Seq<char>, count: nat) -> Seq<Seq<char>>
    decreases count,
{
    if count == 0 {
        Seq::empty()
    } else {
        let (arg, rest) = read_arg(s, false);
        let next = if rest.len() > 0 {
            rest.subrange(1, rest.len() as int)
        } else {
            rest
        };
        seq![arg] + read_args(next, (count - 1) as nat)
    }
}

proof fn lemma_join_from_left(parts: Seq<Seq<char>>, sep: Seq<char>)
    requires
        parts.len() >= 2,
    ensures
        join(parts, sep) == parts[0] + sep + join(parts.subrange(1, parts.len() as int), sep),
    decreases parts.len(),
{
    let rest = parts.subrange(1, parts.len() as int);
    if parts.len() == 2 {
        assert(parts.drop_last() =~= seq![parts[0]]);
        assert(join(parts.drop_last(), sep) == parts[0]);
        assert(join(rest, sep) == parts[1]);
    } else {
        lemma_join_from_left(parts.drop_last(), sep);
        assert(parts.drop_last().subrange(1, parts.len() - 1) =~= rest.drop_last());
        assert(join(parts, sep) =~= parts[0] + sep + join(rest, sep));
    }
}

/// A command line is read back as the arguments that it was made of.
pub proof fn command_line_can_be_read_back(args: Seq<Seq<char>>)
    ensures
        read_args(command_line(args), args.len()) == args,
    decreases args.len(),
{
    if args.len() == 0 {
        assert(read_args(command_line(args), 0) =~= args);
    } else {
        let rest = args.subrange(1, args.len() as int);
        let parts = quoted_all(args);
        command_line_can_be_read_back(rest);
        reveal_strlit(" ");
        assert(" "@ =~= seq![' ']);
        assert(parts.subrange(1, parts.len() as int) =~= quoted_all(rest));
        if args.len() == 1 {
            assert(command_line(args) =~= quoted(args[0]) + Seq::<char>::empty());
            quoting_can_be_undone(args[0], Seq::empty());
            assert(rest =~= Seq::empty());
            assert(seq![args[0]] + rest =~= args);
        } else {
            let tail = " "@ + command_line(rest);
            lemma_join_from_left(parts, " "@);
            assert(command_line(args) =~= quoted(args[0]) + tail);
            quoting_can_be_undone(args[0], tail);
            assert(tail.subrange(1, tail.len() as int) =~= command_line(rest));
            assert(seq![args[0]] + rest =~= args);
        }
    }
}

/// A word is quoted exactly where it is empty or holds a blank, a line break or a quotation mark; any
/// other stays as it is.
pub proof fn only_special_words_are_quoted(arg: Seq<char>)
    ensures
        arg.len() > 0 && !arg.contains(' ') && !arg.contains('\t') && !arg.contains('\n')
            && !arg.contains('\r') && !arg.contains('"') ==> quoted(arg) == arg,
        arg.len() == 0 || arg.contains(' ') || arg.contains('\t') || arg.contains('\n')
            || arg.contains('\r') || arg.contains('"') ==> quoted(arg).len() >= 2 && quoted(arg)[0]
            == '"' && quoted(arg).last() == '"',
{
}

} // verus!
