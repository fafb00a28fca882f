//! An environment in the form in which Windows takes it.
use vstd::prelude::*;

use crate::bytes::{
    comes_before, dictionary_less, dictionary_order_is_total, dictionary_order_is_transitive,
    same_numbers,
};
use crate::env::{
    distinct_keys, entry_views, lemma_map_insert, lemma_map_of, map_of, EnvEntry, EnvMap,
};
use crate::text::{
    char_numbers, chars_of, lemma_char_numbers_exact, numbers_of, same_ignoring_case, texts,
    to_upper, upper,
};
use crate::windows::environment::{get_env_case_insensitive, has_variable};

verus! {

/// The order of variables in a block: by their names in capitals, and then by their names.
pub open spec fn named_before(a: Seq<char>, b: Seq<char>) -> bool {
    dictionary_less(char_numbers(upper(a)), char_numbers(upper(b))) || (char_numbers(upper(a))
        == char_numbers(upper(b)) && dictionary_less(char_numbers(a), char_numbers(b)))
}

/// Variables in strictly ascending order.
pub open spec fn is_in_block_order(v: Seq<(Seq<char>, Seq<char>)>) -> bool {
    forall|i: int, j: int|
        0 <= i < j < v.len() ==> named_before((#[trigger] v[i]).0, (#[trigger] v[j]).0)
}

/// One character in UTF-16.
pub open spec fn utf16_char(c: char) -> Seq<u16> {
    if (c as u32) < 0x10000 {
        seq![(c as u32) as u16]
    } else {
        seq![
            (0xd800 + (c as u32 - 0x10000) / 0x400) as u16,
            (0xdc00 + (c as u32 - 0x10000) % 0x400) as u16,
        ]
    }
}

/// A text in UTF-16.
pub open spec fn utf16(s: Seq<char>) -> Seq<u16>
    decreases s.len(),
{
    if s.len() == 0 {
        Seq::empty()
    } else {
        utf16(s.drop_last()) + utf16_char(s.last())
    }
}

/// The variables of a block one after the other, each as name, `=` and value and ended by a zero.
pub open spec fn block_entries(v: Seq<(Seq<char>, Seq<char>)>) -> Seq<u16>
    decreases v.len(),
{
    if v.len() == 0 {
        Seq::empty()
    } else {
        (block_entries(v.drop_last()) + utf16(v.last().0 + "="@ + v.last().1)).push(0)
    }
}

/// A whole block: the variables and a zero, and for no variables two zeros.
pub open spec fn block_of(v: Seq<(Seq<char>, Seq<char>)>) -> Seq<u16> {
    if v.len() == 0 {
        seq![0u16, 0u16]
    } else {
        block_entries(v).push(0)
    }
}

/// `v` is an environment's variables in the order of a block.
pub open spec fn lists(env: Map<Seq<char>, Seq<char>>, v: Seq<(Seq<char>, Seq<char>)>) -> bool {
    &&& is_in_block_order(v)
    &&& distinct_keys(v)
    &&& map_of(v) == env
}

fn goes_before(a: &str, b: &str) -> (r: bool)
    ensures
        r == named_before(a@, b@),
{
    let x = numbers_of(to_upper(a).as_str());
    let y = numbers_of(to_upper(b).as_str());
    if comes_before(&x, &y) {
        return true;
    }
    same_numbers(&x, &y) && comes_before(&numbers_of(a), &numbers_of(b))
}

/// Of two different names exactly one comes first.
pub proof fn name_order_is_total(a: Seq<char>, b: Seq<char>)
    ensures
        !(named_before(a, b) && named_before(b, a)),
        a != b ==> named_before(a, b) || named_before(b, a),
        a == b ==> !named_before(a, b),
{
    dictionary_order_is_total(char_numbers(upper(a)), char_numbers(upper(b)));
    dictionary_order_is_total(char_numbers(a), char_numbers(b));
    if char_numbers(a) == char_numbers(b) {
        lemma_char_numbers_exact(a, b);
    }
}

proof fn lemma_name_order_chains(a: Seq<char>, b: Seq<char>, c: Seq<char>)
    requires
        named_before(a, b),
        named_before(b, c),
    ensures
        named_before(a, c),
{
    let (ua, ub, uc) = (char_numbers(upper(a)), char_numbers(upper(b)), char_numbers(upper(c)));
    if dictionary_less(ua, ub) && dictionary_less(ub, uc) {
        dictionary_order_is_transitive(ua, ub, uc);
    } else if ua == ub && ub == uc {
        dictionary_order_is_transitive(char_numbers(a), char_numbers(b), char_numbers(c));
    }
}

proof fn lemma_insert(v: Seq<(Seq<char>, Seq<char>)>, at: int, x: (Seq<char>, Seq<char>))
    requires
        is_in_block_order(v),
        distinct_keys(v),
        0 <= at <= v.len(),
        forall|i: int| 0 <= i < at ==> named_before((#[trigger] v[i]).0, x.0),
        forall|i: int| at <= i < v.len() ==> named_before(x.0, (#[trigger] v[i]).0),
    ensures
        is_in_block_order(v.insert(at, x)),
        distinct_keys(v.insert(at, x)),
        map_of(v.insert(at, x)) == map_of(v).insert(x.0, x.1),
{
    let w = v.insert(at, x);
    assert forall|i: int, j: int| 0 <= i < j < w.len() implies named_before(
        (#[trigger] w[i]).0,
        (#[trigger] w[j]).0,
    ) by {
        if i < at && j < at {
            assert(named_before(v[i].0, v[j].0));
        } else if i < at && j > at {
            assert(named_before(v[i].0, v[j - 1].0));
        } else if i > at {
            assert(named_before(v[i - 1].0, v[j - 1].0));
        }
    }
    assert forall|i: int, j: int| 0 <= i < j < w.len() implies w[i].0 != w[j].0 by {
        assert(named_before(w[i].0, w[j].0));
        name_order_is_total(w[i].0, w[j].0);
    }
    lemma_map_insert(v, at, x);
}

fn sorted_entries(env: &EnvMap) -> (r: Vec<EnvEntry>)
    ensures
        lists(env@, entry_views(r@)),
{
    let source = env.entries();
    let ghost all = entry_views(source@);
    let mut r: Vec<EnvEntry> = Vec::new();
    assert(entry_views(r@) =~= all.take(0));
    for i in 0..source.len()
        invariant
            all == entry_views(source@),
            distinct_keys(all),
            is_in_block_order(entry_views(r@)),
            distinct_keys(entry_views(r@)),
            map_of(entry_views(r@)) == map_of(all.take(i as int)),
    {
        let x = source[i].clone();
        let ghost v = entry_views(r@);
        proof {
            assert(all.take(i + 1).drop_last() =~= all.take(i as int));
            assert(all.take(i + 1).last() == x@);
            assert(distinct_keys(all.take(i as int)));
            lemma_map_of(all.take(i as int));
            lemma_map_of(v);
            assert forall|k: int| 0 <= k < v.len() implies (#[trigger] v[k]).0 != x@.0 by {
                assert(map_of(v).dom().contains(v[k].0));
                let j = choose|j: int|
                    0 <= j < all.take(i as int).len() && all.take(i as int)[j].0 == v[k].0;
                assert(all[j].0 != all[i as int].0);
            }
        }
        let mut at: usize = 0;
        while at < r.len() && goes_before(r[at].key.as_str(), x.key.as_str())
            invariant
                at <= r.len(),
                v == entry_views(r@),
                forall|k: int| 0 <= k < at ==> named_before((#[trigger] v[k]).0, x@.0),
            decreases r.len() - at,
        {
            assert(v[at as int] == r@[at as int]@);
            at = at + 1;
        }
        proof {
            assert forall|k: int| at <= k < v.len() implies named_before(
                x@.0,
                (#[trigger] v[k]).0,
            ) by {
                assert(v[at as int] == r@[at as int]@);
                name_order_is_total(v[at as int].0, x@.0);
                if k > at {
                    assert(named_before(v[at as int].0, v[k].0));
                    lemma_name_order_chains(x@.0, v[at as int].0, v[k].0);
                }
            }
            lemma_insert(v, at as int, x@);
        }
        let ghost new = x@;
        r.insert(at, x);
        assert(entry_views(r@) =~= v.insert(at as int, new));
    }
    assert(all.take(all.len() as int) =~= all);
    r
}

fn push_utf16(out: &mut Vec<u16>, s: &str)
    ensures
        final(out)@ == old(out)@ + utf16(s@),
{
    let v = chars_of(s);
    let ghost before = out@;
    assert(before =~= before + utf16(v@.take(0)));
    for i in 0..v.len()
        invariant
            v@ == s@,
            out@ == before + utf16(v@.take(i as int)),
    {
        proof {
            assert(v@.take(i + 1).drop_last() =~= v@.take(i as int));
            assert(v@.take(i + 1).last() == v@[i as int]);
        }
        let ghost front = utf16(v@.take(i as int));
        let n: u32 = v[i] as u32;
        if n < 0x10000 {
            out.push(n as u16);
        } else {
            let rest: u32 = n - 0x10000;
            out.push((0xd800 + rest / 0x400) as u16);
            out.push((0xdc00 + rest % 0x400) as u16);
        }
        assert(out@ =~= before + (front + utf16_char(v@[i as int])));
    }
    assert(v@.take(v.len() as int) =~= v@);
}

/// The block of an environment. Its variables stand in the order of their names.
pub fn make_env_block(env: &EnvMap) -> (r: Vec<u16>)
    ensures
        exists|v: Seq<(Seq<char>, Seq<char>)>| #[trigger] lists(env@, v) && r@ == block_of(v),
{
    let entries = sorted_entries(env);
    let ghost v = entry_views(entries@);
    let mut out: Vec<u16> = Vec::new();
    assert(out@ =~= block_entries(v.take(0)));
    for i in 0..entries.len()
        invariant
            v == entry_views(entries@),
            out@ == block_entries(v.take(i as int)),
    {
        proof {
            assert(v.take(i + 1).drop_last() =~= v.take(i as int));
            assert(v.take(i + 1).last() == entries@[i as int]@);
        }
        let mut text = entries[i].key.clone();
        vstd::string::StringExecFns::append(&mut text, "=");
        vstd::string::StringExecFns::append(&mut text, entries[i].value.as_str());
        push_utf16(&mut out, text.as_str());
        out.push(0);
    }
    assert(v.take(v.len() as int) =~= v);
    out.push(0);
    if entries.len() == 0 {
        out.push(0);
        assert(out@ =~= seq![0u16, 0u16]);
    }
    assert(lists(env@, v));
    out
}

/// The variables that a process needs; where they are missing they are taken from the parent.
pub open spec fn required_variables() -> Seq<Seq<char>> {
    seq![
        "SystemRoot"@,
        "WINDIR"@,
        "PATH"@,
        "PATHEXT"@,
        "TEMP"@,
        "TMP"@,
        "COMSPEC"@,
        "USERPROFILE"@,
        "APPDATA"@,
        "LOCALAPPDATA"@,
    ]
}

/// The names of the variables that a process needs.
pub fn required_variable_names() -> (r: Vec<String>)
    ensures
        texts(r@) == required_variables(),
{
    let mut r: Vec<String> = Vec::new();
    r.push("SystemRoot".to_owned());
    r.push("WINDIR".to_owned());
    r.push("PATH".to_owned());
    r.push("PATHEXT".to_owned());
    r.push("TEMP".to_owned());
    r.push("TMP".to_owned());
    r.push("COMSPEC".to_owned());
    r.push("USERPROFILE".to_owned());
    r.push("APPDATA".to_owned());
    r.push("LOCALAPPDATA".to_owned());
    assert(texts(r@) =~= required_variables());
    r
}

/// The values of a list of optional texts.
pub open spec fn optional_texts(v: Seq<Option<String>>) -> Seq<Option<Seq<char>>> {
    Seq::new(
        v.len(),
        |i: int|
            match v[i] {
                Some(s) => Some(s@),
                None => None,
            },
    )
}

/// The environment with each variable that it lacks, whatever the case of its name, taken from
/// the parent where it is set there.
pub open spec fn with_required(
    env: Map<Seq<char>, Seq<char>>,
    names: Seq<Seq<char>>,
    parent: Seq<Option<Seq<char>>>,
) -> Map<Seq<char>, Seq<char>>
    decreases names.len(),
{
    if names.len() == 0 {
        env
    } else {
        let e = with_required(env, names.drop_last(), parent.drop_last());
        match parent.last() {
            Some(value) => if has_variable(e, names.last()) {
                e
            } else {
                e.insert(names.last(), value)
            },
            None => e,
        }
    }
}

/// Adds what a process needs to an environment. `parent` holds what the parent has for each of
/// the names.
pub fn merge_required(env: &EnvMap, names: &Vec<String>, parent: &Vec<Option<String>>) -> (r:
    EnvMap)
    requires
        names.len() == parent.len(),
    ensures
        r@ == with_required(env@, texts(names@), optional_texts(parent@)),
{
    let mut out = env.clone();
    let ghost ns = texts(names@);
    let ghost ps = optional_texts(parent@);
    for i in 0..names.len()
        invariant
            names.len() == parent.len(),
            ns == texts(names@),
            ps == optional_texts(parent@),
            out@ == with_required(env@, ns.take(i as int), ps.take(i as int)),
    {
        proof {
            assert(ns.take(i + 1).drop_last() =~= ns.take(i as int));
            assert(ps.take(i + 1).drop_last() =~= ps.take(i as int));
            assert(ns.take(i + 1).last() == names@[i as int]@);
            assert(ps.take(i + 1).last() == ps[i as int]);
        }
        match &parent[i] {
            Some(value) => {
                if get_env_case_insensitive(&out, names[i].as_str()).is_none() {
                    out.insert(names[i].clone(), value.clone());
                }
            },
            None => {},
        }
    }
    assert(ns.take(ns.len() as int) =~= ns);
    assert(ps.take(ps.len() as int) =~= ps);
    out
}

/// The block that a process is started with: its environment, and of the ten variables that a
/// process needs those that the environment lacks and the parent has. Nothing else of the parent's
/// environment is handed on: where there are no variables at all, the block is the empty one.
pub fn environment_block_for_create_process(
    env: &EnvMap,
    names: &Vec<String>,
    parent: &Vec<Option<String>>,
) -> (r: Vec<u16>)
    requires
        names.len() == parent.len(),
    ensures
        exists|v: Seq<(Seq<char>, Seq<char>)>| #[trigger]
            lists(with_required(env@, texts(names@), optional_texts(parent@)), v) && r@ == block_of(
                v,
            ),
{
    let merged = merge_required(env, names, parent);
    make_env_block(&merged)
}

proof fn lemma_same_entries(
    a: Seq<(Seq<char>, Seq<char>)>,
    b: Seq<(Seq<char>, Seq<char>)>,
)
    requires
        is_in_block_order(a),
        is_in_block_order(b),
        forall|x: (Seq<char>, Seq<char>)| a.contains(x) <==> b.contains(x),
    ensures
        a == b,
    decreases a.len(),
{
    if a.len() == 0 {
        if b.len() > 0 {
            assert(b.contains(b[0]));
            assert(a.contains(b[0]));
        }
        assert(a =~= b);
    } else {
        assert(a.contains(a.last()));
        let k = choose|k: int| 0 <= k < b.len() && b[k] == a.last();
        assert(b.contains(b.last()));
        let l = choose|l: int| 0 <= l < a.len() && a[l] == b.last();
        if a.last() != b.last() {
            assert(named_before(b[k].0, b[b.len() - 1].0));
            assert(named_before(a[l].0, a[a.len() - 1].0));
            name_order_is_total(a.last().0, b.last().0);
        }
        lemma_rest(a);
        lemma_rest(b);
        lemma_same_entries(a.drop_last(), b.drop_last());
        assert(a =~= a.drop_last().push(a.last()));
        assert(b =~= b.drop_last().push(b.last()));
    }
}

proof fn lemma_rest(a: Seq<(Seq<char>, Seq<char>)>)
    requires
        is_in_block_order(a),
        a.len() > 0,
    ensures
        is_in_block_order(a.drop_last()),
        forall|x: (Seq<char>, Seq<char>)| #[trigger]
            a.drop_last().contains(x) <==> a.contains(x) && x != a.last(),
{
    let f = a.drop_last();
    assert forall|i: int, j: int| 0 <= i < j < f.len() implies named_before(
        (#[trigger] f[i]).0,
        (#[trigger] f[j]).0,
    ) by {
        assert(named_before(a[i].0, a[j].0));
    }
    assert forall|x: (Seq<char>, Seq<char>)| #[trigger]
        f.contains(x) <==> a.contains(x) && x != a.last() by {
        if f.contains(x) {
            let i = choose|i: int| 0 <= i < f.len() && f[i] == x;
            assert(a[i] == x);
            assert(named_before(a[i].0, a[a.len() - 1].0));
            name_order_is_total(x.0, x.0);
        }
        if a.contains(x) && x != a.last() {
            let i = choose|i: int| 0 <= i < a.len() && a[i] == x;
            assert(f[i] == x);
        }
    }
}

/// An environment has one block and no other.
pub proof fn environment_has_one_block(
    env: Map<Seq<char>, Seq<char>>,
    a: Seq<(Seq<char>, Seq<char>)>,
    b: Seq<(Seq<char>, Seq<char>)>,
)
    requires
        lists(env, a),
        lists(env, b),
    ensures
        a == b,
        block_of(a) == block_of(b),
{
    lemma_map_of(a);
    lemma_map_of(b);
    assert forall|x: (Seq<char>, Seq<char>)| a.contains(x) <==> b.contains(x) by {
        if a.contains(x) {
            let i = choose|i: int| 0 <= i < a.len() && a[i] == x;
            assert(map_of(b).dom().contains(a[i].0));
            let j = choose|j: int| 0 <= j < b.len() && b[j].0 == x.0;
            assert(map_of(b)[b[j].0] == b[j].1);
            assert(map_of(a)[a[i].0] == a[i].1);
            assert(b[j] == x);
        }
        if b.contains(x) {
            let i = choose|i: int| 0 <= i < b.len() && b[i] == x;
            assert(map_of(a).dom().contains(b[i].0));
            let j = choose|j: int| 0 <= j < a.len() && a[j].0 == x.0;
            assert(map_of(a)[a[j].0] == a[j].1);
            assert(map_of(b)[b[i].0] == b[i].1);
            assert(a[j] == x);
        }
    }
    lemma_same_entries(a, b);
}

proof fn lemma_utf16_char_is_exact(a: char, b: char)
    requires
        utf16_char(a).last() == utf16_char(b).last(),
        utf16_char(a).len() == 2 && utf16_char(b).len() == 2 ==> utf16_char(a)[0]
            == utf16_char(b)[0],
    ensures
        a == b,
{
    let m = a as u32;
    let n = b as u32;
    vstd::utf8::char_is_scalar(a);
    vstd::utf8::char_is_scalar(b);
    vstd::utf8::char_u32_cast(a, m);
    vstd::utf8::char_u32_cast(b, n);
    if m >= 0x10000 && n >= 0x10000 {
        assert(m - 0x10000 == (m - 0x10000) / 0x400 * 0x400 + (m - 0x10000) % 0x400);
        assert(n - 0x10000 == (n - 0x10000) / 0x400 * 0x400 + (n - 0x10000) % 0x400);
    }
}

proof fn lemma_utf16_is_exact(a: Seq<char>, b: Seq<char>)
    requires
        utf16(a) == utf16(b),
    ensures
        a == b,
    decreases a.len(),
{
    let k = utf16(a);
    if a.len() > 0 && b.len() > 0 {
        let (ua, ub) = (utf16_char(a.last()), utf16_char(b.last()));
        let (fa, fb) = (utf16(a.drop_last()), utf16(b.drop_last()));
        assert(k == fa + ua && k == fb + ub);
        assert(k.last() == ua.last() && k.last() == ub.last());
        if ua.len() == 2 && ub.len() == 2 {
            assert(k[k.len() - 2] == ua[0] && k[k.len() - 2] == ub[0]);
        }
        lemma_utf16_char_is_exact(a.last(), b.last());
        assert(fa =~= k.take(k.len() - ua.len()));
        assert(fb =~= k.take(k.len() - ub.len()));
        lemma_utf16_is_exact(a.drop_last(), b.drop_last());
        assert(a =~= a.drop_last().push(a.last()));
        assert(b =~= b.drop_last().push(b.last()));
    } else if a.len() > 0 {
        assert(k == utf16(a.drop_last()) + utf16_char(a.last()));
        assert(utf16(b).len() == 0);
    } else if b.len() > 0 {
        assert(k == utf16(b.drop_last()) + utf16_char(b.last()));
        assert(utf16(a).len() == 0);
    } else {
        assert(a =~= b);
    }
}

proof fn lemma_utf16_holds_no_zero(s: Seq<char>)
    requires
        !s.contains('\0'),
    ensures
        forall|i: int| 0 <= i < utf16(s).len() ==> #[trigger] utf16(s)[i] != 0,
    decreases s.len(),
{
    if s.len() > 0 {
        let f = s.drop_last();
        assert(!f.contains('\0')) by {
            if f.contains('\0') {
                let i = choose|i: int| 0 <= i < f.len() && f[i] == '\0';
                assert(s[i] == '\0');
            }
        }
        lemma_utf16_holds_no_zero(f);
        let c = s.last();
        assert(s.contains(c));
        vstd::utf8::char_u32_cast(c, c as u32);
        vstd::utf8::char_is_scalar(c);
        assert forall|i: int| 0 <= i < utf16(s).len() implies #[trigger] utf16(s)[i] != 0 by {
            if i < utf16(f).len() {
                assert(utf16(s)[i] == utf16(f)[i]);
            } else {
                assert(utf16(s)[i] == utf16_char(c)[i - utf16(f).len()]);
            }
        }
    }
}

/// A variable that a block can hold: its name and its value hold no zero, and its name no `=`.
pub open spec fn is_writable_variable(x: (Seq<char>, Seq<char>)) -> bool {
    !x.0.contains('\0') && !x.1.contains('\0') && !x.0.contains('=')
}

/// The text of a variable in a block.
pub open spec fn variable_text(x: (Seq<char>, Seq<char>)) -> Seq<char> {
    x.0 + "="@ + x.1
}

proof fn lemma_variable_text_is_exact(x: (Seq<char>, Seq<char>), y: (Seq<char>, Seq<char>))
    requires
        is_writable_variable(x),
        is_writable_variable(y),
        variable_text(x) == variable_text(y),
    ensures
        x == y,
        !variable_text(x).contains('\0'),
        variable_text(x).len() > 0,
{
    reveal_strlit("=");
    let t = variable_text(x);
    let m = x.0.len() as int;
    let n = y.0.len() as int;
    assert(t[m] == '=' && t[n] == '=');
    if m < n {
        assert(t[m] == y.0[m]);
        assert(y.0.contains('='));
    }
    if n < m {
        assert(t[n] == x.0[n]);
        assert(x.0.contains('='));
    }
    assert(x.0 =~= t.take(m) && y.0 =~= t.take(m));
    assert(x.1 =~= t.subrange(m + 1, t.len() as int) && y.1 =~= t.subrange(m + 1, t.len() as int));
    if t.contains('\0') {
        let i = choose|i: int| 0 <= i < t.len() && t[i] == '\0';
        if i < m {
            assert(x.0[i] == '\0');
        } else if i > m {
            assert(x.1[i - m - 1] == '\0');
        }
    }
}

proof fn lemma_last_entry_is_not_longer(
    fa: Seq<u16>,
    ta: Seq<u16>,
    fb: Seq<u16>,
    tb: Seq<u16>,
)
    requires
        fa + ta == fb + tb,
        fa.len() > 0 ==> fa.last() == 0,
        forall|i: int| 0 <= i < tb.len() ==> #[trigger] tb[i] != 0,
    ensures
        tb.len() <= ta.len(),
{
    let k = fa + ta;
    if ta.len() < tb.len() {
        let i = tb.len() - ta.len() - 1;
        assert(k.len() == fa.len() + ta.len());
        assert(k.len() == fb.len() + tb.len());
        assert(k[fa.len() - 1] == fa.last());
        assert((fb + tb)[fb.len() + i] == tb[i]);
    }
}

proof fn lemma_last_entry_is_exact(fa: Seq<u16>, ta: Seq<u16>, fb: Seq<u16>, tb: Seq<u16>)
    requires
        (fa + ta).push(0) == (fb + tb).push(0),
        fa.len() > 0 ==> fa.last() == 0,
        fb.len() > 0 ==> fb.last() == 0,
        forall|i: int| 0 <= i < ta.len() ==> #[trigger] ta[i] != 0,
        forall|i: int| 0 <= i < tb.len() ==> #[trigger] tb[i] != 0,
    ensures
        fa == fb,
        ta == tb,
{
    let k = fa + ta;
    assert((fa + ta).push(0).drop_last() =~= fa + ta);
    assert((fb + tb).push(0).drop_last() =~= fb + tb);
    lemma_last_entry_is_not_longer(fa, ta, fb, tb);
    lemma_last_entry_is_not_longer(fb, tb, fa, ta);
    let n = fa.len() as int;
    assert(k.len() == n + ta.len());
    assert(k.len() == fb.len() + tb.len());
    assert(fa =~= k.take(n));
    assert(fb =~= k.take(n));
    assert(ta =~= k.subrange(n, k.len() as int));
    assert(tb =~= k.subrange(n, k.len() as int));
}

proof fn lemma_block_entries_are_exact(
    a: Seq<(Seq<char>, Seq<char>)>,
    b: Seq<(Seq<char>, Seq<char>)>,
)
    requires
        forall|i: int| 0 <= i < a.len() ==> is_writable_variable(#[trigger] a[i]),
        forall|i: int| 0 <= i < b.len() ==> is_writable_variable(#[trigger] b[i]),
        block_entries(a) == block_entries(b),
    ensures
        a == b,
    decreases a.len(),
{
    let k = block_entries(a);
    if a.len() > 0 && b.len() > 0 {
        let (x, y) = (a.last(), b.last());
        let (ta, tb) = (utf16(variable_text(x)), utf16(variable_text(y)));
        let (fa, fb) = (block_entries(a.drop_last()), block_entries(b.drop_last()));
        assert(is_writable_variable(a[a.len() - 1]) && is_writable_variable(b[b.len() - 1]));
        lemma_variable_text_is_exact(x, x);
        lemma_variable_text_is_exact(y, y);
        lemma_utf16_holds_no_zero(variable_text(x));
        lemma_utf16_holds_no_zero(variable_text(y));
        assert(k == (fa + ta).push(0));
        assert(k == (fb + tb).push(0));
        lemma_last_entry_is_exact(fa, ta, fb, tb);
        lemma_utf16_is_exact(variable_text(x), variable_text(y));
        lemma_variable_text_is_exact(x, y);
        assert forall|i: int| 0 <= i < a.drop_last().len() implies is_writable_variable(
            #[trigger] a.drop_last()[i],
        ) by {
            assert(is_writable_variable(a[i]));
        }
        assert forall|i: int| 0 <= i < b.drop_last().len() implies is_writable_variable(
            #[trigger] b.drop_last()[i],
        ) by {
            assert(is_writable_variable(b[i]));
        }
        lemma_block_entries_are_exact(a.drop_last(), b.drop_last());
        assert(a =~= a.drop_last().push(x));
        assert(b =~= b.drop_last().push(y));
    } else if a.len() > 0 {
        assert(k.last() == 0 && block_entries(b).len() == 0);
    } else if b.len() > 0 {
        assert(block_entries(b).last() == 0 && k.len() == 0);
    } else {
        assert(a =~= b);
    }
}

/// A block says which environment it was made of, where no name or value holds a zero and no name
/// holds `=`.
pub proof fn equal_blocks_mean_equal_environments(
    x: Map<Seq<char>, Seq<char>>,
    y: Map<Seq<char>, Seq<char>>,
    a: Seq<(Seq<char>, Seq<char>)>,
    b: Seq<(Seq<char>, Seq<char>)>,
)
    requires
        lists(x, a),
        lists(y, b),
        forall|i: int| 0 <= i < a.len() ==> is_writable_variable(#[trigger] a[i]),
        forall|i: int| 0 <= i < b.len() ==> is_writable_variable(#[trigger] b[i]),
        block_of(a) == block_of(b),
    ensures
        x == y,
{
    if a.len() > 0 && b.len() > 0 {
        assert(block_entries(a) =~= block_of(a).drop_last());
        assert(block_entries(b) =~= block_of(b).drop_last());
        lemma_block_entries_are_exact(a, b);
    } else if a.len() > 0 {
        lemma_block_is_longer(a);
    } else if b.len() > 0 {
        lemma_block_is_longer(b);
    } else {
        assert(a =~= b);
    }
}

proof fn lemma_block_is_longer(v: Seq<(Seq<char>, Seq<char>)>)
    requires
        v.len() > 0,
    ensures
        block_of(v).len() > 2,
{
    let t = variable_text(v.last());
    reveal_strlit("=");
    assert(t.len() > 0);
    assert(utf16_char(t.last()).len() > 0);
    assert(utf16(t).len() > 0);
}

/// A character is one unit of its own number, or a pair of surrogates whose numbers make up its own.
pub proof fn units_write_their_character(c: char)
    ensures
        ({
            let units = utf16_char(c);
            let n = c as int;
            &&& n < 0x10000 ==> units.len() == 1 && units[0] == n
            &&& n >= 0x10000 ==> {
                &&& units.len() == 2
                &&& 0xd800 <= units[0] < 0xdc00
                &&& 0xdc00 <= units[1] < 0xe000
                &&& (units[0] - 0xd800) * 0x400 + (units[1] - 0xdc00) + 0x10000 == n
            }
        }),
{
    let n = c as int;
    if n >= 0x10000 {
        let m = n - 0x10000;
        assert(m / 0x400 < 0x400) by (nonlinear_arith)
            requires
                m < 0x100000,
        ;
    }
}

/// A text is written character by character.
pub proof fn texts_are_written_character_by_character(a: Seq<char>, b: Seq<char>, c: char)
    ensures
        utf16(a + b) == utf16(a) + utf16(b),
        utf16(seq![c]) == utf16_char(c),
    decreases b.len(),
{
    let one = seq![c];
    assert(one.drop_last() =~= Seq::empty());
    assert(utf16(one.drop_last()) =~= Seq::empty());
    assert(utf16(one) =~= utf16_char(c));
    if b.len() == 0 {
        assert(a + b =~= a);
        assert(utf16(a) + utf16(b) =~= utf16(a));
    } else {
        let f = b.drop_last();
        texts_are_written_character_by_character(a, f, c);
        assert((a + b).drop_last() =~= a + f);
        assert((a + b).last() == b.last());
        assert(utf16(a + b) =~= utf16(a) + utf16(b));
    }
}

/// A block is written variable by variable, each as its name, an equals sign and its value, with a
/// zero behind it; one more zero ends the block, and a block without variables is two of them.
pub proof fn blocks_are_written_variable_by_variable(
    a: Seq<(Seq<char>, Seq<char>)>,
    b: Seq<(Seq<char>, Seq<char>)>,
    x: (Seq<char>, Seq<char>),
)
    ensures
        block_entries(a + b) == block_entries(a) + block_entries(b),
        block_entries(seq![x]) == utf16(x.0) + seq![0x3du16] + utf16(x.1) + seq![0u16],
        a.len() > 0 ==> block_of(a) == block_entries(a) + seq![0u16],
        block_of(Seq::empty()) == seq![0u16, 0u16],
    decreases b.len(),
{
    reveal_strlit("=");
    let one = seq![x];
    assert(one.drop_last() =~= Seq::empty());
    assert(block_entries(one.drop_last()) =~= Seq::empty());
    assert("="@ =~= seq!['=']);
    texts_are_written_character_by_character(x.0, "="@, '=');
    texts_are_written_character_by_character(x.0 + "="@, x.1, '=');
    assert(utf16_char('=') =~= seq![0x3du16]);
    assert(block_entries(one) =~= utf16(x.0) + seq![0x3du16] + utf16(x.1) + seq![0u16]);
    if a.len() > 0 {
        assert(block_of(a) =~= block_entries(a) + seq![0u16]);
    }
    if b.len() == 0 {
        assert(a + b =~= a);
        assert(block_entries(a) + block_entries(b) =~= block_entries(a));
    } else {
        let f = b.drop_last();
        blocks_are_written_variable_by_variable(a, f, x);
        assert((a + b).drop_last() =~= a + f);
        assert((a + b).last() == b.last());
        assert(block_entries(a + b) =~= block_entries(a) + block_entries(b));
    }
}

/// A variable that is needed and that the parent has is there, under some spelling; no variable of
/// the environment is changed, and nothing is added but what the parent has.
pub proof fn required_variables_are_there(
    env: Map<Seq<char>, Seq<char>>,
    names: Seq<Seq<char>>,
    parent: Seq<Option<Seq<char>>>,
    i: int,
    name: Seq<char>,
)
    requires
        names.len() == parent.len(),
    ensures
        0 <= i < names.len() && parent[i] is Some ==> has_variable(
            with_required(env, names, parent),
            names[i],
        ),
        env.dom().contains(name) ==> with_required(env, names, parent).dom().contains(name)
            && with_required(env, names, parent)[name] == env[name],
        with_required(env, names, parent).dom().contains(name) && !env.dom().contains(name)
            ==> !has_variable(env, name) && exists|k: int|
            0 <= k < names.len() && #[trigger] names[k] == name && parent[k] == Some(
                with_required(env, names, parent)[name],
            ),
    decreases names.len(),
{
    if names.len() > 0 {
        let f = names.drop_last();
        let p = parent.drop_last();
        let e = with_required(env, f, p);
        let r = with_required(env, names, parent);
        let n = names.len() - 1;
        required_variables_are_there(env, f, p, i, name);
        if 0 <= i < n {
            assert(f[i] == names[i] && p[i] == parent[i]);
            if parent[i] is Some {
                let k = choose|k: Seq<char>| #[trigger]
                    e.dom().contains(k) && same_ignoring_case(k, names[i]);
                assert(r.dom().contains(k));
            }
        } else if i == n && parent[i] is Some {
            if !has_variable(e, names.last()) {
                assert(r.dom().contains(names.last()));
                assert(same_ignoring_case(names.last(), names[i]));
            }
        }
        if r.dom().contains(name) && !env.dom().contains(name) {
            if e.dom().contains(name) {
                let k = choose|k: int|
                    0 <= k < f.len() && #[trigger] f[k] == name && p[k] == Some(e[name]);
                assert(names[k] == name && parent[k] == p[k]);
                if r[name] != e[name] {
                    assert(name == names.last());
                    assert(same_ignoring_case(name, names.last()));
                    assert(has_variable(e, names.last()));
                }
            } else {
                assert(names[n] == name);
                if has_variable(env, name) {
                    let k = choose|k: Seq<char>| #[trigger]
                        env.dom().contains(k) && same_ignoring_case(k, name);
                    required_variables_are_there(env, f, p, i, k);
                    assert(e.dom().contains(k));
                    assert(has_variable(e, names.last()));
                }
            }
        }
    }
}

/// The variables without which programs do not start.
pub proof fn these_variables_are_required(name: Seq<char>)
    ensures
        required_variables().contains(name) <==> name == "SystemRoot"@ || name == "WINDIR"@ || name
            == "PATH"@ || name == "PATHEXT"@ || name == "TEMP"@ || name == "TMP"@ || name
            == "COMSPEC"@ || name == "USERPROFILE"@ || name == "APPDATA"@ || name
            == "LOCALAPPDATA"@,
{
    let v = required_variables();
    assert(v[0] == "SystemRoot"@ && v[1] == "WINDIR"@ && v[2] == "PATH"@ && v[3] == "PATHEXT"@
        && v[4] == "TEMP"@ && v[5] == "TMP"@ && v[6] == "COMSPEC"@ && v[7] == "USERPROFILE"@ && v[8]
        == "APPDATA"@ && v[9] == "LOCALAPPDATA"@);
}

/// Variables come by their names in capital letters, and where these are the same, by their names.
pub proof fn blocks_are_sorted_by_capitals(
    v: Seq<(Seq<char>, Seq<char>)>,
    i: int,
    j: int,
)
    requires
        is_in_block_order(v),
        0 <= i < j < v.len(),
    ensures
        !dictionary_less(char_numbers(upper(v[j].0)), char_numbers(upper(v[i].0))),
        v[i].0 != v[j].0,
{
    dictionary_order_is_total(char_numbers(upper(v[i].0)), char_numbers(upper(v[j].0)));
    dictionary_order_is_total(char_numbers(v[i].0), char_numbers(v[j].0));
}

} // verus!
