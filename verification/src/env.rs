//! The environment variables that a command is given.
use vstd::prelude::*;

use crate::bytes::{
    comes_before, dictionary_less, dictionary_order_is_total, dictionary_order_is_transitive,
};
use crate::text::{
    char_numbers, chars_of, eq_ignore_ascii_case, lemma_char_numbers_exact, lower, numbers_of,
    same_ignoring_case, same_text, string_of,
};

verus! {

/// One environment variable.
#[derive(Debug, PartialEq, Eq)]
pub struct EnvEntry {
    pub key: String,
    pub value: String,
}

impl View for EnvEntry {
    type V = (Seq<char>, Seq<char>);

    open spec fn view(&self) -> (Seq<char>, Seq<char>) {
        (self.key@, self.value@)
    }
}

impl Clone for EnvEntry {
    fn clone(&self) -> (r: EnvEntry)
        ensures
            r@ == self@,
    {
        EnvEntry { key: self.key.clone(), value: self.value.clone() }
    }
}

/// The values of a list of variables.
pub open spec fn entry_views(v: Seq<EnvEntry>) -> Seq<(Seq<char>, Seq<char>)> {
    Seq::new(v.len(), |i: int| v[i]@)
}

/// No two variables have the same name.
pub open spec fn distinct_keys(v: Seq<(Seq<char>, Seq<char>)>) -> bool {
    forall|i: int, j: int| 0 <= i < j < v.len() ==> v[i].0 != v[j].0
}

/// The map from names to values that a list of variables stands for.
pub open spec fn map_of(v: Seq<(Seq<char>, Seq<char>)>) -> Map<Seq<char>, Seq<char>>
    decreases v.len(),
{
    if v.len() == 0 {
        Map::empty()
    } else {
        map_of(v.drop_last()).insert(v.last().0, v.last().1)
    }
}

/// The order of names: character by character.
pub open spec fn name_less(a: Seq<char>, b: Seq<char>) -> bool {
    dictionary_less(char_numbers(a), char_numbers(b))
}

/// Variables in the order of their names.
pub open spec fn is_sorted(v: Seq<(Seq<char>, Seq<char>)>) -> bool {
    forall|i: int, j: int|
        0 <= i < j < v.len() ==> name_less((#[trigger] v[i]).0, (#[trigger] v[j]).0)
}

/// The environment of a command: each name has one value. The variables are kept in the order of
/// their names, so that environments with the same variables are the same.
#[derive(Debug, PartialEq, Eq)]
pub struct EnvMap {
    entries: Vec<EnvEntry>,
}

/// What the map of a list holds: each variable of the list, and nothing else.
pub proof fn lemma_map_of(v: Seq<(Seq<char>, Seq<char>)>)
    requires
        distinct_keys(v),
    ensures
        forall|i: int|
            0 <= i < v.len() ==> map_of(v).dom().contains((#[trigger] v[i]).0) && map_of(v)[v[i].0]
                == v[i].1,
        forall|k: Seq<char>| #[trigger]
            map_of(v).dom().contains(k) ==> exists|i: int| 0 <= i < v.len() && v[i].0 == k,
        map_of(v).dom().finite(),
        map_of(v).dom().len() == v.len(),
    decreases v.len(),
{
    if v.len() > 0 {
        let f = v.drop_last();
        lemma_map_of(f);
        assert forall|i: int| 0 <= i < v.len() implies map_of(v).dom().contains(
            (#[trigger] v[i]).0,
        ) && map_of(v)[v[i].0] == v[i].1 by {
            if i < v.len() - 1 {
                assert(f[i] == v[i]);
                assert(v[i].0 != v.last().0);
            }
        }
        assert forall|k: Seq<char>| #[trigger] map_of(v).dom().contains(k) implies exists|i: int|
            0 <= i < v.len() && v[i].0 == k by {
            if k == v.last().0 {
                assert(v[v.len() - 1].0 == k);
            } else {
                assert(map_of(f).dom().contains(k));
                let i = choose|i: int| 0 <= i < f.len() && f[i].0 == k;
                assert(v[i].0 == k);
            }
        }
        assert(!map_of(f).dom().contains(v.last().0)) by {
            if map_of(f).dom().contains(v.last().0) {
                let i = choose|i: int| 0 <= i < f.len() && f[i].0 == v.last().0;
                assert(v[i].0 == v[v.len() - 1].0);
            }
        }
    }
}

/// A variable with a new name that is put anywhere into a list is added to its map.
pub proof fn lemma_map_insert(v: Seq<(Seq<char>, Seq<char>)>, at: int, x: (Seq<char>, Seq<char>))
    requires
        0 <= at <= v.len(),
        distinct_keys(v.insert(at, x)),
    ensures
        distinct_keys(v),
        map_of(v.insert(at, x)) == map_of(v).insert(x.0, x.1),
{
    let w = v.insert(at, x);
    assert forall|i: int, j: int| 0 <= i < j < v.len() implies v[i].0 != v[j].0 by {
        let (k, l) = (if i < at { i } else { i + 1 }, if j < at { j } else { j + 1 });
        assert(w[k] == v[i] && w[l] == v[j]);
        assert(w[k].0 != w[l].0);
    }
    lemma_map_of(w);
    lemma_map_of(v);
    let m = map_of(v).insert(x.0, x.1);
    assert forall|k: Seq<char>| #[trigger] map_of(w).dom().contains(k) <==> m.dom().contains(k) by {
        if map_of(w).dom().contains(k) {
            let i = choose|i: int| 0 <= i < w.len() && w[i].0 == k;
            if i < at {
                assert(v[i].0 == k);
            } else if i > at {
                assert(v[i - 1].0 == k);
            }
        }
        if m.dom().contains(k) {
            if k == x.0 {
                assert(w[at].0 == k);
            } else {
                let i = choose|i: int| 0 <= i < v.len() && v[i].0 == k;
                if i < at {
                    assert(w[i].0 == k);
                } else {
                    assert(w[i + 1].0 == k);
                }
            }
        }
    }
    assert forall|k: Seq<char>| m.dom().contains(k) implies #[trigger] map_of(w)[k] == m[k] by {
        assert(map_of(w).dom().contains(k));
        let i = choose|i: int| 0 <= i < w.len() && w[i].0 == k;
        if i < at {
            assert(v[i] == w[i]);
            assert(w[i].0 != w[at].0);
        } else if i > at {
            assert(v[i - 1] == w[i]);
            assert(w[at].0 != w[i].0);
        } else {
            assert(w[at] == x);
        }
    }
    assert(map_of(w) =~= m);
}

proof fn lemma_name_order(a: Seq<char>, b: Seq<char>)
    ensures
        !(name_less(a, b) && name_less(b, a)),
        a != b ==> name_less(a, b) || name_less(b, a),
        a == b ==> !name_less(a, b),
{
    dictionary_order_is_total(char_numbers(a), char_numbers(b));
    if char_numbers(a) == char_numbers(b) {
        lemma_char_numbers_exact(a, b);
    }
}

proof fn lemma_sorted_keys_are_distinct(v: Seq<(Seq<char>, Seq<char>)>)
    requires
        is_sorted(v),
    ensures
        distinct_keys(v),
{
    assert forall|i: int, j: int| 0 <= i < j < v.len() implies v[i].0 != v[j].0 by {
        assert(name_less(v[i].0, v[j].0));
        lemma_name_order(v[i].0, v[j].0);
    }
}

proof fn lemma_sorted_insert(v: Seq<(Seq<char>, Seq<char>)>, at: int, x: (Seq<char>, Seq<char>))
    requires
        is_sorted(v),
        0 <= at <= v.len(),
        forall|i: int| 0 <= i < at ==> name_less((#[trigger] v[i]).0, x.0),
        at < v.len() ==> !name_less(v[at].0, x.0) && v[at].0 != x.0,
    ensures
        is_sorted(v.insert(at, x)),
{
    let w = v.insert(at, x);
    assert forall|k: int| at <= k < v.len() implies name_less(x.0, (#[trigger] v[k]).0) by {
        lemma_name_order(v[at].0, x.0);
        if k > at {
            assert(name_less(v[at].0, v[k].0));
            dictionary_order_is_transitive(
                char_numbers(x.0),
                char_numbers(v[at].0),
                char_numbers(v[k].0),
            );
        }
    }
    assert forall|i: int, j: int| 0 <= i < j < w.len() implies name_less(
        (#[trigger] w[i]).0,
        (#[trigger] w[j]).0,
    ) by {
        if i < at && j < at {
            assert(name_less(v[i].0, v[j].0));
        } else if i < at && j > at {
            assert(name_less(v[i].0, v[j - 1].0));
        } else if i > at {
            assert(name_less(v[i - 1].0, v[j - 1].0));
        } else if i == at {
            assert(name_less(x.0, v[j - 1].0));
        } else {
            assert(name_less(v[i].0, x.0));
        }
    }
}

/// Environments with the same variables list them alike, however they were set.
pub proof fn equal_environments_have_equal_entries(
    a: Seq<(Seq<char>, Seq<char>)>,
    b: Seq<(Seq<char>, Seq<char>)>,
)
    requires
        is_sorted(a),
        is_sorted(b),
        map_of(a) == map_of(b),
    ensures
        a == b,
    decreases a.len(),
{
    lemma_sorted_keys_are_distinct(a);
    lemma_sorted_keys_are_distinct(b);
    lemma_map_of(a);
    lemma_map_of(b);
    if a.len() == 0 {
        assert(a =~= b);
    } else {
        let (x, y) = (a.last(), b.last());
        assert(a[a.len() - 1] == x && b[b.len() - 1] == y);
        assert(map_of(b).dom().contains(x.0) && map_of(a).dom().contains(y.0));
        let i = choose|i: int| 0 <= i < b.len() && b[i].0 == x.0;
        let j = choose|j: int| 0 <= j < a.len() && a[j].0 == y.0;
        if x.0 != y.0 {
            assert(name_less(b[i].0, b[b.len() - 1].0));
            assert(name_less(a[j].0, a[a.len() - 1].0));
            lemma_name_order(x.0, y.0);
        }
        assert(map_of(a)[a[a.len() - 1].0] == x.1);
        assert(map_of(b)[b[b.len() - 1].0] == y.1);
        let (f, g) = (a.drop_last(), b.drop_last());
        lemma_shorter_map(a);
        lemma_shorter_map(b);
        assert forall|m: int, n: int| 0 <= m < n < f.len() implies name_less(
            (#[trigger] f[m]).0,
            (#[trigger] f[n]).0,
        ) by {
            assert(name_less(a[m].0, a[n].0));
        }
        assert forall|m: int, n: int| 0 <= m < n < g.len() implies name_less(
            (#[trigger] g[m]).0,
            (#[trigger] g[n]).0,
        ) by {
            assert(name_less(b[m].0, b[n].0));
        }
        equal_environments_have_equal_entries(f, g);
        assert(a =~= f.push(x));
        assert(b =~= g.push(y));
    }
}

proof fn lemma_shorter_map(v: Seq<(Seq<char>, Seq<char>)>)
    requires
        v.len() > 0,
        distinct_keys(v),
    ensures
        map_of(v.drop_last()) == map_of(v).remove(v.last().0),
{
    let f = v.drop_last();
    assert forall|i: int, j: int| 0 <= i < j < f.len() implies f[i].0 != f[j].0 by {
        assert(v[i].0 != v[j].0);
    }
    lemma_map_of(f);
    assert(!map_of(f).dom().contains(v.last().0)) by {
        if map_of(f).dom().contains(v.last().0) {
            let i = choose|i: int| 0 <= i < f.len() && f[i].0 == v.last().0;
            assert(v[i].0 != v[v.len() - 1].0);
        }
    }
    assert(map_of(f) =~= map_of(v).remove(v.last().0));
}

impl View for EnvMap {
    type V = Map<Seq<char>, Seq<char>>;

    closed spec fn view(&self) -> Map<Seq<char>, Seq<char>> {
        map_of(entry_views(self.entries@))
    }
}

impl EnvMap {
    #[verifier::type_invariant]
    spec fn names_are_sorted(self) -> bool {
        is_sorted(entry_views(self.entries@))
    }

    /// An environment without variables.
    pub fn new() -> (r: EnvMap)
        ensures
            r@ == Map::<Seq<char>, Seq<char>>::empty(),
    {
        EnvMap { entries: Vec::new() }
    }

    /// How many variables there are.
    pub fn len(&self) -> (r: usize)
        ensures
            self@.dom().finite(),
            r == self@.dom().len(),
    {
        proof {
            use_type_invariant(self);
            lemma_sorted_keys_are_distinct(entry_views(self.entries@));
            lemma_map_of(entry_views(self.entries@));
        }
        self.entries.len()
    }

    /// Whether a variable with this name is set.
    pub fn contains_key(&self, key: &str) -> (r: bool)
        ensures
            r == self@.dom().contains(key@),
    {
        self.get(key).is_some()
    }

    /// The value of the variable with this name.
    pub fn get(&self, key: &str) -> (r: Option<String>)
        ensures
            match r {
                Some(value) => self@.dom().contains(key@) && self@[key@] == value@,
                None => !self@.dom().contains(key@),
            },
    {
        let ghost v = entry_views(self.entries@);
        proof {
            use_type_invariant(self);
            lemma_sorted_keys_are_distinct(v);
            lemma_map_of(v);
        }
        for i in 0..self.entries.len()
            invariant
                v == entry_views(self.entries@),
                forall|j: int| 0 <= j < i ==> (#[trigger] v[j]).0 != key@,
                forall|j: int|
                    0 <= j < v.len() ==> self@.dom().contains((#[trigger] v[j]).0)
                        && self@[v[j].0] == v[j].1,
        {
            if same_text(self.entries[i].key.as_str(), key) {
                assert(v[i as int].0 == key@);
                return Some(self.entries[i].value.clone());
            }
        }
        None
    }

    /// Sets a variable.
    pub fn insert(&mut self, key: String, value: String)
        ensures
            final(self)@ == old(self)@.insert(key@, value@),
    {
        self.remove(key.as_str());
        let mut entries = self.entries();
        let ghost before = entry_views(entries@);
        proof {
            lemma_map_of(before);
            assert forall|i: int| 0 <= i < before.len() implies (#[trigger] before[i]).0
                != key@ by {
                assert(map_of(before).dom().contains(before[i].0));
            }
        }
        let number = numbers_of(key.as_str());
        let mut at: usize = 0;
        while at < entries.len() && comes_before(
            &numbers_of(entries[at].key.as_str()),
            &number,
        )
            invariant
                at <= entries.len(),
                before == entry_views(entries@),
                number@ == char_numbers(key@),
                forall|k: int| 0 <= k < at ==> name_less((#[trigger] before[k]).0, key@),
            decreases entries.len() - at,
        {
            assert(before[at as int] == entries@[at as int]@);
            at = at + 1;
        }
        let ghost x = (key@, value@);
        proof {
            if at < entries.len() {
                assert(before[at as int] == entries@[at as int]@);
            }
            lemma_sorted_insert(before, at as int, x);
            lemma_sorted_keys_are_distinct(before.insert(at as int, x));
            lemma_map_insert(before, at as int, x);
        }
        entries.insert(at, EnvEntry { key, value });
        proof {
            assert(entry_views(entries@) =~= before.insert(at as int, x));
            assert(old(self)@.remove(key@).insert(key@, value@) =~= old(self)@.insert(key@, value@));
        }
        *self = EnvMap { entries };
    }

    /// Unsets a variable.
    pub fn remove(&mut self, key: &str)
        ensures
            final(self)@ == old(self)@.remove(key@),
    {
        let mut kept: Vec<EnvEntry> = Vec::new();
        let ghost v = entry_views(self.entries@);
        let ghost source = self.entries@;
        proof {
            use_type_invariant(&*self);
            lemma_sorted_keys_are_distinct(v);
            assert(map_of(v.take(0)).remove(key@) =~= Map::empty());
        }
        for i in 0..self.entries.len()
            invariant
                source == self.entries@,
                v == entry_views(source),
                distinct_keys(v),
                is_sorted(v),
                is_sorted(entry_views(kept@)),
                forall|j: int|
                    0 <= j < kept.len() ==> exists|k: int| 0 <= k < i && v[k] == (#[trigger] kept@[j])@,
                map_of(entry_views(kept@)) == map_of(v.take(i as int)).remove(key@),
                *self == *old(self),
        {
            proof {
                assert(v.take(i + 1).drop_last() =~= v.take(i as int));
                assert(v.take(i + 1).last() == v[i as int]);
            }
            let ghost before = entry_views(kept@);
            let ghost m = map_of(v.take(i as int));
            if !same_text(self.entries[i].key.as_str(), key) {
                let entry = self.entries[i].clone();
                kept.push(entry);
                proof {
                    let after = entry_views(kept@);
                    assert(after =~= before.push(v[i as int]));
                    assert(after.drop_last() =~= before);
                    assert(m.insert(v[i as int].0, v[i as int].1).remove(key@) =~= m.remove(
                        key@,
                    ).insert(v[i as int].0, v[i as int].1));
                    assert forall|a: int, b: int| 0 <= a < b < after.len() implies name_less(
                        (#[trigger] after[a]).0,
                        (#[trigger] after[b]).0,
                    ) by {
                        if b == after.len() - 1 {
                            assert(after[a] == kept@[a]@);
                            let k = choose|k: int| 0 <= k < i && v[k] == kept@[a]@;
                            assert(name_less(v[k].0, v[i as int].0));
                        } else {
                            assert(name_less(before[a].0, before[b].0));
                        }
                    }
                }
            } else {
                assert(m.insert(v[i as int].0, v[i as int].1).remove(key@) =~= m.remove(key@));
            }
        }
        assert(v.take(v.len() as int) =~= v);
        *self = EnvMap { entries: kept };
    }

    /// The variables, in the order of their names.
    pub fn entries(&self) -> (r: Vec<EnvEntry>)
        ensures
            is_sorted(entry_views(r@)),
            distinct_keys(entry_views(r@)),
            map_of(entry_views(r@)) == self@,
    {
        proof {
            use_type_invariant(self);
        }
        let mut r: Vec<EnvEntry> = Vec::new();
        for i in 0..self.entries.len()
            invariant
                r.len() == i,
                forall|j: int| 0 <= j < i ==> (#[trigger] r@[j])@ == self.entries@[j]@,
        {
            let entry = self.entries[i].clone();
            r.push(entry);
        }
        assert(entry_views(r@) =~= entry_views(self.entries@));
        proof {
            lemma_sorted_keys_are_distinct(entry_views(r@));
        }
        r
    }
}

impl Clone for EnvMap {
    fn clone(&self) -> (r: EnvMap)
        ensures
            r@ == self@,
    {
        EnvMap { entries: self.entries() }
    }
}

/// A text that starts with a prefix up to the case of ASCII letters.
pub open spec fn starts_ignoring_case(s: Seq<char>, prefix: Seq<char>) -> bool {
    prefix.len() <= s.len() && same_ignoring_case(s.take(prefix.len() as int), prefix)
}

/// The names of variables that load code into a process before it starts: they are never passed
/// on.
pub open spec fn is_blocked_variable(key: Seq<char>) -> bool {
    ||| same_ignoring_case(key, "BASH_ENV"@)
    ||| same_ignoring_case(key, "ENV"@)
    ||| same_ignoring_case(key, "LD_PRELOAD"@)
    ||| same_ignoring_case(key, "LD_LIBRARY_PATH"@)
    ||| same_ignoring_case(key, "LD_AUDIT"@)
    ||| starts_ignoring_case(key, "DYLD_"@)
    ||| starts_ignoring_case(key, "LD_"@)
    ||| starts_ignoring_case(key, "BASH_FUNC_"@)
}

/// The variables of an environment that are passed on, with their values.
pub open spec fn sanitized_env(env: Map<Seq<char>, Seq<char>>) -> Map<Seq<char>, Seq<char>> {
    env.restrict(Set::new(|k: Seq<char>| !is_blocked_variable(k)))
}

/// Whether a text starts with a prefix up to the case of ASCII letters.
pub fn starts_with_ascii_case_insensitive(value: &str, prefix: &str) -> (r: bool)
    ensures
        r == starts_ignoring_case(value@, prefix@),
{
    let v = chars_of(value);
    let p = chars_of(prefix);
    if p.len() > v.len() {
        return false;
    }
    let start = string_of(vstd::slice::slice_subrange(v.as_slice(), 0, p.len()));
    assert(value@.subrange(0, prefix@.len() as int) =~= value@.take(prefix@.len() as int));
    eq_ignore_ascii_case(start.as_str(), prefix)
}

fn blocked_variable(key: &str) -> (r: bool)
    ensures
        r == is_blocked_variable(key@),
{
    eq_ignore_ascii_case(key, "BASH_ENV") || eq_ignore_ascii_case(key, "ENV")
        || eq_ignore_ascii_case(key, "LD_PRELOAD") || eq_ignore_ascii_case(key, "LD_LIBRARY_PATH")
        || eq_ignore_ascii_case(key, "LD_AUDIT") || starts_with_ascii_case_insensitive(key, "DYLD_")
        || starts_with_ascii_case_insensitive(key, "LD_") || starts_with_ascii_case_insensitive(
        key,
        "BASH_FUNC_",
    )
}

/// Drops the variables that are never passed on, and keeps the others as they are.
pub fn sanitize_env_vars(env: &EnvMap) -> (r: EnvMap)
    ensures
        r@ == sanitized_env(env@),
{
    let mut out = env.clone();
    let entries = env.entries();
    let ghost v = entry_views(entries@);
    proof {
        lemma_map_of(v);
    }
    for i in 0..entries.len()
        invariant
            v == entry_views(entries@),
            map_of(v) == env@,
            forall|k: Seq<char>| #[trigger]
                out@.dom().contains(k) ==> env@.dom().contains(k) && out@[k] == env@[k],
            forall|k: Seq<char>|
                env@.dom().contains(k) && !is_blocked_variable(k)
                    ==> #[trigger] out@.dom().contains(k),
            forall|j: int|
                0 <= j < i && is_blocked_variable((#[trigger] v[j]).0) ==> !out@.dom().contains(
                    v[j].0,
                ),
    {
        if blocked_variable(entries[i].key.as_str()) {
            let ghost before = out@;
            out.remove(entries[i].key.as_str());
            assert(out@ == before.remove(v[i as int].0));
        }
    }
    proof {
        assert forall|k: Seq<char>| #[trigger] out@.dom().contains(k) implies !is_blocked_variable(
            k,
        ) by {
            let j = choose|j: int| 0 <= j < v.len() && v[j].0 == k;
            assert(v[j].0 == k);
        }
        assert(out@ =~= sanitized_env(env@));
    }
    out
}

/// Sanitizing an environment twice changes nothing more.
pub proof fn sanitizing_env_is_idempotent(env: Map<Seq<char>, Seq<char>>)
    ensures
        sanitized_env(sanitized_env(env)) == sanitized_env(env),
{
    assert(sanitized_env(sanitized_env(env)) =~= sanitized_env(env));
}

/// What is passed on of an environment: no blocked variable, and every other variable with its
/// value. Nothing is added.
pub proof fn sanitized_env_holds_the_unblocked_variables(
    env: Map<Seq<char>, Seq<char>>,
    key: Seq<char>,
)
    ensures
        sanitized_env(env).dom().contains(key) <==> env.dom().contains(key) && !is_blocked_variable(
            key,
        ),
        sanitized_env(env).dom().contains(key) ==> sanitized_env(env)[key] == env[key],
{
}

/// Whether a variable is passed on does not depend on the case of its name.
pub proof fn blocking_ignores_case(a: Seq<char>, b: Seq<char>)
    requires
        same_ignoring_case(a, b),
    ensures
        is_blocked_variable(a) == is_blocked_variable(b),
{
    assert(a.len() == lower(a).len() && b.len() == lower(b).len());
    lemma_prefix_ignores_case(a, b, "DYLD_"@);
    lemma_prefix_ignores_case(a, b, "LD_"@);
    lemma_prefix_ignores_case(a, b, "BASH_FUNC_"@);
}

proof fn lemma_prefix_ignores_case(a: Seq<char>, b: Seq<char>, prefix: Seq<char>)
    requires
        same_ignoring_case(a, b),
    ensures
        starts_ignoring_case(a, prefix) == starts_ignoring_case(b, prefix),
{
    assert(a.len() == lower(a).len() && b.len() == lower(b).len());
    let n = prefix.len() as int;
    if n <= a.len() {
        assert(lower(a.take(n)) =~= lower(a).take(n));
        assert(lower(b.take(n)) =~= lower(b).take(n));
    }
}

/// A text in lower case starts with another one.
pub open spec fn lower_starts_with(s: Seq<char>, prefix: Seq<char>) -> bool {
    prefix.len() <= s.len() && lower(s).take(prefix.len() as int) == prefix
}

proof fn lemma_lower_literals()
    ensures
        lower("BASH_ENV"@) == "bash_env"@,
        lower("ENV"@) == "env"@,
        lower("LD_"@) == "ld_"@,
        lower("DYLD_"@) == "dyld_"@,
        lower("BASH_FUNC_"@) == "bash_func_"@,
{
    reveal_strlit("BASH_ENV");
    reveal_strlit("bash_env");
    reveal_strlit("ENV");
    reveal_strlit("env");
    reveal_strlit("LD_");
    reveal_strlit("ld_");
    reveal_strlit("DYLD_");
    reveal_strlit("dyld_");
    reveal_strlit("BASH_FUNC_");
    reveal_strlit("bash_func_");
    assert(lower("BASH_ENV"@) =~= "bash_env"@);
    assert(lower("ENV"@) =~= "env"@);
    assert(lower("LD_"@) =~= "ld_"@);
    assert(lower("DYLD_"@) =~= "dyld_"@);
    assert(lower("BASH_FUNC_"@) =~= "bash_func_"@);
}

proof fn lemma_prefix_in_lower_case(s: Seq<char>, prefix: Seq<char>)
    ensures
        starts_ignoring_case(s, prefix) <==> lower_starts_with(s, lower(prefix)),
{
    let n = prefix.len() as int;
    assert(lower(prefix).len() == prefix.len());
    if n <= s.len() {
        assert(lower(s.take(n)) =~= lower(s).take(n));
    }
}

proof fn lemma_loader_names(key: Seq<char>)
    requires
        same_ignoring_case(key, "LD_PRELOAD"@) || same_ignoring_case(key, "LD_LIBRARY_PATH"@)
            || same_ignoring_case(key, "LD_AUDIT"@),
    ensures
        lower_starts_with(key, "ld_"@),
{
    reveal_strlit("LD_PRELOAD");
    reveal_strlit("LD_LIBRARY_PATH");
    reveal_strlit("LD_AUDIT");
    reveal_strlit("ld_");
    let name = if same_ignoring_case(key, "LD_PRELOAD"@) {
        "LD_PRELOAD"@
    } else if same_ignoring_case(key, "LD_LIBRARY_PATH"@) {
        "LD_LIBRARY_PATH"@
    } else {
        "LD_AUDIT"@
    };
    assert(lower(key).len() == key.len() && lower(name).len() == name.len());
    assert(lower(name).take(3) =~= "ld_"@);
}

/// The blocked variables are the start-up files of shells, every variable of the two dynamic
/// loaders, and every exported shell function, in whatever case they are written; no others.
pub proof fn exactly_these_variables_are_blocked(key: Seq<char>)
    ensures
        is_blocked_variable(key) <==> {
            ||| lower(key) == "bash_env"@
            ||| lower(key) == "env"@
            ||| lower_starts_with(key, "ld_"@)
            ||| lower_starts_with(key, "dyld_"@)
            ||| lower_starts_with(key, "bash_func_"@)
        },
{
    lemma_lower_literals();
    lemma_prefix_in_lower_case(key, "LD_"@);
    lemma_prefix_in_lower_case(key, "DYLD_"@);
    lemma_prefix_in_lower_case(key, "BASH_FUNC_"@);
    if same_ignoring_case(key, "LD_PRELOAD"@) || same_ignoring_case(key, "LD_LIBRARY_PATH"@)
        || same_ignoring_case(key, "LD_AUDIT"@) {
        lemma_loader_names(key);
    }
}

/// Whatever comes behind the name of a loader, the variable is blocked.
pub proof fn loader_variables_are_blocked(rest: Seq<char>)
    ensures
        is_blocked_variable("LD_"@ + rest),
        is_blocked_variable("DYLD_"@ + rest),
        is_blocked_variable("BASH_FUNC_"@ + rest),
        is_blocked_variable("BASH_ENV"@),
        is_blocked_variable("ENV"@),
{
    assert(("LD_"@ + rest).take("LD_"@.len() as int) =~= "LD_"@);
    assert(("DYLD_"@ + rest).take("DYLD_"@.len() as int) =~= "DYLD_"@);
    assert(("BASH_FUNC_"@ + rest).take("BASH_FUNC_"@.len() as int) =~= "BASH_FUNC_"@);
}

/// The value of a variable in a list of entries is that of the last entry with its name.
pub proof fn later_entries_replace_earlier_ones(
    a: Seq<(Seq<char>, Seq<char>)>,
    name: Seq<char>,
    value: Seq<char>,
    other: Seq<char>,
)
    ensures
        map_of(a.push((name, value))).contains_key(name),
        map_of(a.push((name, value)))[name] == value,
        other != name ==> (map_of(a.push((name, value))).contains_key(other) <==> map_of(
            a,
        ).contains_key(other)),
        other != name && map_of(a).contains_key(other) ==> map_of(a.push((name, value)))[other]
            == map_of(a)[other],
        map_of(Seq::empty()) == Map::<Seq<char>, Seq<char>>::empty(),
{
    assert(a.push((name, value)).drop_last() =~= a);
}

} // verus!
