//! When two spellings of a path count as the same entry of a list.
use vstd::prelude::*;

use crate::bytes::{lower_byte, lower_bytes, same_bytes, to_lower_bytes};
use crate::path::{path_views, replace_surrogates, without_surrogates, SandboxPath};

verus! {

/// How a path's text is turned into the key that it is found by.
#[derive(Debug, Clone, Copy, PartialEq, Eq, Structural)]
pub enum PathKeyMode {
    Exact,
    AsciiCaseInsensitive,
}

/// How a list of paths is kept free of repetitions.
#[derive(Debug, Clone, Copy, PartialEq, Eq, Structural)]
pub struct PathPolicy {
    pub key_mode: PathKeyMode,
}

/// The key of a path: its text, with ASCII capitals made small where case does not count.
pub open spec fn text_key(mode: PathKeyMode, path: Seq<u8>) -> Seq<u8> {
    match mode {
        PathKeyMode::Exact => replace_surrogates(path),
        PathKeyMode::AsciiCaseInsensitive => lower_bytes(replace_surrogates(path)),
    }
}

/// Some path of the list has this key.
pub open spec fn has_key(mode: PathKeyMode, paths: Seq<Seq<u8>>, key: Seq<u8>) -> bool {
    exists|i: int| 0 <= i < paths.len() && text_key(mode, #[trigger] paths[i]) == key
}

/// The paths in order, each key once, at its first place.
pub open spec fn deduped(mode: PathKeyMode, paths: Seq<Seq<u8>>) -> Seq<Seq<u8>>
    decreases paths.len(),
{
    if paths.len() == 0 {
        Seq::empty()
    } else {
        let front = deduped(mode, paths.drop_last());
        if has_key(mode, front, text_key(mode, paths.last())) {
            front
        } else {
            front.push(paths.last())
        }
    }
}

/// The key of a path.
pub fn path_text_key(path: &SandboxPath, mode: PathKeyMode) -> (r: Vec<u8>)
    ensures
        r@ == text_key(mode, path@),
{
    let plain = without_surrogates(path.bytes.as_slice());
    match mode {
        PathKeyMode::Exact => plain,
        PathKeyMode::AsciiCaseInsensitive => to_lower_bytes(plain.as_slice()),
    }
}

/// Whether a path of the list has this key.
pub fn contains_key(paths: &Vec<SandboxPath>, mode: PathKeyMode, key: &Vec<u8>) -> (r: bool)
    ensures
        r == has_key(mode, path_views(paths@), key@),
{
    for i in 0..paths.len()
        invariant
            forall|j: int| 0 <= j < i ==> text_key(mode, #[trigger] path_views(paths@)[j]) != key@,
    {
        let k = path_text_key(&paths[i], mode);
        assert(path_views(paths@)[i as int] == paths@[i as int]@);
        if same_bytes(k.as_slice(), key.as_slice()) {
            return true;
        }
    }
    false
}

/// Drops every path whose key an earlier one has.
pub fn dedupe_paths(paths: &Vec<SandboxPath>, mode: PathKeyMode) -> (r: Vec<SandboxPath>)
    ensures
        path_views(r@) == deduped(mode, path_views(paths@)),
{
    let mut out: Vec<SandboxPath> = Vec::new();
    let ghost all = path_views(paths@);
    assert(path_views(out@) =~= deduped(mode, all.take(0)));
    for i in 0..paths.len()
        invariant
            all == path_views(paths@),
            path_views(out@) == deduped(mode, all.take(i as int)),
    {
        proof {
            assert(all.take(i + 1).drop_last() =~= all.take(i as int));
            assert(all.take(i + 1).last() == paths@[i as int]@);
        }
        let key = path_text_key(&paths[i], mode);
        if !contains_key(&out, mode, &key) {
            let ghost before = path_views(out@);
            out.push(paths[i].clone());
            assert(path_views(out@) =~= before.push(paths@[i as int]@));
        }
    }
    assert(all.take(all.len() as int) =~= all);
    out
}

/// A validation can accept this path.
pub open spec fn accepts<E, F: Fn(&SandboxPath) -> Result<SandboxPath, E>>(
    validate: F,
    path: SandboxPath,
) -> bool {
    exists|p: SandboxPath| call_ensures(validate, (&path,), Ok::<SandboxPath, E>(p))
}

impl PathPolicy {
    /// Paths are the same entry when their texts are the same.
    pub fn exact() -> (r: PathPolicy)
        ensures
            r.key_mode == PathKeyMode::Exact,
    {
        PathPolicy { key_mode: PathKeyMode::Exact }
    }

    /// Paths are the same entry when their texts differ at most in the case of ASCII letters.
    pub fn ascii_case_insensitive() -> (r: PathPolicy)
        ensures
            r.key_mode == PathKeyMode::AsciiCaseInsensitive,
    {
        PathPolicy { key_mode: PathKeyMode::AsciiCaseInsensitive }
    }

    /// Drops every path that is the same entry as an earlier one.
    pub fn normalize_paths(self, paths: Vec<SandboxPath>) -> (r: Vec<SandboxPath>)
        ensures
            path_views(r@) == deduped(self.key_mode, path_views(paths@)),
    {
        dedupe_paths(&paths, self.key_mode)
    }

    /// Validates every path, and drops from the results what is the same entry as an earlier
    /// one. The first path that fails gives the error.
    pub fn validate_and_dedupe<E, F: Fn(&SandboxPath) -> Result<SandboxPath, E>>(
        self,
        paths: Vec<SandboxPath>,
        validate: F,
    ) -> (r: Result<Vec<SandboxPath>, E>)
        requires
            forall|p: &SandboxPath| #[trigger] call_requires(validate, (p,)),
        ensures
            match r {
                Ok(out) => exists|validated: Seq<SandboxPath>|
                    validated.len() == paths.len() && (forall|i: int|
                        0 <= i < paths.len() ==> call_ensures(
                            validate,
                            (&paths@[i],),
                            Ok::<SandboxPath, E>(#[trigger] validated[i]),
                        )) && path_views(out@) == deduped(
                        self.key_mode,
                        #[trigger] path_views(validated),
                    ),
                Err(e) => exists|i: int|
                    0 <= i < paths.len() && call_ensures(
                        validate,
                        (&#[trigger] paths@[i],),
                        Err::<SandboxPath, E>(e),
                    ) && forall|j: int| 0 <= j < i ==> accepts(validate, #[trigger] paths@[j]),
            },
    {
        let mut validated: Vec<SandboxPath> = Vec::new();
        for i in 0..paths.len()
            invariant
                forall|p: &SandboxPath| #[trigger] call_requires(validate, (p,)),
                validated.len() == i,
                forall|j: int|
                    0 <= j < i ==> call_ensures(
                        validate,
                        (&paths@[j],),
                        Ok::<SandboxPath, E>(#[trigger] validated@[j]),
                    ),
        {
            match validate(&paths[i]) {
                Ok(path) => {
                    validated.push(path);
                },
                Err(e) => {
                    proof {
                        assert forall|j: int| 0 <= j < i implies accepts(
                            validate,
                            #[trigger] paths@[j],
                        ) by {
                            let p = validated@[j];
                            assert(call_ensures(
                                validate,
                                (&paths@[j],),
                                Ok::<SandboxPath, E>(p),
                            ));
                        }
                        assert(call_ensures(
                            validate,
                            (&paths@[i as int],),
                            Err::<SandboxPath, E>(e),
                        ));
                    }
                    return Err(e);
                },
            }
        }
        let out = dedupe_paths(&validated, self.key_mode);
        assert(path_views(out@) == deduped(self.key_mode, path_views(validated@)));
        Ok(out)
    }
}

/// No two paths of a deduplicated list have the same key.
pub proof fn deduped_keys_are_distinct(mode: PathKeyMode, paths: Seq<Seq<u8>>, i: int, j: int)
    requires
        0 <= i < j < deduped(mode, paths).len(),
    ensures
        text_key(mode, deduped(mode, paths)[i]) != text_key(mode, deduped(mode, paths)[j]),
    decreases paths.len(),
{
    let front = deduped(mode, paths.drop_last());
    let out = deduped(mode, paths);
    assert(front[i] == out[i]);
    if j < front.len() {
        deduped_keys_are_distinct(mode, paths.drop_last(), i, j);
    }
}

/// Every path still has its key in the deduplicated list.
pub proof fn deduping_loses_no_key(mode: PathKeyMode, paths: Seq<Seq<u8>>, i: int)
    requires
        0 <= i < paths.len(),
    ensures
        has_key(mode, deduped(mode, paths), text_key(mode, paths[i])),
    decreases paths.len(),
{
    let front = deduped(mode, paths.drop_last());
    let out = deduped(mode, paths);
    if i < paths.len() - 1 {
        deduping_loses_no_key(mode, paths.drop_last(), i);
        let k = choose|k: int|
            0 <= k < front.len() && text_key(mode, #[trigger] front[k]) == text_key(
                mode,
                paths[i],
            );
        assert(out[k] == front[k]);
    } else if !has_key(mode, front, text_key(mode, paths.last())) {
        assert(out[front.len() as int] == paths[i]);
    }
}

/// Of several spellings of one path the first is kept: a list without its last path keeps what it
/// kept with it, and the last one is kept exactly where no other has its key.
pub proof fn the_first_spelling_is_kept(mode: PathKeyMode, paths: Seq<Seq<u8>>, p: Seq<u8>)
    ensures
        (exists|i: int| 0 <= i < paths.len() && text_key(mode, #[trigger] paths[i]) == text_key(mode, p))
            ==> deduped(mode, paths.push(p)) == deduped(mode, paths),
        !(exists|i: int|
            0 <= i < paths.len() && text_key(mode, #[trigger] paths[i]) == text_key(mode, p))
            ==> deduped(mode, paths.push(p)) == deduped(mode, paths).push(p),
        deduped(mode, Seq::empty()) == Seq::<Seq<u8>>::empty(),
{
    assert(paths.push(p).drop_last() =~= paths);
    lemma_deduped_is_part(mode, paths);
    let front = deduped(mode, paths);
    if exists|i: int| 0 <= i < paths.len() && text_key(mode, #[trigger] paths[i]) == text_key(mode, p) {
        let i = choose|i: int|
            0 <= i < paths.len() && text_key(mode, #[trigger] paths[i]) == text_key(mode, p);
        deduping_loses_no_key(mode, paths, i);
        assert(has_key(mode, front, text_key(mode, p)));
    } else if has_key(mode, front, text_key(mode, p)) {
        let k = choose|k: int|
            0 <= k < front.len() && text_key(mode, #[trigger] front[k]) == text_key(mode, p);
        assert(front.contains(front[k]));
        let i = choose|i: int| 0 <= i < paths.len() && paths[i] == front[k];
        assert(text_key(mode, paths[i]) == text_key(mode, p));
    }
}

proof fn lemma_deduped_is_part(mode: PathKeyMode, paths: Seq<Seq<u8>>)
    ensures
        forall|p: Seq<u8>| #[trigger] deduped(mode, paths).contains(p) ==> paths.contains(p),
    decreases paths.len(),
{
    if paths.len() > 0 {
        let f = paths.drop_last();
        let front = deduped(mode, f);
        let all = deduped(mode, paths);
        lemma_deduped_is_part(mode, f);
        assert forall|p: Seq<u8>| #[trigger] all.contains(p) implies paths.contains(p) by {
            let k = choose|k: int| 0 <= k < all.len() && all[k] == p;
            if k < front.len() {
                assert(front.contains(front[k]));
                let i = choose|i: int| 0 <= i < f.len() && f[i] == p;
                assert(paths[i] == p);
            } else {
                assert(paths[paths.len() - 1] == p);
            }
        }
    }
}

/// Two plain ASCII paths have the same key exactly where they are the same, and, where the case of
/// letters does not count, exactly where they are the same but for that.
pub proof fn keys_tell_paths_apart(a: Seq<u8>, b: Seq<u8>)
    requires
        forall|i: int| 0 <= i < a.len() ==> (#[trigger] a[i]) < 128,
        forall|i: int| 0 <= i < b.len() ==> (#[trigger] b[i]) < 128,
    ensures
        text_key(PathKeyMode::Exact, a) == text_key(PathKeyMode::Exact, b) <==> a == b,
        text_key(PathKeyMode::AsciiCaseInsensitive, a) == text_key(
            PathKeyMode::AsciiCaseInsensitive,
            b,
        ) <==> a.len() == b.len() && forall|i: int|
            0 <= i < a.len() ==> lower_byte(#[trigger] a[i]) == lower_byte(b[i]),
{
    lemma_ascii_is_kept(a);
    lemma_ascii_is_kept(b);
    let x = lower_bytes(a);
    let y = lower_bytes(b);
    assert(x.len() == a.len() && y.len() == b.len());
    if x == y {
        assert forall|i: int| 0 <= i < a.len() implies lower_byte(#[trigger] a[i]) == lower_byte(
            b[i],
        ) by {
            assert(x[i] == y[i]);
        }
    }
    if a.len() == b.len() && forall|i: int|
        0 <= i < a.len() ==> lower_byte(#[trigger] a[i]) == lower_byte(b[i]) {
        assert(x =~= y);
    }
}

proof fn lemma_ascii_is_kept(s: Seq<u8>)
    requires
        forall|i: int| 0 <= i < s.len() ==> (#[trigger] s[i]) < 128,
    ensures
        replace_surrogates(s) == s,
    decreases s.len(),
{
    if s.len() > 0 {
        let rest = s.subrange(1, s.len() as int);
        assert forall|i: int| 0 <= i < rest.len() implies (#[trigger] rest[i]) < 128 by {
            assert(rest[i] == s[i + 1]);
        }
        lemma_ascii_is_kept(rest);
        assert(s[0] < 128);
        assert(seq![s[0]] + rest =~= s);
    }
}

} // verus!
