//! Which paths are covered by mounts, and in which order.
use vstd::prelude::*;
use vstd::string::StringExecFns;

use crate::bytes::{
    comes_before, copy_bytes, dictionary_less, dictionary_order_is_total,
    dictionary_order_is_transitive, push_bytes, same_numbers,
};
use crate::error::{ErrorView, SandboxError};
use crate::path::{
    byte_views, component_views, components, depth, display_text, path_key, path_views,
    piece_components, pieces_components, split_path, starts_in_cur_dir, ComponentView,
    PathComponent, PathStyle, SandboxPath,
};
use crate::policy::SandboxDefaultAccess;
use crate::text::join;

verus! {

/// What a mount takes away from a path.
#[derive(Debug, Clone, Copy, PartialEq, Eq, Structural)]
pub enum ReadWriteOverlayKind {
    /// Writing.
    ReadOnly,
    /// Reading and writing.
    Deny,
}

/// A path that a mount covers.
#[derive(Debug, PartialEq, Eq)]
pub struct ReadWriteOverlayEntry {
    pub path: SandboxPath,
    pub kind: ReadWriteOverlayKind,
}

/// The mathematical value of a covered path.
pub struct OverlayView {
    pub path: Seq<u8>,
    pub kind: ReadWriteOverlayKind,
}

impl View for ReadWriteOverlayEntry {
    type V = OverlayView;

    open spec fn view(&self) -> OverlayView {
        OverlayView { path: self.path@, kind: self.kind }
    }
}

impl Clone for ReadWriteOverlayEntry {
    fn clone(&self) -> (r: Self)
        ensures
            r@ == self@,
    {
        ReadWriteOverlayEntry { path: self.path.clone(), kind: self.kind }
    }
}

/// The values of a list of covered paths.
pub open spec fn overlay_views(v: Seq<ReadWriteOverlayEntry>) -> Seq<OverlayView> {
    Seq::new(v.len(), |i: int| v[i]@)
}

/// The order of mounts: deeper paths first, and then component by component.
pub open spec fn mounts_before(a: Seq<u8>, b: Seq<u8>) -> bool {
    depth(PathStyle::Unix, a) > depth(PathStyle::Unix, b) || (depth(PathStyle::Unix, a) == depth(
        PathStyle::Unix,
        b,
    ) && dictionary_less(path_key(PathStyle::Unix, a), path_key(PathStyle::Unix, b)))
}

/// A list in mount order with one more entry at its place, behind its equals.
pub open spec fn with_entry(s: Seq<OverlayView>, x: OverlayView) -> Seq<OverlayView>
    decreases s.len(),
{
    if s.len() > 0 && mounts_before(x.path, s.last().path) {
        with_entry(s.drop_last(), x).push(s.last())
    } else {
        s.push(x)
    }
}

/// The entries in mount order; equal ones keep their order.
pub open spec fn in_mount_order(v: Seq<OverlayView>) -> Seq<OverlayView>
    decreases v.len(),
{
    if v.len() == 0 {
        Seq::empty()
    } else {
        with_entry(in_mount_order(v.drop_last()), v.last())
    }
}

/// The place of the first entry for the same path at or behind `from`, or the length.
pub open spec fn place_of_path(s: Seq<OverlayView>, path: Seq<u8>, from: int) -> int
    decreases s.len() - from,
{
    if from >= s.len() {
        s.len() as int
    } else if path_key(PathStyle::Unix, s[from].path) == path_key(PathStyle::Unix, path) {
        from
    } else {
        place_of_path(s, path, from + 1)
    }
}

/// The entries with one path set to a kind: an entry for the path keeps its place and its
/// spelling, and a path without an entry gets one at the end.
pub open spec fn with_kind(
    s: Seq<OverlayView>,
    path: Seq<u8>,
    kind: ReadWriteOverlayKind,
) -> Seq<OverlayView> {
    let at = place_of_path(s, path, 0);
    if at < s.len() {
        s.update(at, OverlayView { path: s[at].path, kind })
    } else {
        s.push(OverlayView { path, kind })
    }
}

/// The entries with some paths set to a kind, one after the other.
pub open spec fn with_kinds(
    s: Seq<OverlayView>,
    paths: Seq<Seq<u8>>,
    kind: ReadWriteOverlayKind,
) -> Seq<OverlayView>
    decreases paths.len(),
{
    if paths.len() == 0 {
        s
    } else {
        with_kind(with_kinds(s, paths.drop_last(), kind), paths.last(), kind)
    }
}

/// The mounts below a writable default: each path once, and denial wins over read-only.
pub open spec fn readwrite_overlays(
    read_only: Seq<Seq<u8>>,
    denied: Seq<Seq<u8>>,
) -> Seq<OverlayView> {
    in_mount_order(
        with_kinds(
            with_kinds(Seq::empty(), read_only, ReadWriteOverlayKind::ReadOnly),
            denied,
            ReadWriteOverlayKind::Deny,
        ),
    )
}

/// The mounts below a read-only default: one for each denied path.
pub open spec fn deny_overlays(denied: Seq<Seq<u8>>) -> Seq<OverlayView> {
    in_mount_order(
        Seq::new(
            denied.len(),
            |i: int| OverlayView { path: denied[i], kind: ReadWriteOverlayKind::Deny },
        ),
    )
}

fn goes_first(a: &SandboxPath, b: &SandboxPath) -> (r: bool)
    ensures
        r == mounts_before(a@, b@),
{
    let x = a.depth(PathStyle::Unix);
    let y = b.depth(PathStyle::Unix);
    if x != y {
        x > y
    } else {
        let j = a.key(PathStyle::Unix);
        let k = b.key(PathStyle::Unix);
        comes_before(&j, &k)
    }
}

fn insert_entry(list: &mut Vec<ReadWriteOverlayEntry>, x: ReadWriteOverlayEntry)
    ensures
        overlay_views(final(list)@) == with_entry(overlay_views(old(list)@), x@),
{
    let ghost s = overlay_views(list@);
    let mut at: usize = list.len();
    assert(s.take(s.len() as int) =~= s);
    assert(with_entry(s.take(at as int), x@) + s.subrange(at as int, s.len() as int) =~= with_entry(
        s,
        x@,
    ));
    while at > 0 && goes_first(&x.path, &list[at - 1].path)
        invariant
            at <= list.len(),
            s == overlay_views(list@),
            with_entry(s.take(at as int), x@) + s.subrange(at as int, s.len() as int)
                == with_entry(s, x@),
        decreases at,
    {
        proof {
            let t = s.take(at as int);
            assert(t.drop_last() =~= s.take(at - 1));
            assert(t.last() == list@[at - 1]@);
            assert(with_entry(s.take(at - 1), x@) + s.subrange(at - 1, s.len() as int)
                =~= with_entry(t, x@) + s.subrange(at as int, s.len() as int));
        }
        at = at - 1;
    }
    proof {
        if at > 0 {
            assert(s.take(at as int).last() == list@[at - 1]@);
        }
        assert(with_entry(s.take(at as int), x@) == s.take(at as int).push(x@));
        assert(s.insert(at as int, x@) =~= s.take(at as int).push(x@) + s.subrange(
            at as int,
            s.len() as int,
        ));
    }
    list.insert(at, x);
    assert(overlay_views(list@) =~= s.insert(at as int, x@));
}

fn sort_entries(entries: &Vec<ReadWriteOverlayEntry>) -> (r: Vec<ReadWriteOverlayEntry>)
    ensures
        overlay_views(r@) == in_mount_order(overlay_views(entries@)),
{
    let mut r: Vec<ReadWriteOverlayEntry> = Vec::new();
    let ghost v = overlay_views(entries@);
    assert(overlay_views(r@) =~= in_mount_order(v.take(0)));
    for i in 0..entries.len()
        invariant
            v == overlay_views(entries@),
            overlay_views(r@) == in_mount_order(v.take(i as int)),
    {
        proof {
            assert(v.take(i + 1).drop_last() =~= v.take(i as int));
            assert(v.take(i + 1).last() == entries@[i as int]@);
        }
        let entry = entries[i].clone();
        insert_entry(&mut r, entry);
    }
    assert(v.take(v.len() as int) =~= v);
    r
}

fn set_kind(list: &mut Vec<ReadWriteOverlayEntry>, path: &SandboxPath, kind: ReadWriteOverlayKind)
    ensures
        overlay_views(final(list)@) == with_kind(overlay_views(old(list)@), path@, kind),
{
    let ghost s = overlay_views(list@);
    let key = path.key(PathStyle::Unix);
    let mut at: usize = 0;
    while at < list.len()
        invariant_except_break
            at <= list.len(),
            s == overlay_views(list@),
            list@ == old(list)@,
            key@ == path_key(PathStyle::Unix, path@),
            place_of_path(s, path@, 0) == place_of_path(s, path@, at as int),
        ensures
            at <= list.len(),
            list@ == old(list)@,
            at == place_of_path(s, path@, 0),
        decreases list.len() - at,
    {
        let k = list[at].path.key(PathStyle::Unix);
        assert(s[at as int].path == list@[at as int]@.path);
        if same_numbers(&k, &key) {
            break;
        }
        at = at + 1;
    }
    if at < list.len() {
        let path = list[at].path.clone();
        let entry = ReadWriteOverlayEntry { path, kind };
        list.set(at, entry);
        assert(overlay_views(list@) =~= s.update(
            at as int,
            OverlayView { path: s[at as int].path, kind },
        ));
    } else {
        let entry = ReadWriteOverlayEntry { path: path.clone(), kind };
        list.push(entry);
        assert(overlay_views(list@) =~= s.push(OverlayView { path: path@, kind }));
    }
}

fn set_kinds(
    list: &mut Vec<ReadWriteOverlayEntry>,
    paths: &Vec<SandboxPath>,
    kind: ReadWriteOverlayKind,
)
    ensures
        overlay_views(final(list)@) == with_kinds(
            overlay_views(old(list)@),
            path_views(paths@),
            kind,
        ),
{
    let ghost s = overlay_views(list@);
    let ghost all = path_views(paths@);
    for i in 0..paths.len()
        invariant
            all == path_views(paths@),
            overlay_views(list@) == with_kinds(s, all.take(i as int), kind),
    {
        proof {
            assert(all.take(i + 1).drop_last() =~= all.take(i as int));
            assert(all.take(i + 1).last() == paths@[i as int]@);
        }
        set_kind(list, &paths[i], kind);
    }
    assert(all.take(all.len() as int) =~= all);
}

/// The mounts below a writable default, in mount order.
pub fn collect_readwrite_overlay_entries(
    read_only_paths: &Vec<SandboxPath>,
    denied_paths: &Vec<SandboxPath>,
) -> (r: Vec<ReadWriteOverlayEntry>)
    ensures
        overlay_views(r@) == readwrite_overlays(
            path_views(read_only_paths@),
            path_views(denied_paths@),
        ),
{
    let mut merged: Vec<ReadWriteOverlayEntry> = Vec::new();
    assert(overlay_views(merged@) =~= Seq::empty());
    set_kinds(&mut merged, read_only_paths, ReadWriteOverlayKind::ReadOnly);
    set_kinds(&mut merged, denied_paths, ReadWriteOverlayKind::Deny);
    sort_entries(&merged)
}

/// The mounts below a read-only default, in mount order.
pub fn collect_deny_overlay_entries(denied_paths: &Vec<SandboxPath>) -> (r: Vec<
    ReadWriteOverlayEntry,
>)
    ensures
        overlay_views(r@) == deny_overlays(path_views(denied_paths@)),
{
    let mut entries: Vec<ReadWriteOverlayEntry> = Vec::new();
    for i in 0..denied_paths.len()
        invariant
            entries.len() == i,
            forall|j: int|
                0 <= j < i ==> (#[trigger] entries@[j])@ == (OverlayView {
                    path: denied_paths@[j]@,
                    kind: ReadWriteOverlayKind::Deny,
                }),
    {
        let path = denied_paths[i].clone();
        entries.push(ReadWriteOverlayEntry { path, kind: ReadWriteOverlayKind::Deny });
    }
    let ghost denied = path_views(denied_paths@);
    assert(overlay_views(entries@) =~= Seq::new(
        denied.len(),
        |i: int| OverlayView { path: denied[i], kind: ReadWriteOverlayKind::Deny },
    ));
    sort_entries(&entries)
}

/// The names that are left when every `..` takes the name in front of it away.
pub open spec fn lexical_names(cs: Seq<ComponentView>) -> Seq<Seq<u8>>
    decreases cs.len(),
{
    if cs.len() == 0 {
        Seq::empty()
    } else {
        let front = lexical_names(cs.drop_last());
        match cs.last() {
            ComponentView::Normal(name) => front.push(name),
            ComponentView::ParentDir => if front.len() > 0 {
                front.drop_last()
            } else {
                front
            },
            _ => front,
        }
    }
}

/// A path that starts at the root.
pub open spec fn is_rooted(cs: Seq<ComponentView>) -> bool {
    cs.len() > 0 && cs[0] == ComponentView::RootDir
}

/// A Unix path with `.` and `..` worked out by its text alone.
pub open spec fn lexical_path(s: Seq<u8>) -> Seq<u8> {
    let cs = components(PathStyle::Unix, s);
    let names = join(lexical_names(cs), seq![0x2fu8]);
    if is_rooted(cs) {
        seq![0x2fu8] + names
    } else {
        names
    }
}

/// Works out `.` and `..` in a Unix path by its text alone.
pub fn lexically_normalize_path(path: &SandboxPath) -> (r: SandboxPath)
    ensures
        r@ == lexical_path(path@),
{
    let cs = path.components(PathStyle::Unix);
    let ghost all = components(PathStyle::Unix, path@);
    let mut names: Vec<Vec<u8>> = Vec::new();
    assert(byte_views(names@) =~= lexical_names(all.take(0)));
    for i in 0..cs.len()
        invariant
            all == component_views(cs@),
            byte_views(names@) == lexical_names(all.take(i as int)),
    {
        proof {
            assert(all.take(i + 1).drop_last() =~= all.take(i as int));
            assert(all.take(i + 1).last() == cs@[i as int]@);
        }
        let ghost before = byte_views(names@);
        match &cs[i] {
            PathComponent::Normal(name) => {
                names.push(copy_bytes(name.as_slice()));
                assert(byte_views(names@) =~= before.push(name@));
            },
            PathComponent::ParentDir => {
                if names.len() > 0 {
                    let _ = names.pop();
                    assert(byte_views(names@) =~= before.drop_last());
                }
            },
            _ => {},
        }
    }
    assert(all.take(all.len() as int) =~= all);
    let mut r: Vec<u8> = Vec::new();
    let ghost list = byte_views(names@);
    let ghost slash = seq![0x2fu8];
    assert(r@ =~= join(list.take(0), slash));
    for i in 0..names.len()
        invariant
            list == byte_views(names@),
            slash == seq![0x2fu8],
            r@ == join(list.take(i as int), slash),
    {
        proof {
            assert(list.take(i + 1).drop_last() =~= list.take(i as int));
            assert(list.take(i + 1).last() == names@[i as int]@);
        }
        let ghost before = r@;
        if i > 0 {
            r.push(0x2f);
            assert(r@ =~= before + slash);
        }
        push_bytes(&mut r, names[i].as_slice());
        if i == 0 {
            assert(r@ =~= list[0]);
        }
    }
    assert(list.take(list.len() as int) =~= list);
    assert(component_views(cs@).len() == cs.len());
    let rooted = cs.len() > 0 && match &cs[0] {
        PathComponent::RootDir => true,
        _ => false,
    };
    assert(cs.len() > 0 ==> all[0] == cs@[0]@);
    if rooted {
        let mut full: Vec<u8> = Vec::new();
        full.push(0x2f);
        assert(full@ =~= slash);
        push_bytes(&mut full, r.as_slice());
        SandboxPath { bytes: full }
    } else {
        SandboxPath { bytes: r }
    }
}

/// A name that a component can have: it is not empty, holds no separator and is not `.` or `..`.
pub open spec fn is_plain_name(name: Seq<u8>) -> bool {
    &&& name.len() > 0
    &&& !name.contains(0x2fu8)
    &&& name != seq![0x2eu8]
    &&& name != seq![0x2eu8, 0x2eu8]
}

/// The components of a path that has only plain names behind its root.
pub open spec fn plain_components(rooted: bool, names: Seq<Seq<u8>>) -> Seq<ComponentView> {
    let tail = Seq::new(names.len(), |i: int| ComponentView::Normal(names[i]));
    if rooted {
        seq![ComponentView::RootDir] + tail
    } else {
        tail
    }
}

proof fn lemma_pieces_hold_no_separator(s: Seq<u8>)
    ensures
        split_path(PathStyle::Unix, false, s).len() > 0,
        forall|i: int|
            0 <= i < split_path(PathStyle::Unix, false, s).len() ==> !(#[trigger] split_path(
                PathStyle::Unix,
                false,
                s,
            )[i]).contains(0x2fu8),
    decreases s.len(),
{
    let pieces = split_path(PathStyle::Unix, false, s);
    if s.len() > 0 {
        let front = split_path(PathStyle::Unix, false, s.drop_last());
        lemma_pieces_hold_no_separator(s.drop_last());
        assert forall|i: int| 0 <= i < pieces.len() implies !(#[trigger] pieces[i]).contains(
            0x2fu8,
        ) by {
            if i < front.len() {
                assert(!front[i].contains(0x2fu8));
            }
            if pieces[i].contains(0x2fu8) {
                let k = choose|k: int| 0 <= k < pieces[i].len() && pieces[i][k] == 0x2fu8;
                if i < front.len() && k < front[i].len() {
                    assert(front[i][k] == 0x2fu8);
                }
            }
        }
    }
}

proof fn lemma_normal_components_are_plain(pieces: Seq<Seq<u8>>)
    requires
        forall|i: int| 0 <= i < pieces.len() ==> !(#[trigger] pieces[i]).contains(0x2fu8),
    ensures
        forall|k: int|
            0 <= k < pieces_components(false, pieces).len() ==> ((#[trigger] pieces_components(
                false,
                pieces,
            )[k]) matches ComponentView::Normal(name) ==> is_plain_name(name)),
        forall|k: int|
            0 <= k < pieces_components(false, pieces).len() ==> !((#[trigger] pieces_components(
                false,
                pieces,
            )[k]) is RootDir),
    decreases pieces.len(),
{
    if pieces.len() > 0 {
        let f = pieces.drop_last();
        assert forall|i: int| 0 <= i < f.len() implies !(#[trigger] f[i]).contains(0x2fu8) by {
            assert(f[i] == pieces[i]);
        }
        lemma_normal_components_are_plain(f);
        let front = pieces_components(false, f);
        let all = pieces_components(false, pieces);
        let last = piece_components(false, pieces.last());
        assert(!pieces[pieces.len() - 1].contains(0x2fu8));
        assert forall|k: int| 0 <= k < all.len() implies ((#[trigger] all[k]) matches
            ComponentView::Normal(name) ==> is_plain_name(name)) && !(all[k] is RootDir) by {
            if k < front.len() {
                assert(all[k] == front[k]);
            } else {
                assert(all[k] == last[k - front.len()]);
            }
        }
    }
}

proof fn lemma_unix_names_are_plain(s: Seq<u8>)
    ensures
        forall|k: int|
            0 <= k < components(PathStyle::Unix, s).len() ==> ((#[trigger] components(
                PathStyle::Unix,
                s,
            )[k]) matches ComponentView::Normal(name) ==> is_plain_name(name)),
{
    let whole = s.subrange(0, s.len() as int);
    let tail = whole.subrange(1, whole.len() as int);
    assert(whole =~= s);
    lemma_pieces_hold_no_separator(whole);
    lemma_pieces_hold_no_separator(tail);
    lemma_normal_components_are_plain(split_path(PathStyle::Unix, false, whole));
    lemma_normal_components_are_plain(split_path(PathStyle::Unix, false, tail));
    let cs = components(PathStyle::Unix, s);
    let of_whole = pieces_components(false, split_path(PathStyle::Unix, false, whole));
    let of_tail = pieces_components(false, split_path(PathStyle::Unix, false, tail));
    assert forall|k: int| 0 <= k < cs.len() implies ((#[trigger] cs[k]) matches
        ComponentView::Normal(name) ==> is_plain_name(name)) by {
        if cs.len() == of_tail.len() + 1 && k > 0 && (s.len() > 0 && (s[0] == 0x2f
            || starts_in_cur_dir(PathStyle::Unix, s))) {
            assert(cs[k] == of_tail[k - 1]);
        } else if !(s.len() > 0 && (s[0] == 0x2f || starts_in_cur_dir(PathStyle::Unix, s))) {
            assert(cs =~= of_whole);
            assert(cs[k] == of_whole[k]);
        }
    }
}

proof fn lemma_lexical_names_are_plain(cs: Seq<ComponentView>)
    requires
        forall|k: int|
            0 <= k < cs.len() ==> ((#[trigger] cs[k]) matches ComponentView::Normal(name)
                ==> is_plain_name(name)),
    ensures
        forall|k: int| 0 <= k < lexical_names(cs).len() ==> is_plain_name(
            #[trigger] lexical_names(cs)[k],
        ),
    decreases cs.len(),
{
    if cs.len() > 0 {
        let f = cs.drop_last();
        assert forall|k: int| 0 <= k < f.len() implies ((#[trigger] f[k]) matches
            ComponentView::Normal(name) ==> is_plain_name(name)) by {
            assert(f[k] == cs[k]);
        }
        lemma_lexical_names_are_plain(f);
        let front = lexical_names(f);
        let names = lexical_names(cs);
        assert(cs[cs.len() - 1] == cs.last());
        assert forall|k: int| 0 <= k < names.len() implies is_plain_name(#[trigger] names[k]) by {
            if k < front.len() {
                assert(is_plain_name(front[k]));
            }
        }
    }
}

proof fn lemma_split_behind_separator(s: Seq<u8>, name: Seq<u8>)
    requires
        !name.contains(0x2fu8),
    ensures
        split_path(PathStyle::Unix, false, s + seq![0x2fu8] + name) == split_path(
            PathStyle::Unix,
            false,
            s,
        ).push(name),
    decreases name.len(),
{
    let whole = s + seq![0x2fu8] + name;
    let pieces = split_path(PathStyle::Unix, false, s);
    if name.len() == 0 {
        assert(whole.drop_last() =~= s);
        assert(whole.last() == 0x2f);
        assert(name =~= Seq::empty());
    } else {
        let shorter = name.drop_last();
        assert(!shorter.contains(0x2fu8)) by {
            if shorter.contains(0x2fu8) {
                let i = choose|i: int| 0 <= i < shorter.len() && shorter[i] == 0x2fu8;
                assert(name[i] == 0x2fu8);
            }
        }
        lemma_split_behind_separator(s, shorter);
        assert(whole.drop_last() =~= s + seq![0x2fu8] + shorter);
        assert(name.contains(name.last()));
        let front = pieces.push(shorter);
        assert(shorter.push(name.last()) =~= name);
        assert(front.update(front.len() - 1, front.last().push(whole.last())) =~= pieces.push(name));
    }
}

proof fn lemma_split_of_one_name(name: Seq<u8>)
    requires
        !name.contains(0x2fu8),
    ensures
        split_path(PathStyle::Unix, false, name) == seq![name],
    decreases name.len(),
{
    if name.len() > 0 {
        let shorter = name.drop_last();
        assert(!shorter.contains(0x2fu8)) by {
            if shorter.contains(0x2fu8) {
                let i = choose|i: int| 0 <= i < shorter.len() && shorter[i] == 0x2fu8;
                assert(name[i] == 0x2fu8);
            }
        }
        lemma_split_of_one_name(shorter);
        assert(name.contains(name.last()));
        assert(shorter.push(name.last()) =~= name);
        assert(seq![shorter].update(0, name) =~= seq![name]);
    } else {
        assert(name =~= Seq::empty());
    }
}

proof fn lemma_pieces_of_joined(names: Seq<Seq<u8>>)
    requires
        forall|k: int| 0 <= k < names.len() ==> is_plain_name(#[trigger] names[k]),
    ensures
        pieces_components(
            false,
            split_path(PathStyle::Unix, false, join(names, seq![0x2fu8])),
        ) == plain_components(false, names),
        names.len() > 0 ==> split_path(PathStyle::Unix, false, join(names, seq![0x2fu8])) == names,
    decreases names.len(),
{
    let slash = seq![0x2fu8];
    let tail = plain_components(false, names);
    if names.len() == 0 {
        let nothing = seq![Seq::<u8>::empty()];
        assert(nothing.drop_last() =~= Seq::empty());
        assert(pieces_components(false, nothing.drop_last()) =~= Seq::empty());
        assert(pieces_components(false, nothing) =~= Seq::empty());
        assert(tail =~= Seq::empty());
    } else {
        let f = names.drop_last();
        assert forall|k: int| 0 <= k < f.len() implies is_plain_name(#[trigger] f[k]) by {
            assert(f[k] == names[k]);
        }
        lemma_pieces_of_joined(f);
        assert(is_plain_name(names[names.len() - 1]));
        if names.len() == 1 {
            lemma_split_of_one_name(names[0]);
            assert(seq![names[0]] =~= names);
            assert(f =~= Seq::empty());
            assert(pieces_components(false, f) =~= Seq::empty());
        } else {
            lemma_split_behind_separator(join(f, slash), names.last());
            assert(f.push(names.last()) =~= names);
        }
        assert(names.last() != seq![0x2eu8] && names.last() != seq![0x2eu8, 0x2eu8]);
        assert(tail =~= plain_components(false, f) + seq![ComponentView::Normal(names.last())]);
        if f.len() == 0 {
            assert(plain_components(false, f) =~= Seq::empty());
        }
    }
}

proof fn lemma_joined_starts_like_first(names: Seq<Seq<u8>>)
    requires
        names.len() > 0,
    ensures
        join(names, seq![0x2fu8]).len() >= names[0].len(),
        forall|i: int|
            0 <= i < names[0].len() ==> #[trigger] join(names, seq![0x2fu8])[i] == names[0][i],
        names.len() > 1 ==> join(names, seq![0x2fu8]).len() > names[0].len() && join(
            names,
            seq![0x2fu8],
        )[names[0].len() as int] == 0x2f,
        names.len() == 1 ==> join(names, seq![0x2fu8]).len() == names[0].len(),
    decreases names.len(),
{
    if names.len() > 1 {
        lemma_joined_starts_like_first(names.drop_last());
    }
}

/// A path whose `.` and `..` were worked out has its root, if there is one, and plain names behind
/// it; working them out again changes nothing.
pub proof fn normalized_paths_are_plain(s: Seq<u8>)
    ensures
        components(PathStyle::Unix, lexical_path(s)) == plain_components(
            is_rooted(components(PathStyle::Unix, s)),
            lexical_names(components(PathStyle::Unix, s)),
        ),
        forall|k: int|
            0 <= k < lexical_names(components(PathStyle::Unix, s)).len() ==> is_plain_name(
                #[trigger] lexical_names(components(PathStyle::Unix, s))[k],
            ),
        lexical_path(lexical_path(s)) == lexical_path(s),
{
    let cs = components(PathStyle::Unix, s);
    let names = lexical_names(cs);
    let joined = join(names, seq![0x2fu8]);
    let r = lexical_path(s);
    lemma_unix_names_are_plain(s);
    lemma_lexical_names_are_plain(cs);
    lemma_pieces_of_joined(names);
    assert(r.subrange(0, r.len() as int) =~= r);
    if is_rooted(cs) {
        assert(r.subrange(1, r.len() as int) =~= joined);
        assert(plain_components(true, names) =~= Seq::<ComponentView>::empty() + seq![
            ComponentView::RootDir,
        ] + plain_components(false, names));
    } else {
        if names.len() > 0 {
            lemma_joined_starts_like_first(names);
            let first = names[0];
            assert(is_plain_name(first));
            assert(joined[0] == first[0]);
            assert(first.contains(first[0]));
            if starts_in_cur_dir(PathStyle::Unix, r) {
                if first.len() > 1 {
                    assert(joined[1] == first[1]);
                    assert(first.contains(first[1]));
                } else {
                    assert(first =~= seq![0x2eu8]);
                }
            }
        }
        assert(plain_components(false, names) =~= Seq::<ComponentView>::empty() + Seq::<
            ComponentView,
        >::empty() + plain_components(false, names));
    }
    lemma_names_of_plain(is_rooted(cs), names);
    assert(is_rooted(plain_components(is_rooted(cs), names)) == is_rooted(cs)) by {
        if !is_rooted(cs) && names.len() > 0 {
            assert(plain_components(false, names)[0] == ComponentView::Normal(names[0]));
        }
    }
}

proof fn lemma_names_of_plain(rooted: bool, names: Seq<Seq<u8>>)
    ensures
        lexical_names(plain_components(rooted, names)) == names,
    decreases names.len(),
{
    let cs = plain_components(rooted, names);
    if names.len() == 0 {
        if rooted {
            assert(cs.drop_last() =~= Seq::empty());
            assert(cs.last() is RootDir);
            assert(lexical_names(cs.drop_last()) =~= Seq::empty());
        }
        assert(lexical_names(cs) =~= names);
    } else {
        lemma_names_of_plain(rooted, names.drop_last());
        assert(cs.drop_last() =~= plain_components(rooted, names.drop_last()));
        assert(cs.last() == ComponentView::Normal(names.last()));
        assert(names.drop_last().push(names.last()) =~= names);
    }
}

/// The path that an overlay is mounted on: the canonical one where the system gives it, and
/// otherwise the absolute one worked out by its text.
pub open spec fn scope_path(absolute: Seq<u8>, canonical: Option<Seq<u8>>) -> Seq<u8> {
    match canonical {
        Some(path) => path,
        None => lexical_path(absolute),
    }
}

/// The path that an overlay is mounted on.
pub fn normalize_scope_path(absolute: &SandboxPath, canonical: Option<&SandboxPath>) -> (r:
    SandboxPath)
    ensures
        r@ == scope_path(
            absolute@,
            match canonical {
                Some(path) => Some(path@),
                None => None,
            },
        ),
{
    match canonical {
        Some(path) => path.clone(),
        None => lexically_normalize_path(absolute),
    }
}

/// Where an overlay would be mounted, and whether something exists there.
#[derive(Debug, PartialEq, Eq)]
pub struct OverlayProbe {
    pub resolved: SandboxPath,
    pub exists: bool,
}

/// The values of a list of observations.
pub open spec fn overlay_probe_views(v: Seq<OverlayProbe>) -> Seq<(Seq<u8>, bool)> {
    Seq::new(v.len(), |i: int| (v[i].resolved@, v[i].exists))
}

/// How messages name the default below which overlays are mounted.
pub open spec fn context_label(default_access: SandboxDefaultAccess) -> Seq<char> {
    match default_access {
        SandboxDefaultAccess::ReadWrite => "default_access=ReadWrite"@,
        SandboxDefaultAccess::ReadOnly => "default_access=ReadOnly with deny overlays"@,
    }
}

/// How messages name the default below which overlays are mounted.
pub fn overlay_context_label(default_access: SandboxDefaultAccess) -> (r: &'static str)
    ensures
        r@ == context_label(default_access),
{
    match default_access {
        SandboxDefaultAccess::ReadWrite => "default_access=ReadWrite",
        SandboxDefaultAccess::ReadOnly => "default_access=ReadOnly with deny overlays",
    }
}

/// The error for a path on which nothing can be mounted.
pub open spec fn missing_overlay(label: Seq<char>, context: Seq<char>, path: Seq<u8>) -> ErrorView {
    ErrorView::InvalidRequest(
        "linux backend requires existing "@ + label + " overlay targets for "@ + context + ": "@
            + display_text(PathStyle::Unix, path),
    )
}

/// The first path on which nothing can be mounted, or the length.
pub open spec fn first_missing(probes: Seq<(Seq<u8>, bool)>, from: int) -> int
    decreases probes.len() - from,
{
    if from >= probes.len() {
        probes.len() as int
    } else if !probes[from].1 {
        from
    } else {
        first_missing(probes, from + 1)
    }
}

/// The paths on which overlays are mounted, or the error for the first that does not exist.
pub open spec fn overlay_targets(
    paths: Seq<Seq<u8>>,
    label: Seq<char>,
    context: Seq<char>,
    probes: Seq<(Seq<u8>, bool)>,
) -> Result<Seq<Seq<u8>>, ErrorView> {
    let at = first_missing(probes, 0);
    if at < probes.len() {
        Err(missing_overlay(label, context, paths[at]))
    } else {
        Ok(Seq::new(probes.len(), |i: int| probes[i].0))
    }
}

/// The value of a list of paths or of the error in its place.
pub open spec fn paths_or_error(r: Result<Vec<SandboxPath>, SandboxError>) -> Result<
    Seq<Seq<u8>>,
    ErrorView,
> {
    match r {
        Ok(paths) => Ok(path_views(paths@)),
        Err(e) => Err(e@),
    }
}

/// The paths on which overlays are mounted; every one of them has to exist. One observation is
/// handed in for each path.
pub fn normalize_existing_overlay_paths(
    paths: &Vec<SandboxPath>,
    label: &str,
    context: &str,
    probes: &Vec<OverlayProbe>,
) -> (r: Result<Vec<SandboxPath>, SandboxError>)
    requires
        paths.len() == probes.len(),
    ensures
        paths_or_error(r) == overlay_targets(
            path_views(paths@),
            label@,
            context@,
            overlay_probe_views(probes@),
        ),
{
    let mut out: Vec<SandboxPath> = Vec::new();
    let ghost v = overlay_probe_views(probes@);
    for i in 0..paths.len()
        invariant
            paths.len() == probes.len(),
            v == overlay_probe_views(probes@),
            out.len() == i,
            forall|j: int| 0 <= j < i ==> (#[trigger] out@[j])@ == v[j].0,
            first_missing(v, 0) == first_missing(v, i as int),
    {
        assert(v[i as int] == (probes@[i as int].resolved@, probes@[i as int].exists));
        if !probes[i].exists {
            let mut message = "linux backend requires existing ".to_owned();
            message.append(label);
            message.append(" overlay targets for ");
            message.append(context);
            message.append(": ");
            message.append(paths[i].display(PathStyle::Unix).as_str());
            assert(path_views(paths@)[i as int] == paths@[i as int]@);
            return Err(SandboxError::InvalidRequest(message));
        }
        let resolved = probes[i].resolved.clone();
        out.push(resolved);
    }
    assert(path_views(out@) =~= Seq::new(v.len(), |i: int| v[i].0));
    Ok(out)
}

/// A list in which no entry has to be mounted before an earlier one.
pub open spec fn is_in_mount_order(s: Seq<OverlayView>) -> bool {
    forall|i: int, j: int|
        0 <= i < j < s.len() ==> !mounts_before((#[trigger] s[j]).path, (#[trigger] s[i]).path)
}

proof fn lemma_mount_order_chains(a: Seq<u8>, b: Seq<u8>, c: Seq<u8>)
    requires
        !mounts_before(b, a),
        mounts_before(c, a),
    ensures
        mounts_before(c, b),
{
    let ka = path_key(PathStyle::Unix, a);
    let kb = path_key(PathStyle::Unix, b);
    let kc = path_key(PathStyle::Unix, c);
    dictionary_order_is_total(ka, kb);
    if depth(PathStyle::Unix, a) == depth(PathStyle::Unix, b) && depth(PathStyle::Unix, c) == depth(
        PathStyle::Unix,
        a,
    ) && ka != kb {
        dictionary_order_is_transitive(kc, ka, kb);
    }
}

proof fn lemma_entry_keeps_order(s: Seq<OverlayView>, x: OverlayView)
    requires
        is_in_mount_order(s),
    ensures
        is_in_mount_order(with_entry(s, x)),
        with_entry(s, x).to_multiset() == s.to_multiset().insert(x),
    decreases s.len(),
{
    broadcast use vstd::seq_lib::group_to_multiset_ensures;

    if s.len() > 0 && mounts_before(x.path, s.last().path) {
        let f = s.drop_last();
        let w = with_entry(f, x);
        let out = w.push(s.last());
        assert forall|i: int, j: int| 0 <= i < j < f.len() implies !mounts_before(
            (#[trigger] f[j]).path,
            (#[trigger] f[i]).path,
        ) by {
            assert(!mounts_before(s[j].path, s[i].path));
        }
        lemma_entry_keeps_order(f, x);
        assert(s =~= f.push(s.last()));
        assert forall|i: int, j: int| 0 <= i < j < out.len() implies !mounts_before(
            (#[trigger] out[j]).path,
            (#[trigger] out[i]).path,
        ) by {
            if j < w.len() {
                assert(!mounts_before(w[j].path, w[i].path));
            } else {
                assert(w.to_multiset().count(w[i]) > 0) by {
                    assert(w.contains(w[i]));
                }
                if w[i] == x {
                    ranking_is_one_way(x.path, s.last().path);
                } else {
                    assert(f.to_multiset().count(w[i]) > 0);
                    assert(f.contains(w[i]));
                    let k = choose|k: int| 0 <= k < f.len() && f[k] == w[i];
                    assert(!mounts_before(s[s.len() - 1].path, s[k].path));
                }
            }
        }
        assert(out.to_multiset() =~= s.to_multiset().insert(x));
    } else {
        let out = s.push(x);
        assert forall|i: int, j: int| 0 <= i < j < out.len() implies !mounts_before(
            (#[trigger] out[j]).path,
            (#[trigger] out[i]).path,
        ) by {
            if j < s.len() {
                assert(!mounts_before(s[j].path, s[i].path));
            } else if i < s.len() - 1 {
                assert(!mounts_before(s[s.len() - 1].path, s[i].path));
                if mounts_before(x.path, s[i].path) {
                    lemma_mount_order_chains(s[i].path, s.last().path, x.path);
                }
            }
        }
    }
}

/// Of two paths at most one has to be mounted before the other.
pub proof fn ranking_is_one_way(a: Seq<u8>, b: Seq<u8>)
    ensures
        !(mounts_before(a, b) && mounts_before(b, a)),
{
    dictionary_order_is_total(path_key(PathStyle::Unix, a), path_key(PathStyle::Unix, b));
}

/// Putting entries in mount order keeps every entry as often as it occurs, and leaves none that
/// has to be mounted before an earlier one: what lies deeper is mounted first.
pub proof fn mount_order_keeps_all_entries(v: Seq<OverlayView>)
    ensures
        is_in_mount_order(in_mount_order(v)),
        in_mount_order(v).to_multiset() == v.to_multiset(),
    decreases v.len(),
{
    broadcast use vstd::seq_lib::group_to_multiset_ensures;

    if v.len() > 0 {
        mount_order_keeps_all_entries(v.drop_last());
        lemma_entry_keeps_order(in_mount_order(v.drop_last()), v.last());
        assert(v =~= v.drop_last().push(v.last()));
    } else {
        assert(in_mount_order(v) =~= v);
    }
}

/// Some entry for this path has this kind.
pub open spec fn has_overlay(
    s: Seq<OverlayView>,
    path: Seq<u8>,
    kind: ReadWriteOverlayKind,
) -> bool {
    exists|k: int|
        0 <= k < s.len() && path_key(PathStyle::Unix, (#[trigger] s[k]).path) == path_key(
            PathStyle::Unix,
            path,
        ) && s[k].kind == kind
}

/// Every path has at most one entry.
pub open spec fn one_entry_per_path(s: Seq<OverlayView>) -> bool {
    forall|i: int, j: int|
        0 <= i < j < s.len() ==> path_key(PathStyle::Unix, (#[trigger] s[i]).path) != path_key(
            PathStyle::Unix,
            (#[trigger] s[j]).path,
        )
}

proof fn lemma_place_of_path(s: Seq<OverlayView>, path: Seq<u8>, from: int)
    requires
        0 <= from <= s.len(),
    ensures
        ({
            let at = place_of_path(s, path, from);
            &&& from <= at <= s.len()
            &&& at < s.len() ==> path_key(PathStyle::Unix, s[at].path) == path_key(
                PathStyle::Unix,
                path,
            )
            &&& forall|k: int|
                from <= k < at ==> path_key(PathStyle::Unix, (#[trigger] s[k]).path) != path_key(
                    PathStyle::Unix,
                    path,
                )
        }),
    decreases s.len() - from,
{
    if from < s.len() && path_key(PathStyle::Unix, s[from].path) != path_key(
        PathStyle::Unix,
        path,
    ) {
        lemma_place_of_path(s, path, from + 1);
    }
}

proof fn lemma_with_kind(s: Seq<OverlayView>, path: Seq<u8>, kind: ReadWriteOverlayKind)
    requires
        one_entry_per_path(s),
    ensures
        one_entry_per_path(with_kind(s, path, kind)),
        has_overlay(with_kind(s, path, kind), path, kind),
        forall|q: Seq<u8>, a: ReadWriteOverlayKind|
            path_key(PathStyle::Unix, q) != path_key(PathStyle::Unix, path) ==> (
            #[trigger] has_overlay(with_kind(s, path, kind), q, a) <==> has_overlay(s, q, a)),
        forall|q: Seq<u8>|
            has_overlay(s, q, kind) ==> #[trigger] has_overlay(with_kind(s, path, kind), q, kind),
{
    let w = with_kind(s, path, kind);
    let at = place_of_path(s, path, 0);
    lemma_place_of_path(s, path, 0);
    assert(path_key(PathStyle::Unix, w[at].path) == path_key(PathStyle::Unix, path));
    assert forall|i: int, j: int| 0 <= i < j < w.len() implies path_key(
        PathStyle::Unix,
        (#[trigger] w[i]).path,
    ) != path_key(PathStyle::Unix, (#[trigger] w[j]).path) by {
        if j < s.len() {
            assert(path_key(PathStyle::Unix, s[i].path) != path_key(PathStyle::Unix, s[j].path));
        } else {
            assert(path_key(PathStyle::Unix, s[i].path) != path_key(PathStyle::Unix, path));
        }
    }
    assert forall|q: Seq<u8>, a: ReadWriteOverlayKind|
        path_key(PathStyle::Unix, q) != path_key(PathStyle::Unix, path) implies (
    #[trigger] has_overlay(w, q, a) <==> has_overlay(s, q, a)) by {
        if has_overlay(s, q, a) {
            let k = choose|k: int|
                0 <= k < s.len() && path_key(PathStyle::Unix, (#[trigger] s[k]).path) == path_key(
                    PathStyle::Unix,
                    q,
                ) && s[k].kind == a;
            assert(w[k] == s[k]);
        }
        if has_overlay(w, q, a) {
            let k = choose|k: int|
                0 <= k < w.len() && path_key(PathStyle::Unix, (#[trigger] w[k]).path) == path_key(
                    PathStyle::Unix,
                    q,
                ) && w[k].kind == a;
            assert(w[k] == s[k]);
        }
    }
    assert forall|q: Seq<u8>| has_overlay(s, q, kind) implies #[trigger] has_overlay(
        w,
        q,
        kind,
    ) by {
        let k = choose|k: int|
            0 <= k < s.len() && path_key(PathStyle::Unix, (#[trigger] s[k]).path) == path_key(
                PathStyle::Unix,
                q,
            ) && s[k].kind == kind;
        assert(path_key(PathStyle::Unix, w[k].path) == path_key(PathStyle::Unix, q));
    }
}

/// Some path of the list is the same path as `q`.
pub open spec fn names_path(paths: Seq<Seq<u8>>, q: Seq<u8>) -> bool {
    exists|i: int|
        0 <= i < paths.len() && path_key(PathStyle::Unix, #[trigger] paths[i]) == path_key(
            PathStyle::Unix,
            q,
        )
}

proof fn lemma_with_kinds(s: Seq<OverlayView>, paths: Seq<Seq<u8>>, kind: ReadWriteOverlayKind)
    requires
        one_entry_per_path(s),
    ensures
        one_entry_per_path(with_kinds(s, paths, kind)),
        forall|q: Seq<u8>|
            names_path(paths, q) ==> #[trigger] has_overlay(with_kinds(s, paths, kind), q, kind),
        forall|q: Seq<u8>, a: ReadWriteOverlayKind|
            !names_path(paths, q) ==> (#[trigger] has_overlay(with_kinds(s, paths, kind), q, a)
                <==> has_overlay(s, q, a)),
    decreases paths.len(),
{
    if paths.len() > 0 {
        let f = paths.drop_last();
        let front = with_kinds(s, f, kind);
        let w = with_kinds(s, paths, kind);
        lemma_with_kinds(s, f, kind);
        lemma_with_kind(front, paths.last(), kind);
        assert forall|q: Seq<u8>| names_path(paths, q) implies #[trigger] has_overlay(
            w,
            q,
            kind,
        ) by {
            if path_key(PathStyle::Unix, paths.last()) == path_key(PathStyle::Unix, q) {
                assert(has_overlay(w, paths.last(), kind));
                let k = choose|k: int|
                    0 <= k < w.len() && path_key(PathStyle::Unix, (#[trigger] w[k]).path)
                        == path_key(PathStyle::Unix, paths.last()) && w[k].kind == kind;
                assert(path_key(PathStyle::Unix, w[k].path) == path_key(PathStyle::Unix, q));
            } else {
                let i = choose|i: int|
                    0 <= i < paths.len() && path_key(PathStyle::Unix, #[trigger] paths[i])
                        == path_key(PathStyle::Unix, q);
                assert(f[i] == paths[i]);
                assert(names_path(f, q));
                assert(has_overlay(front, q, kind));
            }
        }
        assert forall|q: Seq<u8>, a: ReadWriteOverlayKind| !names_path(paths, q) implies (
        #[trigger] has_overlay(w, q, a) <==> has_overlay(s, q, a)) by {
            assert(paths[paths.len() - 1] == paths.last());
            assert(!names_path(f, q)) by {
                if names_path(f, q) {
                    let i = choose|i: int|
                        0 <= i < f.len() && path_key(PathStyle::Unix, #[trigger] f[i]) == path_key(
                            PathStyle::Unix,
                            q,
                        );
                    assert(paths[i] == f[i]);
                }
            }
            assert(has_overlay(front, q, a) <==> has_overlay(s, q, a));
        }
    }
}

proof fn lemma_order_keeps_overlays(s: Seq<OverlayView>, q: Seq<u8>, kind: ReadWriteOverlayKind)
    ensures
        has_overlay(in_mount_order(s), q, kind) <==> has_overlay(s, q, kind),
{
    broadcast use vstd::seq_lib::group_to_multiset_ensures;

    let t = in_mount_order(s);
    mount_order_keeps_all_entries(s);
    if has_overlay(s, q, kind) {
        let k = choose|k: int|
            0 <= k < s.len() && path_key(PathStyle::Unix, (#[trigger] s[k]).path) == path_key(
                PathStyle::Unix,
                q,
            ) && s[k].kind == kind;
        assert(s.contains(s[k]));
        assert(t.to_multiset().count(s[k]) > 0);
        assert(t.contains(s[k]));
        let j = choose|j: int| 0 <= j < t.len() && t[j] == s[k];
        assert(path_key(PathStyle::Unix, t[j].path) == path_key(PathStyle::Unix, q));
    }
    if has_overlay(t, q, kind) {
        let k = choose|k: int|
            0 <= k < t.len() && path_key(PathStyle::Unix, (#[trigger] t[k]).path) == path_key(
                PathStyle::Unix,
                q,
            ) && t[k].kind == kind;
        assert(t.contains(t[k]));
        assert(s.to_multiset().count(t[k]) > 0);
        assert(s.contains(t[k]));
        let j = choose|j: int| 0 <= j < s.len() && s[j] == t[k];
        assert(path_key(PathStyle::Unix, s[j].path) == path_key(PathStyle::Unix, q));
    }
}

/// Below a writable default every denied path is denied, every other read-only path is made
/// read-only, and nothing else is covered.
pub proof fn denial_wins_over_read_only(
    read_only: Seq<Seq<u8>>,
    denied: Seq<Seq<u8>>,
    q: Seq<u8>,
)
    ensures
        has_overlay(readwrite_overlays(read_only, denied), q, ReadWriteOverlayKind::Deny)
            <==> names_path(denied, q),
        has_overlay(readwrite_overlays(read_only, denied), q, ReadWriteOverlayKind::ReadOnly)
            <==> names_path(read_only, q) && !names_path(denied, q),
{
    let none = Seq::<OverlayView>::empty();
    let first = with_kinds(none, read_only, ReadWriteOverlayKind::ReadOnly);
    let both = with_kinds(first, denied, ReadWriteOverlayKind::Deny);
    lemma_with_kinds(none, read_only, ReadWriteOverlayKind::ReadOnly);
    lemma_with_kinds(first, denied, ReadWriteOverlayKind::Deny);
    lemma_order_keeps_overlays(both, q, ReadWriteOverlayKind::Deny);
    lemma_order_keeps_overlays(both, q, ReadWriteOverlayKind::ReadOnly);
    lemma_one_kind(both, q);
    lemma_one_kind(first, q);
    assert(!has_overlay(none, q, ReadWriteOverlayKind::ReadOnly));
    assert(!has_overlay(none, q, ReadWriteOverlayKind::Deny));
    if names_path(denied, q) {
        assert(has_overlay(both, q, ReadWriteOverlayKind::Deny));
    } else {
        assert(has_overlay(both, q, ReadWriteOverlayKind::Deny) <==> has_overlay(
            first,
            q,
            ReadWriteOverlayKind::Deny,
        ));
        assert(has_overlay(both, q, ReadWriteOverlayKind::ReadOnly) <==> has_overlay(
            first,
            q,
            ReadWriteOverlayKind::ReadOnly,
        ));
        if names_path(read_only, q) {
            assert(has_overlay(first, q, ReadWriteOverlayKind::ReadOnly));
        } else {
            assert(has_overlay(first, q, ReadWriteOverlayKind::Deny) <==> has_overlay(
                none,
                q,
                ReadWriteOverlayKind::Deny,
            ));
            assert(has_overlay(first, q, ReadWriteOverlayKind::ReadOnly) <==> has_overlay(
                none,
                q,
                ReadWriteOverlayKind::ReadOnly,
            ));
        }
    }
}

/// Below a read-only default every denied path is denied, and nothing else is covered.
pub proof fn only_denied_paths_are_covered(denied: Seq<Seq<u8>>, q: Seq<u8>)
    ensures
        has_overlay(deny_overlays(denied), q, ReadWriteOverlayKind::Deny) <==> names_path(denied, q),
        !has_overlay(deny_overlays(denied), q, ReadWriteOverlayKind::ReadOnly),
{
    let s = Seq::new(
        denied.len(),
        |i: int| OverlayView { path: denied[i], kind: ReadWriteOverlayKind::Deny },
    );
    lemma_order_keeps_overlays(s, q, ReadWriteOverlayKind::Deny);
    lemma_order_keeps_overlays(s, q, ReadWriteOverlayKind::ReadOnly);
    if names_path(denied, q) {
        let i = choose|i: int|
            0 <= i < denied.len() && path_key(PathStyle::Unix, #[trigger] denied[i]) == path_key(
                PathStyle::Unix,
                q,
            );
        assert(s[i].path == denied[i]);
    }
    if has_overlay(s, q, ReadWriteOverlayKind::Deny) {
        let k = choose|k: int|
            0 <= k < s.len() && path_key(PathStyle::Unix, (#[trigger] s[k]).path) == path_key(
                PathStyle::Unix,
                q,
            ) && s[k].kind == ReadWriteOverlayKind::Deny;
        assert(path_key(PathStyle::Unix, denied[k]) == path_key(PathStyle::Unix, q));
    }
}

proof fn lemma_one_kind(s: Seq<OverlayView>, q: Seq<u8>)
    requires
        one_entry_per_path(s),
    ensures
        !(has_overlay(s, q, ReadWriteOverlayKind::Deny) && has_overlay(
            s,
            q,
            ReadWriteOverlayKind::ReadOnly,
        )),
{
    if has_overlay(s, q, ReadWriteOverlayKind::Deny) && has_overlay(
        s,
        q,
        ReadWriteOverlayKind::ReadOnly,
    ) {
        let a = choose|k: int|
            0 <= k < s.len() && path_key(PathStyle::Unix, (#[trigger] s[k]).path) == path_key(
                PathStyle::Unix,
                q,
            ) && s[k].kind == ReadWriteOverlayKind::Deny;
        let b = choose|k: int|
            0 <= k < s.len() && path_key(PathStyle::Unix, (#[trigger] s[k]).path) == path_key(
                PathStyle::Unix,
                q,
            ) && s[k].kind == ReadWriteOverlayKind::ReadOnly;
        if a < b {
            assert(path_key(PathStyle::Unix, s[a].path) != path_key(PathStyle::Unix, s[b].path));
        } else {
            assert(path_key(PathStyle::Unix, s[b].path) != path_key(PathStyle::Unix, s[a].path));
        }
    }
}

/// Overlays are mounted from the deepest path up, so that none hides one that is still to come;
/// those for paths of one depth come by their keys.
pub proof fn deeper_paths_are_mounted_first(v: Seq<OverlayView>, i: int, j: int)
    requires
        0 <= i < j < in_mount_order(v).len(),
    ensures
        components(PathStyle::Unix, in_mount_order(v)[i].path).len() >= components(
            PathStyle::Unix,
            in_mount_order(v)[j].path,
        ).len(),
        components(PathStyle::Unix, in_mount_order(v)[i].path).len() == components(
            PathStyle::Unix,
            in_mount_order(v)[j].path,
        ).len() ==> !dictionary_less(
            path_key(PathStyle::Unix, in_mount_order(v)[j].path),
            path_key(PathStyle::Unix, in_mount_order(v)[i].path),
        ),
{
    mount_order_keeps_all_entries(v);
}

/// A policy's overlay targets are accepted exactly where all of them exist, and are then what was
/// resolved for them, in their order. Else the first that is missing is named.
pub proof fn missing_targets_are_refused(
    paths: Seq<Seq<u8>>,
    label: Seq<char>,
    context: Seq<char>,
    probes: Seq<(Seq<u8>, bool)>,
)
    requires
        paths.len() == probes.len(),
    ensures
        ({
            let r = overlay_targets(paths, label, context, probes);
            &&& r is Ok <==> forall|i: int| 0 <= i < probes.len() ==> (#[trigger] probes[i]).1
            &&& r matches Ok(targets) ==> targets.len() == probes.len() && forall|i: int|
                0 <= i < probes.len() ==> (#[trigger] targets[i]) == probes[i].0
            &&& r matches Err(e) ==> exists|i: int|
                0 <= i < probes.len() && !(#[trigger] probes[i]).1 && (forall|j: int|
                    0 <= j < i ==> (#[trigger] probes[j]).1) && e == ErrorView::InvalidRequest(
                    "linux backend requires existing "@ + label + " overlay targets for "@ + context
                        + ": "@ + display_text(PathStyle::Unix, paths[i]),
                )
        }),
{
    lemma_first_missing_is_first(probes, 0);
}

proof fn lemma_first_missing_is_first(probes: Seq<(Seq<u8>, bool)>, from: int)
    requires
        0 <= from <= probes.len(),
    ensures
        from <= first_missing(probes, from) <= probes.len(),
        forall|i: int| from <= i < first_missing(probes, from) ==> (#[trigger] probes[i]).1,
        first_missing(probes, from) < probes.len() ==> !probes[first_missing(probes, from)].1,
    decreases probes.len() - from,
{
    if from < probes.len() && probes[from].1 {
        lemma_first_missing_is_first(probes, from + 1);
    }
}

/// What a path is taken for in a scope: what it resolves to, or else itself with its dots worked
/// out.
pub proof fn scopes_prefer_what_exists(absolute: Seq<u8>, canonical: Seq<u8>)
    ensures
        scope_path(absolute, Some(canonical)) == canonical,
        scope_path(absolute, None) == lexical_path(absolute),
{
}

/// Working out dots goes by components: a name is added, `..` takes away the last name, and nothing
/// leads above the start.
pub proof fn dots_are_worked_out_in_order(cs: Seq<ComponentView>, name: Seq<u8>)
    ensures
        lexical_names(cs.push(ComponentView::Normal(name))) == lexical_names(cs).push(name),
        lexical_names(cs.push(ComponentView::Normal(name)).push(ComponentView::ParentDir))
            == lexical_names(cs),
        lexical_names(cs.push(ComponentView::CurDir)) == lexical_names(cs),
        lexical_names(seq![ComponentView::RootDir]).len() == 0,
        lexical_names(cs).len() == 0 ==> lexical_names(
            cs.push(ComponentView::ParentDir),
        ).len() == 0,
{
    let n = cs.push(ComponentView::Normal(name));
    assert(n.drop_last() =~= cs);
    let up = n.push(ComponentView::ParentDir);
    assert(up.drop_last() =~= n);
    assert(up.last() == ComponentView::ParentDir);
    assert(n.last() == ComponentView::Normal(name));
    assert(lexical_names(n) == lexical_names(cs).push(name));
    assert(lexical_names(n).drop_last() =~= lexical_names(cs));
    assert(lexical_names(up) == lexical_names(n).drop_last());
    assert(cs.push(ComponentView::CurDir).drop_last() =~= cs);
    assert(cs.push(ComponentView::ParentDir).drop_last() =~= cs);
    let root = seq![ComponentView::RootDir];
    assert(root.drop_last() =~= Seq::empty());
    assert(lexical_names(root.drop_last()).len() == 0);
}

/// How the default of a policy is named where a target of it is missing.
pub proof fn defaults_are_named()
    ensures
        context_label(SandboxDefaultAccess::ReadWrite) == "default_access=ReadWrite"@,
        context_label(SandboxDefaultAccess::ReadOnly)
            == "default_access=ReadOnly with deny overlays"@,
{
}

/// A path whose dots are worked out starts at the root exactly where it did before.
pub proof fn rooted_paths_stay_rooted(s: Seq<u8>)
    requires
        s.len() > 0,
    ensures
        s[0] == 0x2f ==> lexical_path(s).len() > 0 && lexical_path(s)[0] == 0x2f,
        s[0] != 0x2f ==> lexical_path(s).len() == 0 || lexical_path(s)[0] != 0x2f,
{
    let u = PathStyle::Unix;
    let cs = components(u, s);
    assert(s.subrange(0, s.len() as int) =~= s);
    normalized_paths_are_plain(s);
    if s[0] == 0x2f {
        assert(cs[0] == ComponentView::RootDir);
        assert(is_rooted(cs));
    } else {
        let names = lexical_names(cs);
        lemma_unix_pieces_have_no_root(split_path(u, false, s));
        lemma_unix_pieces_have_no_root(
            split_path(u, false, s.subrange(1, s.len() as int)),
        );
        assert(!is_rooted(cs));
        if names.len() > 0 {
            assert(is_plain_name(names[0]));
            lemma_joined_starts_like_first(names);
            if lexical_path(s)[0] == 0x2f {
                assert(names[0].contains(names[0][0]));
            }
        }
    }
}

proof fn lemma_unix_pieces_have_no_root(pieces: Seq<Seq<u8>>)
    ensures
        forall|k: int|
            0 <= k < pieces_components(false, pieces).len() ==> !((#[trigger] pieces_components(
                false,
                pieces,
            )[k]) is RootDir),
    decreases pieces.len(),
{
    if pieces.len() > 0 {
        lemma_unix_pieces_have_no_root(pieces.drop_last());
    }
}

/// No path is covered twice below a writable default, however often the lists name it; below a
/// read-only one there are as many covers as denied paths are listed.
pub proof fn no_path_is_covered_twice(
    read_only: Seq<Seq<u8>>,
    denied: Seq<Seq<u8>>,
    i: int,
    j: int,
)
    ensures
        0 <= i < j < readwrite_overlays(read_only, denied).len() ==> path_key(
            PathStyle::Unix,
            readwrite_overlays(read_only, denied)[i].path,
        ) != path_key(PathStyle::Unix, readwrite_overlays(read_only, denied)[j].path),
        deny_overlays(denied).len() == denied.len(),
{
    broadcast use vstd::seq_lib::group_to_multiset_ensures;

    let none = Seq::<OverlayView>::empty();
    let first = with_kinds(none, read_only, ReadWriteOverlayKind::ReadOnly);
    let both = with_kinds(first, denied, ReadWriteOverlayKind::Deny);
    lemma_with_kinds(none, read_only, ReadWriteOverlayKind::ReadOnly);
    lemma_with_kinds(first, denied, ReadWriteOverlayKind::Deny);
    let t = in_mount_order(both);
    mount_order_keeps_all_entries(both);
    assert(both.no_duplicates()) by {
        assert forall|a: int, b: int| 0 <= a < both.len() && 0 <= b < both.len() && a != b implies both[a]
            != both[b] by {
            if a < b {
                assert(path_key(PathStyle::Unix, both[a].path) != path_key(
                    PathStyle::Unix,
                    both[b].path,
                ));
            } else {
                assert(path_key(PathStyle::Unix, both[b].path) != path_key(
                    PathStyle::Unix,
                    both[a].path,
                ));
            }
        }
    }
    both.lemma_multiset_has_no_duplicates();
    t.lemma_multiset_has_no_duplicates_conv();
    if 0 <= i < j < t.len() {
        assert(t.contains(t[i]) && t.contains(t[j]));
        assert(both.to_multiset().count(t[i]) > 0 && both.to_multiset().count(t[j]) > 0);
        assert(both.contains(t[i]) && both.contains(t[j]));
        let a = choose|a: int| 0 <= a < both.len() && both[a] == t[i];
        let b = choose|b: int| 0 <= b < both.len() && both[b] == t[j];
        assert(t[i] != t[j]);
        if a < b {
            assert(path_key(PathStyle::Unix, both[a].path) != path_key(
                PathStyle::Unix,
                both[b].path,
            ));
        } else {
            assert(path_key(PathStyle::Unix, both[b].path) != path_key(
                PathStyle::Unix,
                both[a].path,
            ));
        }
    }
    let d = Seq::new(
        denied.len(),
        |k: int| OverlayView { path: denied[k], kind: ReadWriteOverlayKind::Deny },
    );
    mount_order_keeps_all_entries(d);
    assert(in_mount_order(d).to_multiset().len() == d.to_multiset().len());
    assert(in_mount_order(d).len() == d.len());
}

} // verus!
