//! What paths are made of, told from their bytes.
use vstd::prelude::*;

use crate::bytes::{
    dictionary_less, dictionary_order_is_total, is_letter, lower_bytes, upper_byte,
};
use crate::manager::canonical_form;
use crate::path::{
    component_key, component_text, components, find_separator, is_below, is_separator, is_verbatim,
    joined_components, key_bytes, needs_separator, path_key, piece_components, pieces_components, prefix_of, replace_surrogates,
    same_component, spelled_components, split_path, textual, with_components, with_part, ComponentView, PathStyle,
    PrefixView,
};
use crate::text::join;

verus! {

/// A name of a file on Unix: not empty, without a slash, and neither of the two dots.
pub open spec fn is_unix_name(name: Seq<u8>) -> bool {
    &&& name.len() > 0
    &&& !name.contains(0x2fu8)
    &&& name != seq![0x2eu8]
    &&& name != seq![0x2eu8, 0x2eu8]
}

/// A name of a file on Windows, too: without a backslash either.
pub open spec fn is_name(name: Seq<u8>) -> bool {
    is_unix_name(name) && !name.contains(0x5cu8)
}

/// A path and another one behind a separator.
pub open spec fn below(dir: Seq<u8>, separator: u8, name: Seq<u8>) -> Seq<u8> {
    dir.push(separator) + name
}

/// The pieces of two texts with a separator between them are those of the one and of the other.
pub proof fn pieces_end_at_separators(
    style: PathStyle,
    verbatim: bool,
    a: Seq<u8>,
    b: Seq<u8>,
    separator: u8,
)
    requires
        is_separator(style, verbatim, separator),
    ensures
        split_path(style, verbatim, below(a, separator, b)) == split_path(style, verbatim, a)
            + split_path(style, verbatim, b),
        split_path(style, verbatim, b).len() > 0,
    decreases b.len(),
{
    let s = below(a, separator, b);
    if b.len() == 0 {
        assert(s =~= a.push(separator));
        assert(s.drop_last() =~= a);
        assert(split_path(style, verbatim, s) =~= split_path(style, verbatim, a) + split_path(
            style,
            verbatim,
            b,
        ));
    } else {
        let f = b.drop_last();
        pieces_end_at_separators(style, verbatim, a, f, separator);
        assert(s.drop_last() =~= below(a, separator, f));
        assert(s.last() == b.last());
        let front = split_path(style, verbatim, a);
        let back = split_path(style, verbatim, f);
        let both = front + back;
        assert(both.last() == back.last());
        if is_separator(style, verbatim, b.last()) {
            assert(both.push(Seq::empty()) =~= front + back.push(Seq::empty()));
        } else {
            assert(both.update(both.len() - 1, both.last().push(b.last())) =~= front + back.update(
                back.len() - 1,
                back.last().push(b.last()),
            ));
        }
    }
}

/// A text without a separator is one piece.
pub proof fn plain_texts_are_one_piece(style: PathStyle, verbatim: bool, s: Seq<u8>)
    requires
        forall|i: int| 0 <= i < s.len() ==> !is_separator(style, verbatim, #[trigger] s[i]),
    ensures
        split_path(style, verbatim, s) == seq![s],
    decreases s.len(),
{
    if s.len() == 0 {
        assert(s =~= Seq::empty());
    } else {
        let f = s.drop_last();
        assert forall|i: int| 0 <= i < f.len() implies !is_separator(
            style,
            verbatim,
            #[trigger] f[i],
        ) by {
            assert(f[i] == s[i]);
        }
        plain_texts_are_one_piece(style, verbatim, f);
        assert(!is_separator(style, verbatim, s[s.len() - 1]));
        assert(f.push(s.last()) =~= s);
        assert(split_path(style, verbatim, s) =~= seq![s]);
    }
}

/// Pieces become components one by one.
pub proof fn pieces_become_components_one_by_one(
    verbatim: bool,
    a: Seq<Seq<u8>>,
    b: Seq<Seq<u8>>,
    piece: Seq<u8>,
)
    ensures
        pieces_components(verbatim, a + b) == pieces_components(verbatim, a) + pieces_components(
            verbatim,
            b,
        ),
        pieces_components(verbatim, seq![piece]) == piece_components(verbatim, piece),
    decreases b.len(),
{
    let one = seq![piece];
    assert(one.drop_last() =~= Seq::empty());
    assert(pieces_components(verbatim, one.drop_last()) =~= Seq::empty());
    assert(pieces_components(verbatim, one) =~= piece_components(verbatim, piece));
    if b.len() == 0 {
        assert(a + b =~= a);
        assert(pieces_components(verbatim, a) + pieces_components(verbatim, b)
            =~= pieces_components(verbatim, a));
    } else {
        let f = b.drop_last();
        pieces_become_components_one_by_one(verbatim, a, f, piece);
        assert((a + b).drop_last() =~= a + f);
        assert((a + b).last() == b.last());
        assert(pieces_components(verbatim, a + b) =~= pieces_components(verbatim, a)
            + pieces_components(verbatim, b));
    }
}

/// What a piece between separators stands for: nothing where it is empty or the dot of the same
/// directory, the parent where it is two dots, and else a name.
pub proof fn pieces_stand_for_names(name: Seq<u8>)
    requires
        is_unix_name(name),
    ensures
        piece_components(false, name) == seq![ComponentView::Normal(name)],
        piece_components(true, name) == seq![ComponentView::Normal(name)],
        piece_components(false, Seq::empty()).len() == 0,
        piece_components(false, seq![0x2eu8]).len() == 0,
        piece_components(false, seq![0x2eu8, 0x2eu8]) == seq![ComponentView::ParentDir],
{
    assert(seq![0x2eu8, 0x2eu8].len() != seq![0x2eu8].len());
}

proof fn lemma_unix_join(dir: Seq<u8>, b: Seq<u8>)
    requires
        dir.len() > 0,
    ensures
        components(PathStyle::Unix, below(dir, 0x2f, b)) == components(PathStyle::Unix, dir)
            + pieces_components(false, split_path(PathStyle::Unix, false, b)),
{
    let u = PathStyle::Unix;
    let s = below(dir, 0x2f, b);
    let tail = dir.subrange(1, dir.len() as int);
    assert(s.subrange(0, s.len() as int) =~= s);
    assert(dir.subrange(0, dir.len() as int) =~= dir);
    assert(s.subrange(1, s.len() as int) =~= below(tail, 0x2f, b));
    pieces_end_at_separators(u, false, dir, b, 0x2f);
    pieces_end_at_separators(u, false, tail, b, 0x2f);
    pieces_become_components_one_by_one(
        false,
        split_path(u, false, dir),
        split_path(u, false, b),
        b,
    );
    pieces_become_components_one_by_one(
        false,
        split_path(u, false, tail),
        split_path(u, false, b),
        b,
    );
    assert(s[0] == dir[0]);
    assert(s[1] == if dir.len() > 1 {
        dir[1]
    } else {
        0x2f
    });
    assert(components(u, s) =~= components(u, dir) + pieces_components(
        false,
        split_path(u, false, b),
    ));
}

/// The components of a Unix path, one by one from its start: a slash alone is the root, and behind
/// a slash a name adds that name, two dots add the parent, and one dot or nothing adds nothing.
pub proof fn unix_paths_grow_by_their_names(dir: Seq<u8>, name: Seq<u8>)
    requires
        dir.len() > 0,
        is_unix_name(name),
    ensures
        components(PathStyle::Unix, below(dir, 0x2f, name)) == components(
            PathStyle::Unix,
            dir,
        ).push(ComponentView::Normal(name)),
        components(PathStyle::Unix, below(dir, 0x2f, seq![0x2eu8, 0x2eu8])) == components(
            PathStyle::Unix,
            dir,
        ).push(ComponentView::ParentDir),
        components(PathStyle::Unix, below(dir, 0x2f, seq![0x2eu8])) == components(
            PathStyle::Unix,
            dir,
        ),
        components(PathStyle::Unix, dir.push(0x2f)) == components(PathStyle::Unix, dir),
        components(PathStyle::Unix, seq![0x2fu8]) == seq![ComponentView::RootDir],
        components(PathStyle::Unix, seq![0x2fu8] + name) == seq![
            ComponentView::RootDir,
            ComponentView::Normal(name),
        ],
        components(PathStyle::Unix, name) == seq![ComponentView::Normal(name)],
        components(PathStyle::Unix, Seq::empty()).len() == 0,
{
    let u = PathStyle::Unix;
    let dots = seq![0x2eu8, 0x2eu8];
    let dot = seq![0x2eu8];
    let none = Seq::<u8>::empty();
    assert forall|i: int| 0 <= i < name.len() implies !is_separator(
        u,
        false,
        #[trigger] name[i],
    ) by {
        assert(name.contains(name[i]));
    }
    plain_texts_are_one_piece(u, false, name);
    plain_texts_are_one_piece(u, false, dots);
    plain_texts_are_one_piece(u, false, dot);
    plain_texts_are_one_piece(u, false, none);
    pieces_stand_for_names(name);
    pieces_become_components_one_by_one(false, Seq::empty(), Seq::empty(), name);
    pieces_become_components_one_by_one(false, Seq::empty(), Seq::empty(), dots);
    pieces_become_components_one_by_one(false, Seq::empty(), Seq::empty(), dot);
    pieces_become_components_one_by_one(false, Seq::empty(), Seq::empty(), none);
    lemma_unix_join(dir, name);
    lemma_unix_join(dir, dots);
    lemma_unix_join(dir, dot);
    lemma_unix_join(dir, none);
    let c = components(u, dir);
    assert(c + seq![ComponentView::Normal(name)] =~= c.push(ComponentView::Normal(name)));
    assert(c + seq![ComponentView::ParentDir] =~= c.push(ComponentView::ParentDir));
    assert(c + Seq::<ComponentView>::empty() =~= c);
    assert(pieces_components(false, seq![dot]) =~= Seq::empty());
    assert(pieces_components(false, seq![none]) =~= Seq::empty());
    assert(below(dir, 0x2f, none) =~= dir.push(0x2f));
    let root = seq![0x2fu8];
    assert(root.subrange(0, 1) =~= root);
    assert(root.subrange(1, 1) =~= none);
    assert(components(u, root) =~= seq![ComponentView::RootDir]);
    let first = root + name;
    assert(first.subrange(0, first.len() as int) =~= first);
    assert(first.subrange(1, first.len() as int) =~= name);
    assert(components(u, first) =~= seq![ComponentView::RootDir, ComponentView::Normal(name)]);
    assert(name.subrange(0, name.len() as int) =~= name);
    assert(!is_separator(u, false, name[0]));
    if name[0] == 0x2e && name.len() == 1 {
        assert(name =~= dot);
    }
    if name.len() > 1 {
        assert(!is_separator(u, false, name[1]));
    }
    assert(components(u, name) =~= seq![ComponentView::Normal(name)]);
    assert(none.subrange(0, 0) =~= none);
    assert(components(u, none) =~= Seq::empty());
}

proof fn lemma_name_has_no_separator(style: PathStyle, name: Seq<u8>)
    requires
        is_name(name),
    ensures
        forall|i: int, verbatim: bool|
            0 <= i < name.len() ==> !#[trigger] is_separator(style, verbatim, name[i]),
{
    assert forall|i: int, verbatim: bool| 0 <= i < name.len() implies !#[trigger] is_separator(
        style,
        verbatim,
        name[i],
    ) by {
        assert(name.contains(name[i]));
    }
}

/// What a directory holds lies below it, and not the other way round; two names in it lie below
/// each other only where they are the same, and a path that starts with the same letters is not
/// below.
pub proof fn directories_hold_what_is_below(dir: Seq<u8>, name: Seq<u8>, other: Seq<u8>)
    requires
        dir.len() > 0,
        is_unix_name(name),
        is_unix_name(other),
    ensures
        is_below(PathStyle::Unix, below(dir, 0x2f, name), dir),
        !is_below(PathStyle::Unix, dir, below(dir, 0x2f, name)),
        is_below(PathStyle::Unix, below(dir, 0x2f, name), below(dir, 0x2f, other)) <==> name
            == other,
        is_below(PathStyle::Unix, below(dir, 0x2f, name), seq![0x2fu8]) <==> is_below(
            PathStyle::Unix,
            dir,
            seq![0x2fu8],
        ),
{
    let u = PathStyle::Unix;
    unix_paths_grow_by_their_names(dir, name);
    unix_paths_grow_by_their_names(dir, other);
    let c = components(u, dir);
    let n = c.len() as int;
    let x = components(u, below(dir, 0x2f, name));
    let y = components(u, below(dir, 0x2f, other));
    assert(y[n] == ComponentView::Normal(other));
    assert(x[n] == ComponentView::Normal(name));
    assert forall|i: int| 0 <= i < n implies x[i] == c[i] && y[i] == c[i] by {}
    if name == other {
        assert(x =~= y);
    } else {
        assert(!same_component(u, component_text(u, y[n]), component_text(u, x[n])));
    }
    let r = components(u, seq![0x2fu8]);
    assert(r.len() == 1 && r[0] == ComponentView::RootDir);
    lemma_not_empty(dir);
    if n == 0 {
        assert(component_text(u, r[0]) == seq![0x2fu8]);
        assert(component_text(u, x[0]) == name);
        if name == seq![0x2fu8] {
            assert(name[0] == 0x2f);
            assert(name.contains(name[0]));
        }
    } else {
        assert(x[0] == c[0]);
    }
}

proof fn lemma_not_empty(dir: Seq<u8>)
    requires
        dir.len() > 0,
    ensures
        dir[0] == 0x2f ==> components(PathStyle::Unix, dir).len() > 0 && components(
            PathStyle::Unix,
            dir,
        )[0] == ComponentView::RootDir,
{
    assert(dir.subrange(0, dir.len() as int) =~= dir);
}

/// On Unix texts are compared as they are; on Windows the case of ASCII letters does not count.
pub proof fn windows_ignores_case(a: Seq<u8>, b: Seq<u8>)
    ensures
        same_component(PathStyle::Unix, a, b) <==> a == b,
        replace_surrogates(a) == a && replace_surrogates(b) == b ==> (same_component(
            PathStyle::Windows,
            a,
            b,
        ) <==> lower_bytes(a) == lower_bytes(b)),
        textual(PathStyle::Unix, a) == a,
{
}

/// A path on a drive that starts at its root.
pub open spec fn is_on_drive(path: Seq<u8>) -> bool {
    &&& path.len() >= 3
    &&& is_letter(path[0])
    &&& path[1] == 0x3a
    &&& path[2] == 0x5c || path[2] == 0x2f
}

/// Paths on a drive grow by their names, whichever slash is written; the drive's letter counts
/// without its case.
pub proof fn drive_paths_grow_by_their_names(dir: Seq<u8>, name: Seq<u8>, separator: u8)
    requires
        is_on_drive(dir),
        is_name(name),
        separator == 0x5c || separator == 0x2f,
    ensures
        components(PathStyle::Windows, below(dir, separator, name)) == components(
            PathStyle::Windows,
            dir,
        ).push(ComponentView::Normal(name)),
        components(PathStyle::Windows, dir)[0] == ComponentView::Prefix(
            PrefixView::Disk(upper_byte(dir[0])),
            dir.take(2),
        ),
        components(PathStyle::Windows, dir)[1] == ComponentView::RootDir,
        is_below(PathStyle::Windows, below(dir, separator, name), dir),
        !is_below(PathStyle::Windows, dir, below(dir, separator, name)),
{
    let w = PathStyle::Windows;
    lemma_drive_join(dir, name, separator);
    lemma_name_has_no_separator(w, name);
    plain_texts_are_one_piece(w, false, name);
    pieces_stand_for_names(name);
    pieces_become_components_one_by_one(false, Seq::empty(), Seq::empty(), name);
    assert(components(w, below(dir, separator, name)) =~= components(w, dir).push(
        ComponentView::Normal(name),
    ));
}

/// Two dots behind a path on a drive lead to its parent, and one leads nowhere.
pub proof fn drive_paths_have_parents(dir: Seq<u8>, separator: u8)
    requires
        is_on_drive(dir),
        separator == 0x5c || separator == 0x2f,
    ensures
        components(PathStyle::Windows, below(dir, separator, seq![0x2eu8, 0x2eu8])) == components(
            PathStyle::Windows,
            dir,
        ).push(ComponentView::ParentDir),
        components(PathStyle::Windows, below(dir, separator, seq![0x2eu8])) == components(
            PathStyle::Windows,
            dir,
        ),
        components(PathStyle::Windows, dir.push(separator)) == components(PathStyle::Windows, dir),
{
    let w = PathStyle::Windows;
    let dots = seq![0x2eu8, 0x2eu8];
    let dot = seq![0x2eu8];
    let none = Seq::<u8>::empty();
    lemma_drive_join(dir, dots, separator);
    lemma_drive_join(dir, dot, separator);
    lemma_drive_join(dir, none, separator);
    plain_texts_are_one_piece(w, false, dots);
    plain_texts_are_one_piece(w, false, dot);
    plain_texts_are_one_piece(w, false, none);
    pieces_become_components_one_by_one(false, Seq::empty(), Seq::empty(), dots);
    pieces_become_components_one_by_one(false, Seq::empty(), Seq::empty(), dot);
    pieces_become_components_one_by_one(false, Seq::empty(), Seq::empty(), none);
    let c = components(w, dir);
    assert(components(w, below(dir, separator, dots)) =~= c.push(ComponentView::ParentDir));
    assert(components(w, below(dir, separator, dot)) =~= c);
    assert(below(dir, separator, none) =~= dir.push(separator));
    assert(components(w, below(dir, separator, none)) =~= c);
}

proof fn lemma_drive_join(dir: Seq<u8>, b: Seq<u8>, separator: u8)
    requires
        is_on_drive(dir),
        separator == 0x5c || separator == 0x2f,
    ensures
        components(PathStyle::Windows, below(dir, separator, b)) == components(
            PathStyle::Windows,
            dir,
        ) + pieces_components(false, split_path(PathStyle::Windows, false, b)),
        components(PathStyle::Windows, dir).len() >= 2,
        components(PathStyle::Windows, dir)[0] == ComponentView::Prefix(
            PrefixView::Disk(upper_byte(dir[0])),
            dir.take(2),
        ),
        components(PathStyle::Windows, dir)[1] == ComponentView::RootDir,
{
    let w = PathStyle::Windows;
    let s = below(dir, separator, b);
    assert(s[0] == dir[0] && s[1] == dir[1] && s[2] == dir[2]);
    assert(prefix_of(w, dir) == Some(PrefixView::Disk(upper_byte(dir[0]))));
    assert(prefix_of(w, s) == Some(PrefixView::Disk(upper_byte(dir[0]))));
    let rest = dir.subrange(2, dir.len() as int);
    let tail = rest.subrange(1, rest.len() as int);
    let long = s.subrange(2, s.len() as int);
    assert(long.subrange(1, long.len() as int) =~= below(tail, separator, b));
    assert(s.take(2) =~= dir.take(2));
    pieces_end_at_separators(w, false, tail, b, separator);
    pieces_become_components_one_by_one(
        false,
        split_path(w, false, tail),
        split_path(w, false, b),
        b,
    );
    assert(components(w, s) =~= components(w, dir) + pieces_components(
        false,
        split_path(w, false, b),
    ));
}

/// The two slashes of Windows are one.
pub proof fn slashes_are_alike_on_windows(dir: Seq<u8>, name: Seq<u8>)
    requires
        is_on_drive(dir),
        is_name(name),
    ensures
        components(PathStyle::Windows, below(dir, 0x5c, name)) == components(
            PathStyle::Windows,
            below(dir, 0x2f, name),
        ),
        path_key(PathStyle::Windows, below(dir, 0x5c, name)) == path_key(
            PathStyle::Windows,
            below(dir, 0x2f, name),
        ),
{
    drive_paths_grow_by_their_names(dir, name, 0x5c);
    drive_paths_grow_by_their_names(dir, name, 0x2f);
}

/// A name that Windows does not take for a drive.
pub open spec fn is_plain_windows_name(name: Seq<u8>) -> bool {
    is_name(name) && !(name.len() >= 2 && is_letter(name[0]) && name[1] == 0x3a)
}

proof fn lemma_name_has_no_prefix(name: Seq<u8>)
    requires
        is_plain_windows_name(name),
    ensures
        prefix_of(PathStyle::Windows, name) is None,
        !is_separator(PathStyle::Windows, false, name[0]),
        !is_separator(PathStyle::Windows, false, name.last()),
{
    lemma_name_has_no_separator(PathStyle::Windows, name);
    assert(!is_separator(PathStyle::Windows, false, name[0]));
    assert(!is_separator(PathStyle::Windows, false, name[name.len() - 1]));
}

/// The components of a root and some names behind it.
pub open spec fn rooted_names(names: Seq<Seq<u8>>) -> Seq<ComponentView> {
    seq![ComponentView::RootDir] + Seq::new(names.len(), |i: int| ComponentView::Normal(names[i]))
}

proof fn lemma_joined_pieces(names: Seq<Seq<u8>>)
    requires
        names.len() > 0,
        forall|i: int| 0 <= i < names.len() ==> is_name(#[trigger] names[i]),
    ensures
        split_path(PathStyle::Windows, true, join(names, seq![0x5cu8])) == names,
        pieces_components(true, names) == Seq::new(
            names.len(),
            |i: int| ComponentView::Normal(names[i]),
        ),
    decreases names.len(),
{
    let w = PathStyle::Windows;
    let last = names.last();
    assert(last == names[names.len() - 1]);
    lemma_name_has_no_separator(w, last);
    plain_texts_are_one_piece(w, true, last);
    pieces_stand_for_names(last);
    let normals = Seq::new(names.len(), |i: int| ComponentView::Normal(names[i]));
    let f = names.drop_last();
    if f.len() == 0 {
        assert(names =~= seq![last]);
        assert(f =~= Seq::empty());
        assert(pieces_components(true, f) =~= Seq::empty());
        assert(pieces_components(true, names) =~= normals);
    } else {
        assert forall|i: int| 0 <= i < f.len() implies is_name(#[trigger] f[i]) by {
            assert(f[i] == names[i]);
        }
        lemma_joined_pieces(f);
        let front = join(f, seq![0x5cu8]);
        assert(join(names, seq![0x5cu8]) =~= below(front, 0x5c, last));
        pieces_end_at_separators(w, true, front, last, 0x5c);
        assert(f + seq![last] =~= names);
        assert(pieces_components(true, names) =~= normals);
    }
}

/// No path that starts like this one is verbatim.
pub open spec fn never_verbatim(base: Seq<u8>) -> bool {
    forall|t: Seq<u8>| !is_verbatim(prefix_of(PathStyle::Windows, #[trigger] (base + t)))
}

proof fn lemma_names_are_added(start: Seq<u8>, base: Seq<u8>, names: Seq<Seq<u8>>)
    requires
        with_components(start, seq![ComponentView::RootDir]) == base,
        base.len() > 2,
        base.last() == 0x5c,
        never_verbatim(base),
        forall|i: int| 0 <= i < names.len() ==> is_plain_windows_name(#[trigger] names[i]),
    ensures
        with_components(start, rooted_names(names)) == base + join(names, seq![0x5cu8]),
    decreases names.len(),
{
    let w = PathStyle::Windows;
    let cs = rooted_names(names);
    if names.len() == 0 {
        assert(cs =~= seq![ComponentView::RootDir]);
        assert(base + join(names, seq![0x5cu8]) =~= base);
    } else {
        let f = names.drop_last();
        let last = names.last();
        assert(last == names[names.len() - 1]);
        assert forall|i: int| 0 <= i < f.len() implies is_plain_windows_name(#[trigger] f[i]) by {
            assert(f[i] == names[i]);
        }
        lemma_names_are_added(start, base, f);
        lemma_name_has_no_prefix(last);
        assert(cs.drop_last() =~= rooted_names(f));
        assert(cs.last() == ComponentView::Normal(last));
        let joined = join(f, seq![0x5cu8]);
        let so_far = base + joined;
        assert(!is_verbatim(prefix_of(w, so_far)));
        if f.len() == 0 {
            assert(joined =~= Seq::empty());
            assert(so_far =~= base);
            assert(!needs_separator(so_far));
            assert(base + last =~= base + join(names, seq![0x5cu8]));
        } else {
            let before = f.last();
            assert(before == f[f.len() - 1]);
            lemma_name_has_no_prefix(before);
            assert(joined.len() > 0 && joined.last() == before.last()) by {
                if f.len() == 1 {
                    assert(joined == f[0]);
                }
            }
            assert(so_far.last() == before.last());
            assert(needs_separator(so_far));
            assert(so_far.push(0x5c) + last =~= base + join(names, seq![0x5cu8]));
        }
    }
}

/// A verbatim path on a drive becomes the plain path on that drive: its letter in upper case, and
/// the same names.
pub proof fn verbatim_drives_become_plain(letter: u8, names: Seq<Seq<u8>>)
    requires
        is_letter(letter),
        names.len() > 0,
        forall|i: int| 0 <= i < names.len() ==> is_plain_windows_name(#[trigger] names[i]),
    ensures
        canonical_form(
            PathStyle::Windows,
            seq![0x5cu8, 0x5cu8, 0x3fu8, 0x5cu8, letter, 0x3au8, 0x5cu8] + join(
                names,
                seq![0x5cu8],
            ),
        ) == seq![upper_byte(letter), 0x3au8, 0x5cu8] + join(names, seq![0x5cu8]),
{
    let w = PathStyle::Windows;
    let joined = join(names, seq![0x5cu8]);
    let s = seq![0x5cu8, 0x5cu8, 0x3fu8, 0x5cu8, letter, 0x3au8, 0x5cu8] + joined;
    assert(s[0] == 0x5c && s[1] == 0x5c && s[2] == 0x3f && s[3] == 0x5c && s[4] == letter && s[5]
        == 0x3a && s[6] == 0x5c);
    let p = PrefixView::VerbatimDisk(upper_byte(letter));
    let four = s.subrange(4, s.len() as int);
    assert(four[0] == letter && four[1] == 0x3a && four[2] == 0x5c);
    assert(prefix_of(w, s) == Some(p));
    let rest = s.subrange(6, s.len() as int);
    assert(rest[0] == 0x5c);
    assert(rest.subrange(1, rest.len() as int) =~= joined);
    assert forall|i: int| 0 <= i < names.len() implies is_name(#[trigger] names[i]) by {}
    lemma_joined_pieces(names);
    let cs = components(w, s);
    assert(cs.subrange(1, cs.len() as int) =~= rooted_names(names));
    let start = seq![upper_byte(letter), 0x3au8];
    let base = seq![upper_byte(letter), 0x3au8, 0x5cu8];
    let root = seq![ComponentView::RootDir];
    assert(root.drop_last() =~= Seq::empty());
    assert(with_components(start, root.drop_last()) == start);
    assert(component_text(w, root.last()) == seq![0x5cu8]);
    assert(prefix_of(w, seq![0x5cu8]) is None);
    assert(prefix_of(w, start) == Some(PrefixView::Disk(upper_byte(upper_byte(letter)))));
    assert(start.take(2) + seq![0x5cu8] =~= base);
    assert(with_components(start, root) == base);
    assert forall|t: Seq<u8>| !is_verbatim(prefix_of(w, #[trigger] (base + t))) by {
        assert((base + t)[0] == upper_byte(letter));
    }
    lemma_names_are_added(start, base, names);
}

/// A path that is not verbatim keeps its form, as every path does on Unix.
pub proof fn other_paths_keep_their_form(path: Seq<u8>)
    ensures
        canonical_form(PathStyle::Unix, path) == path,
        !(path.len() >= 4 && path[0] == 0x5c && path[1] == 0x5c && path[2] == 0x3f && path[3]
            == 0x5c) ==> canonical_form(PathStyle::Windows, path) == path,
{
}

proof fn lemma_separator_is_found(verbatim: bool, s: Seq<u8>, from: int, at: int)
    requires
        0 <= from <= at <= s.len(),
        forall|i: int|
            from <= i < at ==> !is_separator(PathStyle::Windows, verbatim, #[trigger] s[i]),
        at < s.len() ==> is_separator(PathStyle::Windows, verbatim, s[at]),
    ensures
        find_separator(PathStyle::Windows, verbatim, s, from) == at,
    decreases at - from,
{
    if from < at {
        lemma_separator_is_found(verbatim, s, from + 1, at);
    }
}

proof fn lemma_first_name(verbatim: bool, name: Seq<u8>, rest: Seq<u8>)
    requires
        is_name(name),
        rest.len() == 0 || rest[0] == 0x5c,
    ensures
        find_separator(PathStyle::Windows, verbatim, name + rest, 0) == name.len(),
{
    let w = PathStyle::Windows;
    let s = name + rest;
    lemma_name_has_no_separator(w, name);
    assert forall|i: int| 0 <= i < name.len() implies !is_separator(
        w,
        verbatim,
        #[trigger] s[i],
    ) by {
        assert(s[i] == name[i]);
        assert(!is_separator(w, verbatim, name[i]));
    }
    lemma_separator_is_found(verbatim, s, 0, name.len() as int);
}

/// The plain path to a share of a server.
pub open spec fn share_root(server: Seq<u8>, share: Seq<u8>) -> Seq<u8> {
    seq![0x5cu8, 0x5cu8] + server + seq![0x5cu8] + share
}

proof fn lemma_share_root(server: Seq<u8>, share: Seq<u8>)
    requires
        is_plain_windows_name(server),
        is_plain_windows_name(share),
        server != seq![0x3fu8],
    ensures
        with_part(with_part(seq![0x5cu8, 0x5cu8], server), share) == share_root(server, share),
        prefix_of(PathStyle::Windows, share_root(server, share)) == Some(
            PrefixView::Unc(server, share),
        ),
        never_verbatim(share_root(server, share) + seq![0x5cu8]),
{
    let w = PathStyle::Windows;
    let none = Seq::<u8>::empty();
    lemma_name_has_no_prefix(server);
    lemma_name_has_no_prefix(share);
    lemma_name_has_no_separator(w, server);
    let two = seq![0x5cu8, 0x5cu8];
    assert(two.subrange(2, 2) =~= none);
    assert(none.take(0) =~= none);
    assert(prefix_of(w, two) is None);
    let b1 = two + server;
    assert(b1.last() == server.last());
    assert(b1.subrange(2, b1.len() as int) =~= server);
    assert(server + none =~= server);
    lemma_first_name(false, server, none);
    if b1.len() > 3 {
        assert(b1[3] == server[1]);
        assert(!is_separator(w, false, server[1]));
    }
    assert(prefix_of(w, b1) is None);
    assert(needs_separator(b1));
    let b2 = share_root(server, share);
    assert(b1.push(0x5c) + share =~= b2);
    let tail = seq![0x5cu8] + share;
    let rest = b2.subrange(2, b2.len() as int);
    assert(rest =~= server + tail);
    lemma_first_name(false, server, tail);
    lemma_first_name(false, share, none);
    assert(share + none =~= share);
    assert(rest.take(server.len() as int) =~= server);
    assert(rest.subrange(server.len() + 1int, rest.len() as int) =~= share);
    assert(share.take(share.len() as int) =~= share);
    assert(b2[2] == server[0]);
    assert(b2[3] == if server.len() > 1 {
        server[1]
    } else {
        0x5c
    });
    if server.len() > 1 {
        assert(!is_separator(w, false, server[1]));
    } else {
        assert(server =~= seq![server[0]]);
    }
    assert(prefix_of(w, b2) == Some(PrefixView::Unc(server, share)));
    let base = b2 + seq![0x5cu8];
    assert forall|t: Seq<u8>| !is_verbatim(prefix_of(w, #[trigger] (base + t))) by {
        let x = base + t;
        assert(x[2] == b2[2] && x[3] == b2[3]);
    }
}

/// A verbatim path to a share becomes the plain path to that share, with the same names.
pub proof fn verbatim_shares_become_plain(server: Seq<u8>, share: Seq<u8>, names: Seq<Seq<u8>>)
    requires
        is_plain_windows_name(server),
        is_plain_windows_name(share),
        server != seq![0x3fu8],
        names.len() > 0,
        forall|i: int| 0 <= i < names.len() ==> is_plain_windows_name(#[trigger] names[i]),
    ensures
        canonical_form(
            PathStyle::Windows,
            seq![0x5cu8, 0x5cu8, 0x3fu8, 0x5cu8, 0x55u8, 0x4eu8, 0x43u8, 0x5cu8] + server + seq![
                0x5cu8,
            ] + share + seq![0x5cu8] + join(names, seq![0x5cu8]),
        ) == share_root(server, share) + seq![0x5cu8] + join(names, seq![0x5cu8]),
{
    let w = PathStyle::Windows;
    let joined = join(names, seq![0x5cu8]);
    let head = seq![0x5cu8, 0x5cu8, 0x3fu8, 0x5cu8, 0x55u8, 0x4eu8, 0x43u8, 0x5cu8];
    let s = head + server + seq![0x5cu8] + share + seq![0x5cu8] + joined;
    assert(s[0] == 0x5c && s[1] == 0x5c && s[2] == 0x3f && s[3] == 0x5c && s[4] == 0x55 && s[5]
        == 0x4e && s[6] == 0x43 && s[7] == 0x5c);
    let tail2 = seq![0x5cu8] + joined;
    let tail1 = seq![0x5cu8] + share + tail2;
    let eight = s.subrange(8, s.len() as int);
    assert(eight =~= server + tail1);
    lemma_first_name(true, server, tail1);
    assert(eight.take(server.len() as int) =~= server);
    let after = eight.subrange(server.len() + 1int, eight.len() as int);
    assert(after =~= share + tail2);
    lemma_first_name(true, share, tail2);
    assert(after.take(share.len() as int) =~= share);
    assert(prefix_of(w, s) == Some(PrefixView::VerbatimUnc(server, share)));
    let n = 8 + server.len() + 1 + share.len();
    let rest = s.subrange(n as int, s.len() as int);
    assert(rest =~= tail2);
    assert(rest[0] == 0x5c);
    assert(rest.subrange(1, rest.len() as int) =~= joined);
    assert forall|i: int| 0 <= i < names.len() implies is_name(#[trigger] names[i]) by {}
    lemma_joined_pieces(names);
    let cs = components(w, s);
    assert(cs.subrange(1, cs.len() as int) =~= rooted_names(names));
    lemma_share_root(server, share);
    let start = share_root(server, share);
    let base = start + seq![0x5cu8];
    let root = seq![ComponentView::RootDir];
    assert(root.drop_last() =~= Seq::empty());
    assert(with_components(start, root.drop_last()) == start);
    assert(component_text(w, root.last()) == seq![0x5cu8]);
    assert(prefix_of(w, seq![0x5cu8]) is None);
    assert(start.take(start.len() as int) =~= start);
    assert(with_components(start, root) == base);
    lemma_names_are_added(start, base, names);
}

/// Two names in a directory on a drive lie below each other exactly where they are the same but for
/// the case of their letters, whichever slash is written before them.
pub proof fn drive_names_ignore_case(
    dir: Seq<u8>,
    name: Seq<u8>,
    other: Seq<u8>,
    separator: u8,
    another: u8,
)
    requires
        is_on_drive(dir),
        is_name(name),
        is_name(other),
        replace_surrogates(name) == name,
        replace_surrogates(other) == other,
        separator == 0x5c || separator == 0x2f,
        another == 0x5c || another == 0x2f,
    ensures
        is_below(PathStyle::Windows, below(dir, separator, name), below(dir, another, other))
            <==> lower_bytes(name) == lower_bytes(other),
{
    let w = PathStyle::Windows;
    drive_paths_grow_by_their_names(dir, name, separator);
    drive_paths_grow_by_their_names(dir, other, another);
    let c = components(w, dir);
    let n = c.len() as int;
    let x = components(w, below(dir, separator, name));
    let y = components(w, below(dir, another, other));
    assert(x[n] == ComponentView::Normal(name) && y[n] == ComponentView::Normal(other));
    assert forall|i: int| 0 <= i < n implies x[i] == c[i] && y[i] == c[i] by {}
    if lower_bytes(name) == lower_bytes(other) {
        assert forall|i: int| 0 <= i < y.len() implies same_component(
            w,
            component_text(w, #[trigger] y[i]),
            component_text(w, x[i]),
        ) by {}
    } else {
        assert(!same_component(w, component_text(w, y[n]), component_text(w, x[n])));
    }
}

/// A name behind a path on a drive stands behind one backslash.
pub proof fn names_are_pushed_behind_a_backslash(dir: Seq<u8>, name: Seq<u8>)
    requires
        is_on_drive(dir),
        is_plain_windows_name(name),
    ensures
        dir.last() != 0x5c && dir.last() != 0x2f ==> with_part(dir, name) == below(dir, 0x5c, name),
        dir.last() == 0x5c || dir.last() == 0x2f ==> with_part(dir, name) == dir + name,
{
    lemma_name_has_no_prefix(name);
    assert(prefix_of(PathStyle::Windows, dir) == Some(PrefixView::Disk(upper_byte(dir[0]))));
}

/// The prefixes of Windows paths by how they start: a share of a server, a device, and what is
/// taken verbatim.
pub proof fn prefixes_by_their_start(server: Seq<u8>, share: Seq<u8>, rest: Seq<u8>)
    requires
        is_plain_windows_name(server),
        is_plain_windows_name(share),
        server != seq![0x3fu8],
        rest.len() == 0 || rest[0] == 0x5c,
        server != seq![0x55u8, 0x4eu8, 0x43u8],
    ensures
        prefix_of(PathStyle::Windows, share_root(server, share)) == Some(
            PrefixView::Unc(server, share),
        ),
        prefix_of(PathStyle::Windows, seq![0x5cu8, 0x5cu8, 0x2eu8, 0x5cu8] + (server + rest))
            == Some(PrefixView::DeviceNs(server)),
        prefix_of(PathStyle::Windows, seq![0x5cu8, 0x5cu8, 0x3fu8, 0x5cu8] + (server + rest))
            == Some(PrefixView::Verbatim(server)),
        prefix_of(PathStyle::Windows, server) is None,
        prefix_of(PathStyle::Unix, share_root(server, share)) is None,
{
    let w = PathStyle::Windows;
    lemma_share_root(server, share);
    lemma_name_has_no_prefix(server);
    lemma_name_has_no_separator(w, server);
    let tail = server + rest;
    let device = seq![0x5cu8, 0x5cu8, 0x2eu8, 0x5cu8] + tail;
    assert(device.subrange(4, device.len() as int) =~= tail);
    lemma_first_name(false, server, rest);
    lemma_first_name(true, server, rest);
    assert(tail.take(server.len() as int) =~= server);
    assert(device[0] == 0x5c && device[1] == 0x5c && device[2] == 0x2e && device[3] == 0x5c);
    let verbatim = seq![0x5cu8, 0x5cu8, 0x3fu8, 0x5cu8] + tail;
    assert(verbatim.subrange(4, verbatim.len() as int) =~= tail);
    assert(verbatim[0] == 0x5c && verbatim[1] == 0x5c && verbatim[2] == 0x3f && verbatim[3]
        == 0x5c);
    assert(tail[0] == server[0]);
    if server.len() >= 2 {
        assert(tail[1] == server[1]);
    } else if rest.len() > 0 {
        assert(tail[1] == 0x5c);
    }
    if verbatim.len() >= 8 && verbatim[4] == 0x55 && verbatim[5] == 0x4e && verbatim[6] == 0x43
        && is_separator(w, false, verbatim[7]) {
        if server.len() > 3 {
            assert(verbatim[7] == server[3]);
            assert(!is_separator(w, false, server[3]));
        } else if server.len() == 3 {
            assert(server =~= seq![0x55u8, 0x4eu8, 0x43u8]);
        } else if server.len() == 2 {
            assert(verbatim[6] == rest[0]);
        } else {
            assert(verbatim[5] == rest[0]);
        }
    }
}

/// The root of a verbatim drive is the root of that drive.
pub proof fn verbatim_roots_become_plain(letter: u8)
    requires
        is_letter(letter),
    ensures
        canonical_form(
            PathStyle::Windows,
            seq![0x5cu8, 0x5cu8, 0x3fu8, 0x5cu8, letter, 0x3au8, 0x5cu8],
        ) == seq![upper_byte(letter), 0x3au8, 0x5cu8],
{
    let w = PathStyle::Windows;
    let s = seq![0x5cu8, 0x5cu8, 0x3fu8, 0x5cu8, letter, 0x3au8, 0x5cu8];
    let four = s.subrange(4, s.len() as int);
    assert(four[0] == letter && four[1] == 0x3a && four[2] == 0x5c);
    assert(prefix_of(w, s) == Some(PrefixView::VerbatimDisk(upper_byte(letter))));
    let rest = s.subrange(6, s.len() as int);
    assert(rest[0] == 0x5c);
    let none = Seq::<u8>::empty();
    assert(rest.subrange(1, rest.len() as int) =~= none);
    plain_texts_are_one_piece(w, true, none);
    pieces_become_components_one_by_one(true, Seq::empty(), Seq::empty(), none);
    assert(pieces_components(true, seq![none]) =~= Seq::empty());
    let cs = components(w, s);
    let root = seq![ComponentView::RootDir];
    assert(cs.subrange(1, cs.len() as int) =~= root);
    let start = seq![upper_byte(letter), 0x3au8];
    let base = seq![upper_byte(letter), 0x3au8, 0x5cu8];
    assert(root.drop_last() =~= Seq::empty());
    assert(with_components(start, root.drop_last()) == start);
    assert(component_text(w, root.last()) == seq![0x5cu8]);
    assert(prefix_of(w, seq![0x5cu8]) is None);
    assert(prefix_of(w, start) == Some(PrefixView::Disk(upper_byte(upper_byte(letter)))));
    assert(start.take(2) + seq![0x5cu8] =~= base);
}

/// Only lone surrogates are replaced, each by the character that stands for them.
pub proof fn only_surrogates_are_replaced(a: Seq<u8>, rest: Seq<u8>, x: u8, y: u8)
    requires
        forall|i: int| 0 <= i < a.len() ==> #[trigger] a[i] != 0xed,
        x >= 0xa0,
    ensures
        replace_surrogates(a) == a,
        replace_surrogates(a + rest) == a + replace_surrogates(rest),
        replace_surrogates(seq![0xedu8, x, y] + rest) == seq![0xefu8, 0xbfu8, 0xbdu8]
            + replace_surrogates(rest),
    decreases a.len(),
{
    let s = seq![0xedu8, x, y] + rest;
    assert(s.subrange(3, s.len() as int) =~= rest);
    if a.len() == 0 {
        assert(a + rest =~= rest);
        assert(a + replace_surrogates(rest) =~= replace_surrogates(rest));
    } else {
        let b = a.subrange(1, a.len() as int);
        assert forall|i: int| 0 <= i < b.len() implies #[trigger] b[i] != 0xed by {
            assert(b[i] == a[i + 1]);
        }
        only_surrogates_are_replaced(b, rest, x, y);
        assert(a[0] != 0xed);
        assert(seq![a[0]] + b =~= a);
        let t = a + rest;
        assert(t.subrange(1, t.len() as int) =~= b + rest);
        assert(replace_surrogates(t) =~= a + replace_surrogates(rest));
    }
}

/// The numbers of some bytes.
pub open spec fn byte_numbers(s: Seq<u8>) -> Seq<u32> {
    Seq::new(s.len(), |i: int| s[i] as u32)
}

proof fn lemma_same_front(p: Seq<u32>, x: Seq<u32>, y: Seq<u32>)
    ensures
        dictionary_less(p + x, p + y) == dictionary_less(x, y),
    decreases p.len(),
{
    if p.len() == 0 {
        assert(p + x =~= x && p + y =~= y);
    } else {
        let q = p.subrange(1, p.len() as int);
        lemma_same_front(q, x, y);
        let (a, b) = (p + x, p + y);
        assert(a[0] == b[0]);
        assert(a.subrange(1, a.len() as int) =~= q + x);
        assert(b.subrange(1, b.len() as int) =~= q + y);
    }
}

proof fn lemma_name_keys_keep_order(a: Seq<u8>, b: Seq<u8>)
    ensures
        dictionary_less(key_bytes(a) + seq![0u32], key_bytes(b) + seq![0u32]) == dictionary_less(
            byte_numbers(a),
            byte_numbers(b),
        ),
    decreases a.len(),
{
    let x = key_bytes(a) + seq![0u32];
    let y = key_bytes(b) + seq![0u32];
    let (m, n) = (byte_numbers(a), byte_numbers(b));
    if a.len() > 0 && b.len() > 0 {
        let c = a.subrange(1, a.len() as int);
        let d = b.subrange(1, b.len() as int);
        lemma_name_keys_keep_order(c, d);
        assert(x[0] == a[0] + 2 && y[0] == b[0] + 2);
        assert(x.subrange(1, x.len() as int) =~= key_bytes(c) + seq![0u32]);
        assert(y.subrange(1, y.len() as int) =~= key_bytes(d) + seq![0u32]);
        assert(m[0] == a[0] && n[0] == b[0]);
        assert(m.subrange(1, m.len() as int) =~= byte_numbers(c));
        assert(n.subrange(1, n.len() as int) =~= byte_numbers(d));
    } else if a.len() == 0 && b.len() == 0 {
        assert(x =~= y);
        dictionary_order_is_total(x, y);
        assert(m =~= n);
        dictionary_order_is_total(m, n);
    } else if a.len() == 0 {
        assert(x[0] == 0 && y[0] == b[0] + 2);
    } else {
        assert(y[0] == 0 && x[0] == a[0] + 2);
    }
}

/// Two names in one directory are in the order of their bytes, and a directory comes before what it
/// holds.
pub proof fn names_come_in_the_order_of_their_bytes(dir: Seq<u8>, a: Seq<u8>, b: Seq<u8>)
    requires
        dir.len() > 0,
        is_unix_name(a),
        is_unix_name(b),
    ensures
        dictionary_less(
            path_key(PathStyle::Unix, below(dir, 0x2f, a)),
            path_key(PathStyle::Unix, below(dir, 0x2f, b)),
        ) <==> dictionary_less(byte_numbers(a), byte_numbers(b)),
        dictionary_less(
            path_key(PathStyle::Unix, dir),
            path_key(PathStyle::Unix, below(dir, 0x2f, a)),
        ),
{
    let u = PathStyle::Unix;
    unix_paths_grow_by_their_names(dir, a);
    unix_paths_grow_by_their_names(dir, b);
    let c = components(u, dir);
    let p = path_key(u, dir);
    let (x, y) = (key_bytes(a) + seq![0u32], key_bytes(b) + seq![0u32]);
    assert(c.push(ComponentView::Normal(a)).drop_last() =~= c);
    assert(c.push(ComponentView::Normal(b)).drop_last() =~= c);
    assert(path_key(u, below(dir, 0x2f, a)) =~= p + (seq![10u32] + x));
    assert(path_key(u, below(dir, 0x2f, b)) =~= p + (seq![10u32] + y));
    lemma_same_front(p, seq![10u32] + x, seq![10u32] + y);
    lemma_same_front(seq![10u32], x, y);
    lemma_name_keys_keep_order(a, b);
    let none = Seq::<u32>::empty();
    lemma_same_front(p, none, seq![10u32] + x);
    assert(p + none =~= p);
}

/// The sorts of components in their order: the root comes before the directory itself, that before
/// its parent, and the parent before every name.
pub proof fn components_come_by_their_sort(name: Seq<u8>)
    ensures
        dictionary_less(component_key(ComponentView::RootDir), component_key(ComponentView::CurDir)),
        dictionary_less(
            component_key(ComponentView::CurDir),
            component_key(ComponentView::ParentDir),
        ),
        dictionary_less(
            component_key(ComponentView::ParentDir),
            component_key(ComponentView::Normal(name)),
        ),
{
    assert(component_key(ComponentView::RootDir)[0] == 7);
    assert(component_key(ComponentView::CurDir)[0] == 8);
    assert(component_key(ComponentView::ParentDir)[0] == 9);
    assert(component_key(ComponentView::Normal(name))[0] == 10);
}

/// A Unix path that starts with a dot starts in the directory itself.
pub proof fn dots_start_in_the_directory(name: Seq<u8>)
    requires
        is_unix_name(name),
    ensures
        components(PathStyle::Unix, seq![0x2eu8]) == seq![ComponentView::CurDir],
        components(PathStyle::Unix, seq![0x2eu8, 0x2fu8] + name) == seq![
            ComponentView::CurDir,
            ComponentView::Normal(name),
        ],
        components(PathStyle::Unix, seq![0x2eu8, 0x2eu8]) == seq![ComponentView::ParentDir],
{
    let u = PathStyle::Unix;
    let dot = seq![0x2eu8];
    let dots = seq![0x2eu8, 0x2eu8];
    let none = Seq::<u8>::empty();
    assert(dot.subrange(0, 1) =~= dot);
    assert(dot.subrange(1, 1) =~= none);
    plain_texts_are_one_piece(u, false, none);
    pieces_become_components_one_by_one(false, Seq::empty(), Seq::empty(), none);
    assert(pieces_components(false, seq![none]) =~= Seq::empty());
    assert(components(u, dot) =~= seq![ComponentView::CurDir]);
    unix_paths_grow_by_their_names(dot, name);
    assert(below(dot, 0x2f, name) =~= seq![0x2eu8, 0x2fu8] + name);
    assert(seq![ComponentView::CurDir].push(ComponentView::Normal(name)) =~= seq![
        ComponentView::CurDir,
        ComponentView::Normal(name),
    ]);
    assert(dots.subrange(0, 2) =~= dots);
    plain_texts_are_one_piece(u, false, dots);
    pieces_stand_for_names(name);
    pieces_become_components_one_by_one(false, Seq::empty(), Seq::empty(), dots);
    assert(components(u, dots) =~= seq![ComponentView::ParentDir]);
}

/// A share of a server starts at its root, though no slash is written behind it.
pub proof fn shares_start_at_their_root(server: Seq<u8>, share: Seq<u8>)
    requires
        is_plain_windows_name(server),
        is_plain_windows_name(share),
        server != seq![0x3fu8],
    ensures
        components(PathStyle::Windows, share_root(server, share)) == seq![
            ComponentView::Prefix(PrefixView::Unc(server, share), share_root(server, share)),
            ComponentView::RootDir,
        ],
{
    let w = PathStyle::Windows;
    lemma_share_root(server, share);
    let s = share_root(server, share);
    let none = Seq::<u8>::empty();
    assert(s.subrange(s.len() as int, s.len() as int) =~= none);
    assert(s.take(s.len() as int) =~= s);
    plain_texts_are_one_piece(w, false, none);
    pieces_become_components_one_by_one(false, Seq::empty(), Seq::empty(), none);
    assert(pieces_components(false, seq![none]) =~= Seq::empty());
    assert(components(w, s) =~= seq![
        ComponentView::Prefix(PrefixView::Unc(server, share), s),
        ComponentView::RootDir,
    ]);
}

/// A verbatim path on a drive with some names behind its root.
pub open spec fn verbatim_path(letter: u8, names: Seq<Seq<u8>>) -> Seq<u8> {
    seq![0x5cu8, 0x5cu8, 0x3fu8, 0x5cu8, letter, 0x3au8, 0x5cu8] + join(names, seq![0x5cu8])
}

proof fn lemma_verbatim_components(letter: u8, names: Seq<Seq<u8>>)
    requires
        is_letter(letter),
        names.len() > 0,
        forall|i: int| 0 <= i < names.len() ==> is_plain_windows_name(#[trigger] names[i]),
    ensures
        prefix_of(PathStyle::Windows, verbatim_path(letter, names)) == Some(
            PrefixView::VerbatimDisk(upper_byte(letter)),
        ),
        components(PathStyle::Windows, verbatim_path(letter, names)) == verbatim_components(
            letter,
            names,
        ),
{
    let w = PathStyle::Windows;
    let joined = join(names, seq![0x5cu8]);
    let s = verbatim_path(letter, names);
    assert(s[0] == 0x5c && s[1] == 0x5c && s[2] == 0x3f && s[3] == 0x5c && s[4] == letter && s[5]
        == 0x3a && s[6] == 0x5c);
    let four = s.subrange(4, s.len() as int);
    assert(four[0] == letter && four[1] == 0x3a && four[2] == 0x5c);
    let rest = s.subrange(6, s.len() as int);
    assert(rest[0] == 0x5c);
    assert(rest.subrange(1, rest.len() as int) =~= joined);
    assert forall|i: int| 0 <= i < names.len() implies is_name(#[trigger] names[i]) by {}
    lemma_joined_pieces(names);
    assert(s.take(6) =~= seq![0x5cu8, 0x5cu8, 0x3fu8, 0x5cu8, letter, 0x3au8]);
    assert(components(w, s) =~= verbatim_components(letter, names));
}

/// The components of a verbatim path on a drive.
pub open spec fn verbatim_components(letter: u8, names: Seq<Seq<u8>>) -> Seq<ComponentView> {
    seq![
        ComponentView::Prefix(
            PrefixView::VerbatimDisk(upper_byte(letter)),
            seq![0x5cu8, 0x5cu8, 0x3fu8, 0x5cu8, letter, 0x3au8],
        ),
    ] + rooted_names(names)
}

proof fn lemma_spelled(letter: u8, names: Seq<Seq<u8>>)
    ensures
        spelled_components(verbatim_components(letter, names)) == verbatim_path(letter, names),
    decreases names.len(),
{
    let w = PathStyle::Windows;
    let cs = verbatim_components(letter, names);
    let raw = seq![0x5cu8, 0x5cu8, 0x3fu8, 0x5cu8, letter, 0x3au8];
    if names.len() == 0 {
        let one = cs.drop_last();
        assert(one =~= seq![cs[0]]);
        assert(one.drop_last() =~= Seq::empty());
        assert(spelled_components(one.drop_last()) =~= Seq::empty());
        assert(spelled_components(one) =~= raw);
        assert(cs.last() == ComponentView::RootDir);
        assert(spelled_components(cs) =~= raw + seq![0x5cu8]);
        assert(verbatim_path(letter, names) =~= raw + seq![0x5cu8]);
    } else {
        let f = names.drop_last();
        lemma_spelled(letter, f);
        assert(cs.drop_last() =~= verbatim_components(letter, f));
        assert(cs.last() == ComponentView::Normal(names.last()));
        let front = verbatim_path(letter, f);
        if f.len() == 0 {
            assert(cs[cs.len() - 2] == ComponentView::RootDir);
            assert(spelled_components(cs) == front + names.last());
            assert(join(f, seq![0x5cu8]) =~= Seq::empty());
            assert(front + names.last() =~= verbatim_path(letter, names));
        } else {
            assert(cs[cs.len() - 2] == ComponentView::Normal(f[f.len() - 1]));
            assert(spelled_components(cs) == front.push(0x5c) + names.last());
            assert(front.push(0x5c) + names.last() =~= verbatim_path(letter, names));
        }
    }
}

/// Behind a verbatim path a name is added, and two dots take the last name away instead of being
/// written.
pub proof fn verbatim_paths_grow_by_their_meaning(
    letter: u8,
    names: Seq<Seq<u8>>,
    name: Seq<u8>,
)
    requires
        is_letter(letter),
        names.len() > 0,
        forall|i: int| 0 <= i < names.len() ==> is_plain_windows_name(#[trigger] names[i]),
        is_plain_windows_name(name),
    ensures
        with_part(verbatim_path(letter, names), name) == verbatim_path(letter, names.push(name)),
        with_part(verbatim_path(letter, names), seq![0x2eu8, 0x2eu8]) == verbatim_path(
            letter,
            names.drop_last(),
        ),
{
    let w = PathStyle::Windows;
    let base = verbatim_path(letter, names);
    let cs = verbatim_components(letter, names);
    let dots = seq![0x2eu8, 0x2eu8];
    lemma_verbatim_components(letter, names);
    lemma_name_has_no_prefix(name);
    lemma_name_has_no_separator(w, name);
    plain_texts_are_one_piece(w, false, name);
    plain_texts_are_one_piece(w, false, dots);
    pieces_stand_for_names(name);
    pieces_become_components_one_by_one(false, Seq::empty(), Seq::empty(), name);
    pieces_become_components_one_by_one(false, Seq::empty(), Seq::empty(), dots);
    assert(name.subrange(0, name.len() as int) =~= name);
    assert(!is_separator(w, false, name[0]));
    if name.len() > 1 {
        assert(!is_separator(w, false, name[1]));
    } else if name[0] == 0x2e {
        assert(name =~= seq![0x2eu8]);
    }
    let one = seq![ComponentView::Normal(name)];
    let up = seq![ComponentView::ParentDir];
    assert(components(w, name) =~= one);
    assert(prefix_of(w, dots) is None);
    assert(dots.subrange(0, 2) =~= dots);
    assert(components(w, dots) =~= up);
    assert(one.drop_last() =~= Seq::empty());
    assert(up.drop_last() =~= Seq::empty());
    assert(joined_components(cs, one.drop_last()) == cs);
    assert(joined_components(cs, up.drop_last()) == cs);
    assert(cs.push(ComponentView::Normal(name)) =~= verbatim_components(letter, names.push(name)));
    assert(cs.last() == ComponentView::Normal(names[names.len() - 1]));
    assert(cs.drop_last() =~= verbatim_components(letter, names.drop_last()));
    lemma_spelled(letter, names.push(name));
    lemma_spelled(letter, names.drop_last());
}

/// A name alone is a path of one component, on either system.
pub proof fn names_are_paths(name: Seq<u8>)
    requires
        is_plain_windows_name(name),
    ensures
        components(PathStyle::Windows, name) == seq![ComponentView::Normal(name)],
        components(PathStyle::Unix, name) == seq![ComponentView::Normal(name)],
{
    let w = PathStyle::Windows;
    unix_paths_grow_by_their_names(seq![0x2fu8], name);
    lemma_name_has_no_prefix(name);
    lemma_name_has_no_separator(w, name);
    plain_texts_are_one_piece(w, false, name);
    pieces_stand_for_names(name);
    pieces_become_components_one_by_one(false, Seq::empty(), Seq::empty(), name);
    assert(name.subrange(0, name.len() as int) =~= name);
    assert(!is_separator(w, false, name[0]));
    if name.len() > 1 {
        assert(!is_separator(w, false, name[1]));
    } else if name[0] == 0x2e {
        assert(name =~= seq![0x2eu8]);
    }
    assert(components(w, name) =~= seq![ComponentView::Normal(name)]);
}

} // verus!
