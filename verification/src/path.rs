//! Paths as the operating system writes them, taken apart into components.
//!
//! A path is a run of bytes: the bytes of a Unix path, or the WTF-8 form of a Windows path. How
//! it is taken apart depends on the platform's style, so every question about components names
//! the style.
use vstd::prelude::*;

use crate::bytes::{
    copy_bytes, copy_range, is_letter, lower_bytes, push_bytes, same_bytes, same_numbers, to_lower_bytes,
    upper_byte,
};
use crate::lossy::{lossy_string, lossy_text};

verus! {

/// Which platform's path grammar applies.
#[derive(Debug, Clone, Copy, PartialEq, Eq, Structural)]
pub enum PathStyle {
    Unix,
    Windows,
}

/// A path in the encoding of the operating system. `==` compares paths as the host takes them
/// apart: component by component.
#[derive(Debug)]
pub struct SandboxPath {
    pub bytes: Vec<u8>,
}

/// What a Windows path can start with, in front of its root.
#[derive(Debug, PartialEq, Eq)]
pub enum PathPrefix {
    Verbatim(Vec<u8>),
    VerbatimUnc(Vec<u8>, Vec<u8>),
    VerbatimDisk(u8),
    DeviceNs(Vec<u8>),
    Unc(Vec<u8>, Vec<u8>),
    Disk(u8),
}

/// The mathematical value of a prefix.
pub enum PrefixView {
    Verbatim(Seq<u8>),
    VerbatimUnc(Seq<u8>, Seq<u8>),
    VerbatimDisk(u8),
    DeviceNs(Seq<u8>),
    Unc(Seq<u8>, Seq<u8>),
    Disk(u8),
}

/// One component of a path.
#[derive(Debug)]
pub enum PathComponent {
    Prefix(PathPrefix, Vec<u8>),
    RootDir,
    CurDir,
    ParentDir,
    Normal(Vec<u8>),
}

/// The mathematical value of a component; a prefix carries the bytes that it was written with.
pub enum ComponentView {
    Prefix(PrefixView, Seq<u8>),
    RootDir,
    CurDir,
    ParentDir,
    Normal(Seq<u8>),
}

impl View for SandboxPath {
    type V = Seq<u8>;

    open spec fn view(&self) -> Seq<u8> {
        self.bytes@
    }
}

impl View for PathPrefix {
    type V = PrefixView;

    open spec fn view(&self) -> PrefixView {
        match *self {
            PathPrefix::Verbatim(a) => PrefixView::Verbatim(a@),
            PathPrefix::VerbatimUnc(a, b) => PrefixView::VerbatimUnc(a@, b@),
            PathPrefix::VerbatimDisk(d) => PrefixView::VerbatimDisk(d),
            PathPrefix::DeviceNs(a) => PrefixView::DeviceNs(a@),
            PathPrefix::Unc(a, b) => PrefixView::Unc(a@, b@),
            PathPrefix::Disk(d) => PrefixView::Disk(d),
        }
    }
}

impl View for PathComponent {
    type V = ComponentView;

    open spec fn view(&self) -> ComponentView {
        match *self {
            PathComponent::Prefix(p, raw) => ComponentView::Prefix(p@, raw@),
            PathComponent::RootDir => ComponentView::RootDir,
            PathComponent::CurDir => ComponentView::CurDir,
            PathComponent::ParentDir => ComponentView::ParentDir,
            PathComponent::Normal(a) => ComponentView::Normal(a@),
        }
    }
}

/// The values of a list of components.
pub open spec fn component_views(v: Seq<PathComponent>) -> Seq<ComponentView> {
    Seq::new(v.len(), |i: int| v[i]@)
}

/// The values of a list of paths.
pub open spec fn path_views(v: Seq<SandboxPath>) -> Seq<Seq<u8>> {
    Seq::new(v.len(), |i: int| v[i]@)
}

/// The pieces of a list of byte runs.
pub open spec fn byte_views(v: Seq<Vec<u8>>) -> Seq<Seq<u8>> {
    Seq::new(v.len(), |i: int| v[i]@)
}

/// Which bytes separate components: `/` in Unix paths, `/` and `\` in Windows paths, and `\`
/// alone behind a verbatim prefix.
pub open spec fn is_separator(style: PathStyle, verbatim: bool, b: u8) -> bool {
    match style {
        PathStyle::Unix => b == 0x2f,
        PathStyle::Windows => b == 0x5c || (!verbatim && b == 0x2f),
    }
}

/// The place of the first separator at or after `from`, or the length where there is none.
pub open spec fn find_separator(style: PathStyle, verbatim: bool, s: Seq<u8>, from: int) -> int
    decreases s.len() - from,
{
    if from >= s.len() {
        s.len() as int
    } else if is_separator(style, verbatim, s[from]) {
        from
    } else {
        find_separator(style, verbatim, s, from + 1)
    }
}

/// What stands in front of the first separator.
pub open spec fn first_piece(verbatim: bool, s: Seq<u8>) -> Seq<u8> {
    s.take(find_separator(PathStyle::Windows, verbatim, s, 0))
}

/// What stands behind the first separator.
pub open spec fn after_first_piece(verbatim: bool, s: Seq<u8>) -> Seq<u8> {
    let at = find_separator(PathStyle::Windows, verbatim, s, 0);
    if at < s.len() {
        s.subrange(at + 1, s.len() as int)
    } else {
        Seq::empty()
    }
}

/// A drive letter and a colon at the start.
pub open spec fn starts_with_drive(s: Seq<u8>) -> bool {
    s.len() >= 2 && is_letter(s[0]) && s[1] == 0x3a
}

/// `\\` at the start, written with either separator.
pub open spec fn starts_with_two_separators(s: Seq<u8>) -> bool {
    s.len() >= 2 && is_separator(PathStyle::Windows, false, s[0]) && is_separator(
        PathStyle::Windows,
        false,
        s[1],
    )
}

/// `\\?\` at the start, written with backslashes only.
pub open spec fn starts_verbatim(s: Seq<u8>) -> bool {
    s.len() >= 4 && s[0] == 0x5c && s[1] == 0x5c && s[2] == 0x3f && s[3] == 0x5c
}

/// `\\.\` at the start, written with either separator.
pub open spec fn starts_device(s: Seq<u8>) -> bool {
    starts_with_two_separators(s) && s.len() >= 4 && s[2] == 0x2e && is_separator(
        PathStyle::Windows,
        false,
        s[3],
    )
}

/// `UNC\` behind the four bytes that start a verbatim path, written with either separator.
pub open spec fn starts_verbatim_unc(s: Seq<u8>) -> bool {
    starts_verbatim(s) && s.len() >= 8 && s[4] == 0x55 && s[5] == 0x4e && s[6] == 0x43
        && is_separator(PathStyle::Windows, false, s[7])
}

/// The prefix of a path. Unix paths have none. A Windows path has one where it starts with a
/// drive (`C:`), a share (`\\server\share`), a device (`\\.\name`) or a verbatim form of these
/// (`\\?\C:`, `\\?\UNC\server\share`, `\\?\name`).
pub open spec fn prefix_of(style: PathStyle, s: Seq<u8>) -> Option<PrefixView> {
    if style == PathStyle::Unix {
        None
    } else if starts_verbatim_unc(s) {
        let rest = s.subrange(8, s.len() as int);
        Some(
            PrefixView::VerbatimUnc(
                first_piece(true, rest),
                first_piece(true, after_first_piece(true, rest)),
            ),
        )
    } else if starts_verbatim(s) {
        let rest = s.subrange(4, s.len() as int);
        if starts_with_drive(rest) && (rest.len() == 2 || is_separator(
            PathStyle::Windows,
            false,
            rest[2],
        )) {
            Some(PrefixView::VerbatimDisk(upper_byte(rest[0])))
        } else {
            Some(PrefixView::Verbatim(first_piece(true, rest)))
        }
    } else if starts_device(s) {
        Some(PrefixView::DeviceNs(first_piece(false, s.subrange(4, s.len() as int))))
    } else if starts_with_two_separators(s) {
        let rest = s.subrange(2, s.len() as int);
        let server = first_piece(false, rest);
        let share = first_piece(false, after_first_piece(false, rest));
        if server.len() > 0 && share.len() > 0 {
            Some(PrefixView::Unc(server, share))
        } else {
            None
        }
    } else if starts_with_drive(s) {
        Some(PrefixView::Disk(upper_byte(s[0])))
    } else {
        None
    }
}

/// How many bytes a prefix takes up.
pub open spec fn prefix_len(p: Option<PrefixView>) -> int {
    match p {
        None => 0,
        Some(PrefixView::Verbatim(a)) => 4 + a.len() as int,
        Some(PrefixView::VerbatimUnc(a, b)) => 8 + a.len() + share_len(b),
        Some(PrefixView::VerbatimDisk(_)) => 6,
        Some(PrefixView::DeviceNs(a)) => 4 + a.len() as int,
        Some(PrefixView::Unc(a, b)) => 2 + a.len() + share_len(b),
        Some(PrefixView::Disk(_)) => 2,
    }
}

/// The bytes that a path's prefix is written with.
pub open spec fn prefix_text(style: PathStyle, s: Seq<u8>) -> Seq<u8> {
    s.take(prefix_len(prefix_of(style, s)))
}

/// How many bytes a share takes up with the separator in front of it.
pub open spec fn share_len(share: Seq<u8>) -> int {
    if share.len() > 0 {
        1 + share.len() as int
    } else {
        0
    }
}

/// A prefix that starts with `\\?\`.
pub open spec fn is_verbatim(p: Option<PrefixView>) -> bool {
    p matches Some(PrefixView::Verbatim(_)) || p matches Some(PrefixView::VerbatimUnc(_, _))
        || p matches Some(PrefixView::VerbatimDisk(_))
}

/// A share or a device: its path starts at a root whether or not a separator follows.
pub open spec fn has_implied_root(p: Option<PrefixView>) -> bool {
    p matches Some(PrefixView::DeviceNs(_)) || p matches Some(PrefixView::Unc(_, _))
}

/// The pieces between separators.
pub open spec fn split_path(style: PathStyle, verbatim: bool, s: Seq<u8>) -> Seq<Seq<u8>>
    decreases s.len(),
{
    if s.len() == 0 {
        seq![Seq::<u8>::empty()]
    } else {
        let front = split_path(style, verbatim, s.drop_last());
        if is_separator(style, verbatim, s.last()) {
            front.push(Seq::<u8>::empty())
        } else {
            front.update(front.len() - 1, front.last().push(s.last()))
        }
    }
}

/// What one piece stands for: nothing where it is empty, and nothing where it is `.` except
/// behind a verbatim prefix.
pub open spec fn piece_components(verbatim: bool, piece: Seq<u8>) -> Seq<ComponentView> {
    if piece.len() == 0 {
        Seq::empty()
    } else if piece == seq![0x2eu8] {
        if verbatim {
            seq![ComponentView::CurDir]
        } else {
            Seq::empty()
        }
    } else if piece == seq![0x2eu8, 0x2eu8] {
        seq![ComponentView::ParentDir]
    } else {
        seq![ComponentView::Normal(piece)]
    }
}

/// What some pieces stand for.
pub open spec fn pieces_components(verbatim: bool, pieces: Seq<Seq<u8>>) -> Seq<ComponentView>
    decreases pieces.len(),
{
    if pieces.len() == 0 {
        Seq::empty()
    } else {
        pieces_components(verbatim, pieces.drop_last()) + piece_components(verbatim, pieces.last())
    }
}

/// A path that starts with `.` and then ends or goes on with a separator.
pub open spec fn starts_in_cur_dir(style: PathStyle, s: Seq<u8>) -> bool {
    s.len() >= 1 && s[0] == 0x2e && (s.len() == 1 || is_separator(style, false, s[1]))
}

/// The components of a path: its prefix, its root or the `.` that it starts with, and what its
/// pieces stand for.
pub open spec fn components(style: PathStyle, s: Seq<u8>) -> Seq<ComponentView> {
    let p = prefix_of(style, s);
    let n = prefix_len(p);
    let rest = s.subrange(n, s.len() as int);
    let head = match p {
        Some(x) => seq![ComponentView::Prefix(x, s.take(n))],
        None => Seq::empty(),
    };
    let tail = rest.subrange(1, rest.len() as int);
    if rest.len() > 0 && is_separator(style, false, rest[0]) {
        head + seq![ComponentView::RootDir] + pieces_components(
            is_verbatim(p),
            split_path(style, is_verbatim(p), tail),
        )
    } else if has_implied_root(p) {
        head + seq![ComponentView::RootDir] + pieces_components(
            is_verbatim(p),
            split_path(style, is_verbatim(p), rest),
        )
    } else if p is None && starts_in_cur_dir(style, rest) {
        head + seq![ComponentView::CurDir] + pieces_components(
            is_verbatim(p),
            split_path(style, is_verbatim(p), tail),
        )
    } else {
        head + Seq::<ComponentView>::empty() + pieces_components(
            is_verbatim(p),
            split_path(style, is_verbatim(p), rest),
        )
    }
}

/// How many components a path has.
pub open spec fn depth(style: PathStyle, s: Seq<u8>) -> nat {
    components(style, s).len()
}

/// The bytes that a component is written with.
pub open spec fn component_text(style: PathStyle, c: ComponentView) -> Seq<u8> {
    match c {
        ComponentView::Prefix(_, raw) => raw,
        ComponentView::RootDir => seq![main_separator(style)],
        ComponentView::CurDir => seq![0x2eu8],
        ComponentView::ParentDir => seq![0x2eu8, 0x2eu8],
        ComponentView::Normal(a) => a,
    }
}

/// The separator that a style writes.
pub open spec fn main_separator(style: PathStyle) -> u8 {
    match style {
        PathStyle::Unix => 0x2f,
        PathStyle::Windows => 0x5c,
    }
}

/// The bytes with each encoded surrogate replaced by U+FFFD: the well-formed text that comes
/// closest to a Windows path.
pub open spec fn replace_surrogates(s: Seq<u8>) -> Seq<u8>
    decreases s.len(),
{
    if s.len() == 0 {
        s
    } else if s.len() >= 3 && s[0] == 0xed && s[1] >= 0xa0 {
        seq![0xefu8, 0xbfu8, 0xbdu8] + replace_surrogates(s.subrange(3, s.len() as int))
    } else {
        seq![s[0]] + replace_surrogates(s.subrange(1, s.len() as int))
    }
}

/// The well-formed bytes behind a path's text: in Windows paths surrogates are replaced.
pub open spec fn textual(style: PathStyle, s: Seq<u8>) -> Seq<u8> {
    match style {
        PathStyle::Unix => s,
        PathStyle::Windows => replace_surrogates(s),
    }
}

/// The text of a path, as messages show it.
pub open spec fn display_text(style: PathStyle, s: Seq<u8>) -> Seq<char> {
    lossy_text(textual(style, s))
}

/// Two component texts that name the same thing: the same bytes, or on Windows the same text up
/// to the case of ASCII letters.
pub open spec fn same_component(style: PathStyle, a: Seq<u8>, b: Seq<u8>) -> bool {
    match style {
        PathStyle::Unix => a == b,
        PathStyle::Windows => lower_bytes(replace_surrogates(a)) == lower_bytes(
            replace_surrogates(b),
        ),
    }
}

/// `path` is `ancestor` or lies below it: the components of `ancestor` are the first components
/// of `path`.
pub open spec fn is_below(style: PathStyle, path: Seq<u8>, ancestor: Seq<u8>) -> bool {
    let p = components(style, path);
    let a = components(style, ancestor);
    &&& a.len() <= p.len()
    &&& forall|i: int|
        0 <= i < a.len() ==> same_component(
            style,
            component_text(style, #[trigger] a[i]),
            component_text(style, p[i]),
        )
}

/// Bytes as numbers of an order key; every one of them is above the marks that end a text.
pub open spec fn key_bytes(s: Seq<u8>) -> Seq<u32> {
    Seq::new(s.len(), |i: int| (s[i] + 2) as u32)
}

/// The numbers by which a component is ordered: its rank, its bytes and an end mark.
pub open spec fn component_key(c: ComponentView) -> Seq<u32> {
    match c {
        ComponentView::Prefix(PrefixView::Verbatim(a), _) => seq![1u32] + key_bytes(a) + seq![0u32],
        ComponentView::Prefix(PrefixView::VerbatimUnc(a, b), _) => seq![2u32] + key_bytes(a)
            + seq![1u32] + key_bytes(b) + seq![0u32],
        ComponentView::Prefix(PrefixView::VerbatimDisk(d), _) => seq![3u32] + key_bytes(seq![d])
            + seq![0u32],
        ComponentView::Prefix(PrefixView::DeviceNs(a), _) => seq![4u32] + key_bytes(a) + seq![0u32],
        ComponentView::Prefix(PrefixView::Unc(a, b), _) => seq![5u32] + key_bytes(a) + seq![1u32]
            + key_bytes(b) + seq![0u32],
        ComponentView::Prefix(PrefixView::Disk(d), _) => seq![6u32] + key_bytes(seq![d])
            + seq![0u32],
        ComponentView::RootDir => seq![7u32] + key_bytes(Seq::empty()) + seq![0u32],
        ComponentView::CurDir => seq![8u32] + key_bytes(Seq::empty()) + seq![0u32],
        ComponentView::ParentDir => seq![9u32] + key_bytes(Seq::empty()) + seq![0u32],
        ComponentView::Normal(a) => seq![10u32] + key_bytes(a) + seq![0u32],
    }
}

/// The keys of some components, one behind the other.
pub open spec fn components_key(cs: Seq<ComponentView>) -> Seq<u32>
    decreases cs.len(),
{
    if cs.len() == 0 {
        Seq::empty()
    } else {
        components_key(cs.drop_last()) + component_key(cs.last())
    }
}

/// The key that identifies a path and orders it among others, component by component. Two paths
/// are the same path exactly when their keys are equal.
pub open spec fn path_key(style: PathStyle, s: Seq<u8>) -> Seq<u32> {
    components_key(components(style, s))
}

fn separator(style: PathStyle, verbatim: bool, b: u8) -> (r: bool)
    ensures
        r == is_separator(style, verbatim, b),
{
    match style {
        PathStyle::Unix => b == 0x2f,
        PathStyle::Windows => b == 0x5c || (!verbatim && b == 0x2f),
    }
}

fn separator_place(verbatim: bool, s: &[u8], from: usize) -> (r: usize)
    requires
        from <= s.len(),
    ensures
        from <= r <= s.len(),
        r == find_separator(PathStyle::Windows, verbatim, s@, from as int),
    decreases s.len() - from,
{
    if from == s.len() {
        from
    } else if separator(PathStyle::Windows, verbatim, s[from]) {
        from
    } else {
        separator_place(verbatim, s, from + 1)
    }
}

proof fn lemma_find_separator(verbatim: bool, s: Seq<u8>, from: int)
    requires
        0 <= from <= s.len(),
    ensures
        from <= find_separator(PathStyle::Windows, verbatim, s, from) <= s.len(),
    decreases s.len() - from,
{
    if from < s.len() && !is_separator(PathStyle::Windows, verbatim, s[from]) {
        lemma_find_separator(verbatim, s, from + 1);
    }
}

/// A prefix never takes up more bytes than the path has.
pub proof fn prefix_fits(style: PathStyle, s: Seq<u8>)
    ensures
        0 <= prefix_len(prefix_of(style, s)) <= s.len(),
{
    if style == PathStyle::Windows {
        if starts_verbatim_unc(s) {
            lemma_two_pieces_fit(true, s.subrange(8, s.len() as int));
        } else if starts_verbatim(s) {
            lemma_two_pieces_fit(true, s.subrange(4, s.len() as int));
        } else if starts_device(s) {
            lemma_two_pieces_fit(false, s.subrange(4, s.len() as int));
        } else if starts_with_two_separators(s) {
            lemma_two_pieces_fit(false, s.subrange(2, s.len() as int));
        }
    }
}

proof fn lemma_two_pieces_fit(verbatim: bool, s: Seq<u8>)
    ensures
        ({
            let a = first_piece(verbatim, s);
            let b = first_piece(verbatim, after_first_piece(verbatim, s));
            a.len() + share_len(b) <= s.len()
        }),
{
    lemma_find_separator(verbatim, s, 0);
    lemma_find_separator(verbatim, after_first_piece(verbatim, s), 0);
}

fn first_of(verbatim: bool, s: &[u8]) -> (r: (Vec<u8>, Vec<u8>))
    ensures
        r.0@ == first_piece(verbatim, s@),
        r.1@ == after_first_piece(verbatim, s@),
{
    let at = separator_place(verbatim, s, 0);
    assert(s@.subrange(0, at as int) =~= s@.take(at as int));
    let piece = copy_range(s, 0, at);
    if at < s.len() {
        (piece, copy_range(s, at + 1, s.len()))
    } else {
        (piece, Vec::new())
    }
}

fn to_upper_byte(b: u8) -> (r: u8)
    ensures
        r == upper_byte(b),
{
    if 97 <= b && b <= 122 {
        b - 32
    } else {
        b
    }
}

fn letter(b: u8) -> (r: bool)
    ensures
        r == is_letter(b),
{
    (65 <= b && b <= 90) || (97 <= b && b <= 122)
}

/// The prefix of a path.
pub fn parse_prefix(style: PathStyle, s: &[u8]) -> (r: Option<PathPrefix>)
    ensures
        match r {
            Some(p) => prefix_of(style, s@) == Some(p@),
            None => prefix_of(style, s@) is None,
        },
{
    if style == PathStyle::Unix {
        return None;
    }
    let n: usize = s.len();
    let w = PathStyle::Windows;
    if n >= 4 && s[0] == 0x5c && s[1] == 0x5c && s[2] == 0x3f && s[3] == 0x5c {
        if n >= 8 && s[4] == 0x55 && s[5] == 0x4e && s[6] == 0x43 && separator(w, false, s[7]) {
            let rest = copy_range(s, 8, n);
            let (server, after) = first_of(true, rest.as_slice());
            let (share, _) = first_of(true, after.as_slice());
            return Some(PathPrefix::VerbatimUnc(server, share));
        }
        let rest = copy_range(s, 4, n);
        if rest.len() >= 2 && letter(rest[0]) && rest[1] == 0x3a && (rest.len() == 2 || separator(
            w,
            false,
            rest[2],
        )) {
            return Some(PathPrefix::VerbatimDisk(to_upper_byte(rest[0])));
        }
        let (name, _) = first_of(true, rest.as_slice());
        return Some(PathPrefix::Verbatim(name));
    }
    if n >= 2 && separator(w, false, s[0]) && separator(w, false, s[1]) {
        if n >= 4 && s[2] == 0x2e && separator(w, false, s[3]) {
            let rest = copy_range(s, 4, n);
            let (name, _) = first_of(false, rest.as_slice());
            return Some(PathPrefix::DeviceNs(name));
        }
        let rest = copy_range(s, 2, n);
        let (server, after) = first_of(false, rest.as_slice());
        let (share, _) = first_of(false, after.as_slice());
        if server.len() > 0 && share.len() > 0 {
            return Some(PathPrefix::Unc(server, share));
        }
        return None;
    }
    if n >= 2 && letter(s[0]) && s[1] == 0x3a {
        return Some(PathPrefix::Disk(to_upper_byte(s[0])));
    }
    None
}

fn prefix_length(p: &PathPrefix) -> (r: usize)
    requires
        prefix_len(Some(p@)) <= usize::MAX,
    ensures
        r == prefix_len(Some(p@)),
{
    match p {
        PathPrefix::Verbatim(a) => 4 + a.len(),
        PathPrefix::VerbatimUnc(a, b) => if b.len() > 0 {
            8 + a.len() + 1 + b.len()
        } else {
            8 + a.len()
        },
        PathPrefix::VerbatimDisk(_) => 6,
        PathPrefix::DeviceNs(a) => 4 + a.len(),
        PathPrefix::Unc(a, b) => if b.len() > 0 {
            2 + a.len() + 1 + b.len()
        } else {
            2 + a.len()
        },
        PathPrefix::Disk(_) => 2,
    }
}

fn pieces_of(style: PathStyle, verbatim: bool, s: &[u8]) -> (r: Vec<Vec<u8>>)
    ensures
        byte_views(r@) == split_path(style, verbatim, s@),
{
    let mut done: Vec<Vec<u8>> = Vec::new();
    let mut piece: Vec<u8> = Vec::new();
    assert(byte_views(done@).push(piece@) =~= split_path(style, verbatim, s@.take(0)));
    for i in 0..s.len()
        invariant
            byte_views(done@).push(piece@) == split_path(style, verbatim, s@.take(i as int)),
    {
        let ghost before = byte_views(done@).push(piece@);
        proof {
            assert(s@.take(i + 1).drop_last() =~= s@.take(i as int));
            assert(s@.take(i + 1).last() == s@[i as int]);
        }
        if separator(style, verbatim, s[i]) {
            done.push(piece);
            piece = Vec::new();
            assert(byte_views(done@) =~= before);
            assert(byte_views(done@).push(piece@) =~= before.push(Seq::<u8>::empty()));
        } else {
            piece.push(s[i]);
            assert(byte_views(done@).push(piece@) =~= before.update(
                before.len() - 1,
                before.last().push(s@[i as int]),
            ));
        }
    }
    assert(s@.take(s.len() as int) =~= s@);
    let ghost all = byte_views(done@).push(piece@);
    done.push(piece);
    assert(byte_views(done@) =~= all);
    done
}

fn push_piece(out: &mut Vec<PathComponent>, verbatim: bool, piece: &Vec<u8>)
    ensures
        component_views(final(out)@) == component_views(old(out)@) + piece_components(
            verbatim,
            piece@,
        ),
{
    let ghost before = component_views(out@);
    if piece.len() == 0 {
        assert(component_views(out@) =~= before + Seq::empty());
    } else if piece.len() == 1 && piece[0] == 0x2e {
        assert(piece@ =~= seq![0x2eu8]);
        if verbatim {
            out.push(PathComponent::CurDir);
            assert(component_views(out@) =~= before + seq![ComponentView::CurDir]);
        } else {
            assert(component_views(out@) =~= before + Seq::empty());
        }
    } else if piece.len() == 2 && piece[0] == 0x2e && piece[1] == 0x2e {
        assert(piece@ =~= seq![0x2eu8, 0x2eu8]);
        assert(piece@ != seq![0x2eu8]);
        out.push(PathComponent::ParentDir);
        assert(component_views(out@) =~= before + seq![ComponentView::ParentDir]);
    } else {
        assert(piece@ != seq![0x2eu8]) by {
            if piece@ == seq![0x2eu8] {
                assert(piece@[0] == 0x2e);
            }
        }
        assert(piece@ != seq![0x2eu8, 0x2eu8]) by {
            if piece@ == seq![0x2eu8, 0x2eu8] {
                assert(piece@[0] == 0x2e && piece@[1] == 0x2e);
            }
        }
        out.push(PathComponent::Normal(copy_bytes(piece.as_slice())));
        assert(component_views(out@) =~= before + seq![ComponentView::Normal(piece@)]);
    }
}

fn push_pieces(out: &mut Vec<PathComponent>, verbatim: bool, pieces: &Vec<Vec<u8>>)
    ensures
        component_views(final(out)@) == component_views(old(out)@) + pieces_components(
            verbatim,
            byte_views(pieces@),
        ),
{
    let ghost before = component_views(out@);
    let ghost all = byte_views(pieces@);
    assert(before + pieces_components(verbatim, all.take(0)) =~= before);
    for i in 0..pieces.len()
        invariant
            all == byte_views(pieces@),
            component_views(out@) == before + pieces_components(verbatim, all.take(i as int)),
    {
        proof {
            assert(all.take(i + 1).drop_last() =~= all.take(i as int));
            assert(all.take(i + 1).last() == pieces@[i as int]@);
        }
        push_piece(out, verbatim, &pieces[i]);
        assert(component_views(out@) =~= before + pieces_components(verbatim, all.take(i + 1)));
    }
    assert(all.take(pieces.len() as int) =~= all);
}

impl Clone for SandboxPath {
    fn clone(&self) -> (r: SandboxPath)
        ensures
            r@ == self@,
    {
        SandboxPath { bytes: copy_bytes(self.bytes.as_slice()) }
    }
}

impl SandboxPath {
    /// The path that a text writes.
    pub fn from_text(text: &str) -> (r: SandboxPath)
        ensures
            r@ == vstd::utf8::encode_utf8(text@),
    {
        SandboxPath { bytes: text.as_bytes_vec() }
    }

    /// The path with the given bytes.
    pub fn from_bytes(bytes: Vec<u8>) -> (r: SandboxPath)
        ensures
            r@ == bytes@,
    {
        SandboxPath { bytes }
    }

    /// Whether the path has no bytes at all.
    pub fn is_empty(&self) -> (r: bool)
        ensures
            r == (self@.len() == 0),
    {
        self.bytes.len() == 0
    }

    /// The components of this path.
    pub fn components(&self, style: PathStyle) -> (r: Vec<PathComponent>)
        ensures
            component_views(r@) == components(style, self@),
    {
        let s = self.bytes.as_slice();
        let len: usize = s.len();
        let p = parse_prefix(style, s);
        let mut out: Vec<PathComponent> = Vec::new();
        let mut n: usize = 0;
        let mut verbatim = false;
        let mut implied = false;
        let mut prefixed = false;
        let ghost pv = prefix_of(style, s@);
        proof {
            prefix_fits(style, s@);
        }
        match p {
            None => {
                assert(component_views(out@) =~= Seq::empty());
            },
            Some(prefix) => {
                n = prefix_length(&prefix);
                prefixed = true;
                match &prefix {
                    PathPrefix::Verbatim(_) => {
                        verbatim = true;
                    },
                    PathPrefix::VerbatimUnc(_, _) => {
                        verbatim = true;
                    },
                    PathPrefix::VerbatimDisk(_) => {
                        verbatim = true;
                    },
                    PathPrefix::DeviceNs(_) => {
                        implied = true;
                    },
                    PathPrefix::Unc(_, _) => {
                        implied = true;
                    },
                    PathPrefix::Disk(_) => {},
                }
                let raw = copy_range(s, 0, n);
                assert(raw@ =~= s@.take(n as int));
                out.push(PathComponent::Prefix(prefix, raw));
                assert(component_views(out@) =~= seq![
                    ComponentView::Prefix(pv->0, s@.take(n as int)),
                ]);
            },
        }
        let ghost head = component_views(out@);
        let rest = copy_range(s, n, len);
        if rest.len() > 0 && separator(style, false, rest[0]) {
            out.push(PathComponent::RootDir);
            assert(component_views(out@) =~= head + seq![ComponentView::RootDir]);
            let tail = copy_range(rest.as_slice(), 1, rest.len());
            let pieces = pieces_of(style, verbatim, tail.as_slice());
            push_pieces(&mut out, verbatim, &pieces);
        } else if implied {
            out.push(PathComponent::RootDir);
            assert(component_views(out@) =~= head + seq![ComponentView::RootDir]);
            let pieces = pieces_of(style, verbatim, rest.as_slice());
            push_pieces(&mut out, verbatim, &pieces);
        } else if !prefixed && rest.len() >= 1 && rest[0] == 0x2e && (rest.len() == 1 || separator(
            style,
            false,
            rest[1],
        )) {
            out.push(PathComponent::CurDir);
            assert(component_views(out@) =~= head + seq![ComponentView::CurDir]);
            let tail = copy_range(rest.as_slice(), 1, rest.len());
            let pieces = pieces_of(style, verbatim, tail.as_slice());
            push_pieces(&mut out, verbatim, &pieces);
        } else {
            assert(component_views(out@) =~= head + Seq::<ComponentView>::empty());
            let pieces = pieces_of(style, verbatim, rest.as_slice());
            push_pieces(&mut out, verbatim, &pieces);
        }
        out
    }

    /// How many components this path has.
    pub fn depth(&self, style: PathStyle) -> (r: usize)
        ensures
            r == depth(style, self@),
    {
        let cs = self.components(style);
        assert(component_views(cs@).len() == cs.len());
        cs.len()
    }

    /// The text of this path, as messages show it.
    pub fn display(&self, style: PathStyle) -> (r: String)
        ensures
            r@ == display_text(style, self@),
    {
        match style {
            PathStyle::Unix => lossy_string(self.bytes.as_slice()),
            PathStyle::Windows => {
                let plain = without_surrogates(self.bytes.as_slice());
                lossy_string(plain.as_slice())
            },
        }
    }

    /// The key that identifies this path and orders it among others.
    pub fn key(&self, style: PathStyle) -> (r: Vec<u32>)
        ensures
            r@ == path_key(style, self@),
    {
        let cs = self.components(style);
        let ghost all = component_views(cs@);
        let mut r: Vec<u32> = Vec::new();
        for i in 0..cs.len()
            invariant
                all == component_views(cs@),
                r@ == components_key(all.take(i as int)),
        {
            proof {
                assert(all.take(i + 1).drop_last() =~= all.take(i as int));
                assert(all.take(i + 1).last() == cs@[i as int]@);
            }
            push_component_key(&mut r, &cs[i]);
        }
        assert(all.take(cs.len() as int) =~= all);
        r
    }
}

/// Replaces each encoded surrogate by U+FFFD.
pub fn without_surrogates(s: &[u8]) -> (r: Vec<u8>)
    ensures
        r@ == replace_surrogates(s@),
{
    let mut r: Vec<u8> = Vec::new();
    let mut i: usize = 0;
    assert(s@.subrange(0, s@.len() as int) =~= s@);
    while i < s.len()
        invariant
            i <= s.len(),
            r@ + replace_surrogates(s@.subrange(i as int, s@.len() as int)) == replace_surrogates(
                s@,
            ),
        decreases s.len() - i,
    {
        let ghost rest = s@.subrange(i as int, s@.len() as int);
        let ghost before = r@;
        if s.len() - i >= 3 && s[i] == 0xed && s[i + 1] >= 0xa0 {
            r.push(0xef);
            r.push(0xbf);
            r.push(0xbd);
            proof {
                let next = s@.subrange(i + 3, s@.len() as int);
                assert(rest.subrange(3, rest.len() as int) =~= next);
                assert(r@ + replace_surrogates(next) =~= before + (seq![0xefu8, 0xbfu8, 0xbdu8]
                    + replace_surrogates(next)));
            }
            i = i + 3;
        } else {
            r.push(s[i]);
            proof {
                let next = s@.subrange(i + 1, s@.len() as int);
                assert(rest.subrange(1, rest.len() as int) =~= next);
                assert(r@ + replace_surrogates(next) =~= before + (seq![rest[0]]
                    + replace_surrogates(next)));
            }
            i = i + 1;
        }
    }
    assert(r@ + replace_surrogates(s@.subrange(i as int, s@.len() as int)) =~= r@);
    r
}

fn push_key_bytes(r: &mut Vec<u32>, s: &[u8])
    ensures
        final(r)@ == old(r)@ + key_bytes(s@),
{
    for i in 0..s.len()
        invariant
            r@ =~= old(r)@ + key_bytes(s@).take(i as int),
    {
        r.push(s[i] as u32 + 2);
    }
    assert(key_bytes(s@).take(s.len() as int) =~= key_bytes(s@));
}

fn push_key(r: &mut Vec<u32>, rank: u32, s: &[u8])
    ensures
        final(r)@ == old(r)@ + (seq![rank] + key_bytes(s@) + seq![0u32]),
{
    let ghost before = r@;
    r.push(rank);
    push_key_bytes(r, s);
    r.push(0);
    assert(r@ =~= before + (seq![rank] + key_bytes(s@) + seq![0u32]));
}

fn push_pair_key(r: &mut Vec<u32>, rank: u32, a: &[u8], b: &[u8])
    ensures
        final(r)@ == old(r)@ + (seq![rank] + key_bytes(a@) + seq![1u32] + key_bytes(b@) + seq![
            0u32,
        ]),
{
    let ghost before = r@;
    r.push(rank);
    push_key_bytes(r, a);
    r.push(1);
    push_key_bytes(r, b);
    r.push(0);
    assert(r@ =~= before + (seq![rank] + key_bytes(a@) + seq![1u32] + key_bytes(b@) + seq![0u32]));
}

fn push_component_key(r: &mut Vec<u32>, c: &PathComponent)
    ensures
        final(r)@ == old(r)@ + component_key(c@),
{
    let none: Vec<u8> = Vec::new();
    match c {
        PathComponent::Prefix(PathPrefix::Verbatim(a), _) => push_key(r, 1, a.as_slice()),
        PathComponent::Prefix(PathPrefix::VerbatimUnc(a, b), _) => push_pair_key(
            r,
            2,
            a.as_slice(),
            b.as_slice(),
        ),
        PathComponent::Prefix(PathPrefix::VerbatimDisk(d), _) => push_letter_key(r, 3, *d),
        PathComponent::Prefix(PathPrefix::DeviceNs(a), _) => push_key(r, 4, a.as_slice()),
        PathComponent::Prefix(PathPrefix::Unc(a, b), _) => push_pair_key(
            r,
            5,
            a.as_slice(),
            b.as_slice(),
        ),
        PathComponent::Prefix(PathPrefix::Disk(d), _) => push_letter_key(r, 6, *d),
        PathComponent::RootDir => push_key(r, 7, none.as_slice()),
        PathComponent::CurDir => push_key(r, 8, none.as_slice()),
        PathComponent::ParentDir => push_key(r, 9, none.as_slice()),
        PathComponent::Normal(a) => push_key(r, 10, a.as_slice()),
    }
}

fn push_letter_key(r: &mut Vec<u32>, rank: u32, letter: u8)
    ensures
        final(r)@ == old(r)@ + (seq![rank] + key_bytes(seq![letter]) + seq![0u32]),
{
    let mut one: Vec<u8> = Vec::new();
    one.push(letter);
    assert(one@ =~= seq![letter]);
    push_key(r, rank, one.as_slice());
}

/// The bytes that a component is written with.
pub fn component_bytes(style: PathStyle, c: &PathComponent) -> (r: Vec<u8>)
    ensures
        r@ == component_text(style, c@),
{
    let mut r: Vec<u8> = Vec::new();
    match c {
        PathComponent::Prefix(_, raw) => {
            r = copy_bytes(raw.as_slice());
        },
        PathComponent::RootDir => {
            match style {
                PathStyle::Unix => r.push(0x2f),
                PathStyle::Windows => r.push(0x5c),
            }
            assert(r@ =~= seq![main_separator(style)]);
        },
        PathComponent::CurDir => {
            r.push(0x2e);
            assert(r@ =~= seq![0x2eu8]);
        },
        PathComponent::ParentDir => {
            r.push(0x2e);
            r.push(0x2e);
            assert(r@ =~= seq![0x2eu8, 0x2eu8]);
        },
        PathComponent::Normal(a) => {
            r = copy_bytes(a.as_slice());
        },
    }
    r
}

/// Whether two component texts name the same thing.
pub fn path_component_eq(style: PathStyle, left: &[u8], right: &[u8]) -> (r: bool)
    ensures
        r == same_component(style, left@, right@),
{
    match style {
        PathStyle::Unix => same_bytes(left, right),
        PathStyle::Windows => {
            let a = without_surrogates(left);
            let b = without_surrogates(right);
            let x = to_lower_bytes(a.as_slice());
            let y = to_lower_bytes(b.as_slice());
            same_bytes(x.as_slice(), y.as_slice())
        },
    }
}

/// Whether a path is another or lies below it.
pub fn is_same_or_descendant(style: PathStyle, path: &SandboxPath, ancestor: &SandboxPath) -> (r:
    bool)
    ensures
        r == is_below(style, path@, ancestor@),
{
    let p = path.components(style);
    let a = ancestor.components(style);
    let ghost pv = components(style, path@);
    let ghost av = components(style, ancestor@);
    assert(component_views(p@).len() == p.len() && component_views(a@).len() == a.len());
    if a.len() > p.len() {
        return false;
    }
    for i in 0..a.len()
        invariant
            pv == components(style, path@),
            av == components(style, ancestor@),
            component_views(p@) == pv,
            component_views(a@) == av,
            a.len() <= p.len(),
            forall|j: int|
                0 <= j < i ==> same_component(
                    style,
                    component_text(style, #[trigger] av[j]),
                    component_text(style, pv[j]),
                ),
    {
        assert(av[i as int] == a@[i as int]@ && pv[i as int] == p@[i as int]@);
        let x = component_bytes(style, &a[i]);
        let y = component_bytes(style, &p[i]);
        if !path_component_eq(style, x.as_slice(), y.as_slice()) {
            return false;
        }
    }
    true
}

/// Whether two paths are the same path.
pub fn same_path(style: PathStyle, a: &SandboxPath, b: &SandboxPath) -> (r: bool)
    ensures
        r == (path_key(style, a@) == path_key(style, b@)),
{
    let x = a.key(style);
    let y = b.key(style);
    same_numbers(&x, &y)
}

/// `std::path::MAIN_SEPARATOR`: the separator of the host's paths. It is `\` on Windows and `/` on
/// Unix systems; nothing is said of it here, since it depends on the machine.
#[verifier::external_body]
fn host_separator() -> (r: char) {
    std::path::MAIN_SEPARATOR
}

/// The style of the paths whose main separator this is.
pub fn style_with_separator(separator: char) -> (r: PathStyle)
    ensures
        r == if separator == '\\' {
            PathStyle::Windows
        } else {
            PathStyle::Unix
        },
{
    if separator == '\\' {
        PathStyle::Windows
    } else {
        PathStyle::Unix
    }
}

/// `r` says whether two paths are the same path in the style of the host, whichever that is.
pub open spec fn same_in_some_style(a: Seq<u8>, b: Seq<u8>, r: bool) -> bool {
    exists|style: PathStyle| r == (#[trigger] path_key(style, a) == path_key(style, b))
}

impl PartialEq for SandboxPath {
    fn eq(&self, other: &SandboxPath) -> (r: bool)
        ensures
            same_in_some_style(self@, other@, r),
    {
        let style = style_with_separator(host_separator());
        same_path(style, self, other)
    }
}

impl vstd::std_specs::cmp::PartialEqSpecImpl for SandboxPath {
    /// What `==` gives depends on the host: contracts compare keys of a named style in its place.
    open spec fn obeys_eq_spec() -> bool {
        false
    }

    open spec fn eq_spec(&self, other: &SandboxPath) -> bool {
        self@ == other@
    }
}

impl Eq for SandboxPath {

}

/// A separator goes in front of what is added, unless one is there or the path is a bare drive.
pub open spec fn needs_separator(base: Seq<u8>) -> bool {
    &&& base.len() > 0
    &&& !is_separator(PathStyle::Windows, false, base.last())
    &&& !(prefix_of(PathStyle::Windows, base) matches Some(PrefixView::Disk(_)) && base.len() == 2)
}

/// The components of a verbatim path with those of a part added: `.` and `..` are worked out, and a
/// root takes the place of all but the prefix.
pub open spec fn joined_components(cs: Seq<ComponentView>, part: Seq<ComponentView>) -> Seq<
    ComponentView,
>
    decreases part.len(),
{
    if part.len() == 0 {
        cs
    } else {
        let front = joined_components(cs, part.drop_last());
        match part.last() {
            ComponentView::RootDir => if front.len() > 1 {
                front.take(1).push(ComponentView::RootDir)
            } else {
                front.push(ComponentView::RootDir)
            },
            ComponentView::CurDir => front,
            ComponentView::ParentDir => if front.len() > 0 && front.last() is Normal {
                front.drop_last()
            } else {
                front
            },
            c => front.push(c),
        }
    }
}

/// A separator stands behind this component, unless a root follows.
pub open spec fn ends_with_separator(c: ComponentView) -> bool {
    match c {
        ComponentView::RootDir => false,
        ComponentView::Prefix(p, _) => !(p is Disk),
        _ => true,
    }
}

/// The Windows path that some components spell.
pub open spec fn spelled_components(cs: Seq<ComponentView>) -> Seq<u8>
    decreases cs.len(),
{
    if cs.len() == 0 {
        Seq::empty()
    } else {
        let front = spelled_components(cs.drop_last());
        let text = component_text(PathStyle::Windows, cs.last());
        if cs.len() > 1 && ends_with_separator(cs[cs.len() - 2]) && !(cs.last() is RootDir) {
            front.push(0x5c) + text
        } else {
            front + text
        }
    }
}

/// A Windows path with a part added. A part with a prefix takes the place of the path. A path with
/// a verbatim prefix is put together anew from its components and those of the part. To any other
/// path, a part that starts at the root takes the place of all but the prefix, and any other part
/// is appended.
pub open spec fn with_part(base: Seq<u8>, part: Seq<u8>) -> Seq<u8> {
    let w = PathStyle::Windows;
    if prefix_of(w, part) is Some {
        part
    } else if is_verbatim(prefix_of(w, base)) && part.len() > 0 {
        spelled_components(joined_components(components(w, base), components(w, part)))
    } else if part.len() > 0 && is_separator(w, false, part[0]) {
        base.take(prefix_len(prefix_of(w, base))) + part
    } else if needs_separator(base) {
        base.push(0x5c) + part
    } else {
        base + part
    }
}

/// A Windows path with some components added one after the other.
pub open spec fn with_components(base: Seq<u8>, cs: Seq<ComponentView>) -> Seq<u8>
    decreases cs.len(),
{
    if cs.len() == 0 {
        base
    } else {
        with_part(
            with_components(base, cs.drop_last()),
            component_text(PathStyle::Windows, cs.last()),
        )
    }
}

/// A Windows path in its short form: a verbatim drive becomes the drive and a verbatim share the
/// share; every other path stays as it is.
pub open spec fn without_verbatim_prefix(s: Seq<u8>) -> Seq<u8> {
    let cs = components(PathStyle::Windows, s);
    let rest = cs.subrange(1, cs.len() as int);
    match prefix_of(PathStyle::Windows, s) {
        Some(PrefixView::VerbatimDisk(letter)) => with_components(seq![letter, 0x3au8], rest),
        Some(PrefixView::VerbatimUnc(server, share)) => with_components(
            with_part(with_part(seq![0x5cu8, 0x5cu8], server), share),
            rest,
        ),
        _ => s,
    }
}

fn copy_prefix(p: &PathPrefix) -> (r: PathPrefix)
    ensures
        r@ == p@,
{
    match p {
        PathPrefix::Verbatim(a) => PathPrefix::Verbatim(copy_bytes(a.as_slice())),
        PathPrefix::VerbatimUnc(a, b) => PathPrefix::VerbatimUnc(
            copy_bytes(a.as_slice()),
            copy_bytes(b.as_slice()),
        ),
        PathPrefix::VerbatimDisk(d) => PathPrefix::VerbatimDisk(*d),
        PathPrefix::DeviceNs(a) => PathPrefix::DeviceNs(copy_bytes(a.as_slice())),
        PathPrefix::Unc(a, b) => PathPrefix::Unc(
            copy_bytes(a.as_slice()),
            copy_bytes(b.as_slice()),
        ),
        PathPrefix::Disk(d) => PathPrefix::Disk(*d),
    }
}

fn copy_component(c: &PathComponent) -> (r: PathComponent)
    ensures
        r@ == c@,
{
    match c {
        PathComponent::Prefix(p, raw) => PathComponent::Prefix(
            copy_prefix(p),
            copy_bytes(raw.as_slice()),
        ),
        PathComponent::RootDir => PathComponent::RootDir,
        PathComponent::CurDir => PathComponent::CurDir,
        PathComponent::ParentDir => PathComponent::ParentDir,
        PathComponent::Normal(a) => PathComponent::Normal(copy_bytes(a.as_slice())),
    }
}

fn add_component(out: &mut Vec<PathComponent>, c: &PathComponent)
    ensures
        component_views(final(out)@) == joined_components(
            component_views(old(out)@),
            seq![c@],
        ),
{
    let ghost before = component_views(out@);
    proof {
        let one = seq![c@];
        assert(one.drop_last() =~= Seq::empty());
        assert(one.last() == c@);
        assert(joined_components(before, one.drop_last()) == before);
        if before.len() > 0 {
            assert(before.last() == out@[out@.len() - 1]@);
        }
    }
    match c {
        PathComponent::RootDir => {
            if out.len() > 1 {
                out.truncate(1);
                assert(component_views(out@) =~= before.take(1));
            }
            let ghost kept = component_views(out@);
            out.push(PathComponent::RootDir);
            assert(component_views(out@) =~= kept.push(ComponentView::RootDir));
        },
        PathComponent::CurDir => {},
        PathComponent::ParentDir => {
            let len: usize = out.len();
            let named = len > 0 && match &out[len - 1] {
                PathComponent::Normal(_) => true,
                _ => false,
            };
            if named {
                let _ = out.pop();
                assert(component_views(out@) =~= before.drop_last());
            }
        },
        _ => {
            let copy = copy_component(c);
            out.push(copy);
            assert(component_views(out@) =~= before.push(c@));
        },
    }
}

proof fn lemma_joined_step(cs: Seq<ComponentView>, part: Seq<ComponentView>, n: int)
    requires
        0 <= n < part.len(),
    ensures
        joined_components(cs, part.take(n + 1)) == joined_components(
            joined_components(cs, part.take(n)),
            seq![part[n]],
        ),
{
    let front = joined_components(cs, part.take(n));
    let one = seq![part[n]];
    assert(part.take(n + 1).drop_last() =~= part.take(n));
    assert(part.take(n + 1).last() == part[n]);
    assert(one.drop_last() =~= Seq::empty());
    assert(one.last() == part[n]);
    assert(joined_components(front, one.drop_last()) == front);
}

fn separator_behind(c: &PathComponent) -> (r: bool)
    ensures
        r == ends_with_separator(c@),
{
    match c {
        PathComponent::RootDir => false,
        PathComponent::Prefix(p, _) => match p {
            PathPrefix::Disk(_) => false,
            _ => true,
        },
        _ => true,
    }
}

fn spell_components(cs: &Vec<PathComponent>) -> (r: Vec<u8>)
    ensures
        r@ == spelled_components(component_views(cs@)),
{
    let ghost all = component_views(cs@);
    let mut r: Vec<u8> = Vec::new();
    assert(r@ =~= spelled_components(all.take(0)));
    for i in 0..cs.len()
        invariant
            all == component_views(cs@),
            r@ == spelled_components(all.take(i as int)),
    {
        proof {
            assert(all.take(i + 1).drop_last() =~= all.take(i as int));
            assert(all.take(i + 1).last() == cs@[i as int]@);
            if i > 0 {
                assert(all.take(i + 1)[i - 1] == cs@[i - 1]@);
            }
        }
        let root = match &cs[i] {
            PathComponent::RootDir => true,
            _ => false,
        };
        if i > 0 && separator_behind(&cs[i - 1]) && !root {
            r.push(0x5c);
        }
        let text = component_bytes(PathStyle::Windows, &cs[i]);
        push_bytes(&mut r, text.as_slice());
    }
    assert(all.take(all.len() as int) =~= all);
    r
}

/// Adds a part to a Windows path.
pub fn push_part(base: &Vec<u8>, part: &[u8]) -> (r: Vec<u8>)
    ensures
        r@ == with_part(base@, part@),
{
    let w = PathStyle::Windows;
    if parse_prefix(w, part).is_some() {
        return copy_bytes(part);
    }
    let len: usize = base.len();
    let prefix = parse_prefix(w, base.as_slice());
    proof {
        prefix_fits(w, base@);
    }
    let verbatim = match &prefix {
        Some(PathPrefix::Verbatim(_)) => true,
        Some(PathPrefix::VerbatimUnc(_, _)) => true,
        Some(PathPrefix::VerbatimDisk(_)) => true,
        _ => false,
    };
    if verbatim && part.len() > 0 {
        let mut joined = SandboxPath { bytes: copy_bytes(base.as_slice()) }.components(w);
        let added = SandboxPath { bytes: copy_bytes(part) }.components(w);
        let ghost cs = components(w, base@);
        let ghost ps = components(w, part@);
        assert(joined_components(cs, ps.take(0)) == cs);
        for i in 0..added.len()
            invariant
                cs == components(w, base@),
                ps == component_views(added@),
                component_views(joined@) == joined_components(cs, ps.take(i as int)),
        {
            proof {
                lemma_joined_step(cs, ps, i as int);
                assert(ps[i as int] == added@[i as int]@);
            }
            add_component(&mut joined, &added[i]);
        }
        assert(ps.take(ps.len() as int) =~= ps);
        return spell_components(&joined);
    }
    if part.len() > 0 && separator(w, false, part[0]) {
        let n: usize = match &prefix {
            Some(p) => prefix_length(p),
            None => 0,
        };
        let mut r = copy_range(base.as_slice(), 0, n);
        assert(r@ =~= base@.take(n as int));
        push_bytes(&mut r, part);
        return r;
    }
    let bare_drive = len == 2 && match &prefix {
        Some(PathPrefix::Disk(_)) => true,
        _ => false,
    };
    let mut r = copy_bytes(base.as_slice());
    if len > 0 && !separator(w, false, base[len - 1]) && !bare_drive {
        r.push(0x5c);
    }
    push_bytes(&mut r, part);
    r
}

/// The short form of a Windows path.
pub fn strip_windows_verbatim_prefix(path: &SandboxPath) -> (r: SandboxPath)
    ensures
        r@ == without_verbatim_prefix(path@),
{
    let w = PathStyle::Windows;
    let mut r: Vec<u8> = Vec::new();
    match parse_prefix(w, path.bytes.as_slice()) {
        Some(PathPrefix::VerbatimDisk(letter)) => {
            r.push(letter);
            r.push(0x3a);
            assert(r@ =~= seq![letter, 0x3au8]);
        },
        Some(PathPrefix::VerbatimUnc(server, share)) => {
            r.push(0x5c);
            r.push(0x5c);
            assert(r@ =~= seq![0x5cu8, 0x5cu8]);
            r = push_part(&r, server.as_slice());
            r = push_part(&r, share.as_slice());
        },
        _ => {
            return path.clone();
        },
    }
    let cs = path.components(w);
    let ghost all = components(w, path@);
    let ghost rest = all.subrange(1, all.len() as int);
    let ghost base = r@;
    let len: usize = cs.len();
    assert(component_views(cs@).len() == len);
    assert(all[0] == ComponentView::Prefix(
        prefix_of(w, path@)->0,
        path@.take(prefix_len(prefix_of(w, path@))),
    ));
    for i in 1..len
        invariant
            w == PathStyle::Windows,
            len == cs.len(),
            len >= 1,
            all == component_views(cs@),
            rest == all.subrange(1, all.len() as int),
            r@ == with_components(base, rest.take(i - 1)),
    {
        proof {
            assert(rest.take(i as int).drop_last() =~= rest.take(i - 1));
            assert(rest.take(i as int).last() == cs@[i as int]@);
        }
        let text = component_bytes(w, &cs[i]);
        r = push_part(&r, text.as_slice());
    }
    assert(rest.take(rest.len() as int) =~= rest);
    SandboxPath { bytes: r }
}

} // verus!
