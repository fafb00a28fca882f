//! The mounts and file rules that hold a run on Linux.
use landlock::{Access, AccessFs, ABI};

use vstd::prelude::*;
use vstd::string::StringExecFns;

use crate::error::{IoFailure, IoFailureKind};
use crate::linux::overlays::ReadWriteOverlayKind;
use crate::path::{display_text, path_views, PathStyle, SandboxPath};
use crate::text::{decimal, number};

verus! {

/// The mount flag for mounts that cannot be written.
pub const MS_RDONLY: u64 = 1;

/// The mount flag that changes the flags of an existing mount.
pub const MS_REMOUNT: u64 = 32;

/// The mount flag that shows a tree at a second place.
pub const MS_BIND: u64 = 4096;

/// The mount flag that takes in what is mounted below.
pub const MS_REC: u64 = 16384;

/// The mount flag that keeps changes from spreading.
pub const MS_PRIVATE: u64 = 262144;

/// The flags that keep changes to a whole mount tree from spreading.
pub fn private_flags() -> (r: u64)
    ensures
        r == MS_REC + MS_PRIVATE,
{
    MS_REC + MS_PRIVATE
}

/// The flags that show a tree at a second place; a directory is shown with what is mounted below.
pub fn bind_flags(recursive: bool) -> (r: u64)
    ensures
        r == if recursive {
            MS_BIND + MS_REC
        } else {
            MS_BIND as int
        },
{
    if recursive {
        MS_BIND + MS_REC
    } else {
        MS_BIND
    }
}

/// The flags that take writing away from a bind mount.
pub fn readonly_flags(recursive: bool) -> (r: u64)
    ensures
        r == if recursive {
            MS_BIND + MS_REMOUNT + MS_RDONLY + MS_REC
        } else {
            MS_BIND + MS_REMOUNT + MS_RDONLY
        },
{
    if recursive {
        MS_BIND + MS_REMOUNT + MS_RDONLY + MS_REC
    } else {
        MS_BIND + MS_REMOUNT + MS_RDONLY
    }
}

/// One step in covering a path.
#[derive(Debug, Clone, Copy, PartialEq, Eq, Structural)]
pub enum MountStep {
    /// Make an empty directory that nobody can enter.
    CreateDirectory,
    /// Make an empty file that nobody can open.
    CreateFile,
    /// Mount the path on itself with these flags.
    BindSelf(u64),
    /// Mount what was made on the path with these flags.
    BindPlaceholder(u64),
    /// Change the flags of the path's mount to these.
    Remount(u64),
    /// Remove the directory again.
    RemoveDirectory,
    /// Remove the file again.
    RemoveFile,
}

/// The flags of a bind mount.
pub open spec fn bind_flags_value(recursive: bool) -> u64 {
    if recursive {
        20480
    } else {
        4096
    }
}

/// The flags of a bind mount that cannot be written.
pub open spec fn readonly_flags_value(recursive: bool) -> u64 {
    if recursive {
        20513
    } else {
        4129
    }
}

/// The steps that cover a path. A read-only path is mounted on itself without writing. A denied
/// one is covered by something empty of the same sort, which is removed from sight afterwards.
pub open spec fn cover_steps(kind: ReadWriteOverlayKind, is_dir: bool) -> Seq<MountStep> {
    match kind {
        ReadWriteOverlayKind::ReadOnly => seq![
            MountStep::BindSelf(bind_flags_value(is_dir)),
            MountStep::Remount(readonly_flags_value(is_dir)),
        ],
        ReadWriteOverlayKind::Deny => seq![
            if is_dir {
                MountStep::CreateDirectory
            } else {
                MountStep::CreateFile
            },
            MountStep::BindPlaceholder(bind_flags_value(is_dir)),
            MountStep::Remount(readonly_flags_value(is_dir)),
            if is_dir {
                MountStep::RemoveDirectory
            } else {
                MountStep::RemoveFile
            },
        ],
    }
}

/// The steps that cover a path that is a directory or not.
pub fn mount_steps(kind: ReadWriteOverlayKind, is_dir: bool) -> (r: Vec<MountStep>)
    ensures
        r@ == cover_steps(kind, is_dir),
{
    let mut steps: Vec<MountStep> = Vec::new();
    match kind {
        ReadWriteOverlayKind::ReadOnly => {
            steps.push(MountStep::BindSelf(bind_flags(is_dir)));
            steps.push(MountStep::Remount(readonly_flags(is_dir)));
        },
        ReadWriteOverlayKind::Deny => {
            if is_dir {
                steps.push(MountStep::CreateDirectory);
            } else {
                steps.push(MountStep::CreateFile);
            }
            steps.push(MountStep::BindPlaceholder(bind_flags(is_dir)));
            steps.push(MountStep::Remount(readonly_flags(is_dir)));
            if is_dir {
                steps.push(MountStep::RemoveDirectory);
            } else {
                steps.push(MountStep::RemoveFile);
            }
        },
    }
    assert(steps@ =~= cover_steps(kind, is_dir));
    steps
}

/// The name of the directory in which placeholders are made.
pub fn scratch_name(pid: u32) -> (r: String)
    ensures
        r@ == "procwarden-linux-overlay-"@ + decimal(pid as nat),
{
    "procwarden-linux-overlay-".to_owned().concat(number(pid as u128).as_str())
}

/// The name of a placeholder.
pub fn placeholder_name(is_dir: bool, index: usize) -> (r: String)
    ensures
        r@ == if is_dir {
            "deny-dir-"@ + decimal(index as nat)
        } else {
            "deny-file-"@ + decimal(index as nat)
        },
{
    if is_dir {
        "deny-dir-".to_owned().concat(number(index as u128).as_str())
    } else {
        "deny-file-".to_owned().concat(number(index as u128).as_str())
    }
}

/// The bytes of a path that is handed to the system, which cannot hold a zero byte.
pub fn c_path(path: &SandboxPath) -> (r: Result<SandboxPath, IoFailure>)
    ensures
        match r {
            Ok(p) => p@ == path@ && !path@.contains(0u8),
            Err(e) => path@.contains(0u8) && e@ == (
                IoFailureKind::InvalidInput,
                None::<i32>,
                "path contains interior NUL bytes: "@ + display_text(PathStyle::Unix, path@),
            ),
        },
{
    for i in 0..path.bytes.len()
        invariant
            forall|j: int| 0 <= j < i ==> path@[j] != 0,
    {
        if path.bytes[i] == 0 {
            assert(path@[i as int] == 0u8);
            let shown = path.display(PathStyle::Unix);
            return Err(
                IoFailure {
                    kind: IoFailureKind::InvalidInput,
                    raw_os_error: None,
                    message: "path contains interior NUL bytes: ".to_owned().concat(shown.as_str()),
                },
            );
        }
    }
    Ok(path.clone())
}

/// The rights of `AccessFs::from_read` of the crate `landlock` for the fifth version of the
/// interface, as bits: running a file (1), reading a file (4) and listing a directory (8).
#[verifier::external_body]
fn landlock_read_rights() -> (r: u64)
    ensures
        r == 13,
{
    AccessFs::from_read(ABI::V5).bits()
}

/// The rights of `AccessFs::from_all` of the crate `landlock` for the fifth version of the
/// interface, as bits: the sixteen rights that this version knows.
#[verifier::external_body]
fn landlock_all_rights() -> (r: u64)
    ensures
        r == 0xffff,
{
    AccessFs::from_all(ABI::V5).bits()
}

/// A path below which some rights are granted.
#[derive(Debug, PartialEq, Eq)]
pub struct FileRule {
    pub path: SandboxPath,
    pub rights: u64,
}

impl View for FileRule {
    type V = (Seq<u8>, u64);

    open spec fn view(&self) -> (Seq<u8>, u64) {
        (self.path@, self.rights)
    }
}

/// The values of a list of file rules.
pub open spec fn file_rule_views(v: Seq<FileRule>) -> Seq<(Seq<u8>, u64)> {
    Seq::new(v.len(), |i: int| v[i]@)
}

/// The file rules of a run, and the rights that they govern.
#[derive(Debug, PartialEq, Eq)]
pub struct FileRuleset {
    pub handled: u64,
    pub rules: Vec<FileRule>,
}

/// The file rules below a read-only default: everything can be read, and only the null device and
/// the given roots can be written.
pub open spec fn file_rules(writable: Seq<Seq<u8>>) -> Seq<(Seq<u8>, u64)> {
    seq![
        (vstd::utf8::encode_utf8("/"@), 13u64),
        (vstd::utf8::encode_utf8("/dev/null"@), 0xffffu64),
    ] + Seq::new(writable.len(), |i: int| (writable[i], 0xffffu64))
}

/// The file rules of a run whose default is read-only.
pub fn read_only_ruleset(writable_roots: &Vec<SandboxPath>) -> (r: FileRuleset)
    ensures
        r.handled == 0xffff,
        file_rule_views(r.rules@) == file_rules(path_views(writable_roots@)),
{
    let all: u64 = landlock_all_rights();
    let read: u64 = landlock_read_rights();
    let mut rules: Vec<FileRule> = Vec::new();
    rules.push(FileRule { path: SandboxPath::from_text("/"), rights: read });
    rules.push(FileRule { path: SandboxPath::from_text("/dev/null"), rights: all });
    let ghost first = file_rule_views(rules@);
    for i in 0..writable_roots.len()
        invariant
            all == 0xffff,
            first.len() == 2,
            rules.len() == i + 2,
            forall|j: int| 0 <= j < 2 ==> (#[trigger] rules@[j])@ == first[j],
            forall|j: int|
                2 <= j < rules.len() ==> (#[trigger] rules@[j])@ == (
                    writable_roots@[j - 2]@,
                    0xffffu64,
                ),
    {
        let path = writable_roots[i].clone();
        rules.push(FileRule { path, rights: all });
    }
    assert(file_rule_views(rules@) =~= file_rules(path_views(writable_roots@)));
    FileRuleset { handled: all, rules }
}

/// The failure of a run whose file rules the system did not enforce at all.
pub fn unenforced_ruleset() -> (r: IoFailure)
    ensures
        r@ == (
            IoFailureKind::PermissionDenied,
            None::<i32>,
            "landlock could not enforce all filesystem rules"@,
        ),
{
    IoFailure {
        kind: IoFailureKind::PermissionDenied,
        raw_os_error: None,
        message: "landlock could not enforce all filesystem rules".to_owned(),
    }
}

/// What can be reached at a path while it is covered.
pub struct Visible {
    /// Something empty was made that can be mounted on the path.
    pub placeholder: bool,
    /// What is seen at the path is its own contents, and not the placeholder.
    pub own_contents: bool,
    /// What is mounted on the path, if anything is, can be written.
    pub writable: bool,
    /// What is mounted below the path is covered with it.
    pub recursive: bool,
}

/// A path that nothing covers.
pub open spec fn uncovered() -> Visible {
    Visible { placeholder: false, own_contents: true, writable: true, recursive: false }
}

/// What a step leaves visible. A mount shows the path or the placeholder, and a change of flags
/// applies to the mount that is there.
pub open spec fn after_step(v: Visible, step: MountStep) -> Visible {
    match step {
        MountStep::CreateDirectory => Visible { placeholder: true, ..v },
        MountStep::CreateFile => Visible { placeholder: true, ..v },
        MountStep::BindSelf(flags) => Visible { recursive: flags & 16384 != 0, writable: true, ..v },
        MountStep::BindPlaceholder(flags) => Visible {
            own_contents: !v.placeholder,
            writable: true,
            recursive: flags & 16384 != 0,
            ..v
        },
        MountStep::Remount(flags) => Visible { writable: flags & 1 == 0, ..v },
        MountStep::RemoveDirectory => Visible { placeholder: false, ..v },
        MountStep::RemoveFile => Visible { placeholder: false, ..v },
    }
}

/// What some steps leave visible, one after the other.
pub open spec fn after_steps(v: Visible, steps: Seq<MountStep>) -> Visible
    decreases steps.len(),
{
    if steps.len() == 0 {
        v
    } else {
        after_step(after_steps(v, steps.drop_last()), steps.last())
    }
}

proof fn lemma_flags()
    ensures
        20480u64 & 16384 != 0,
        4096u64 & 16384 == 0,
        20513u64 & 1 != 0,
        4129u64 & 1 != 0,
        20480u64 == 4096u64 | 16384,
        20513u64 == 4096u64 | 32 | 1 | 16384,
        4129u64 == 4096u64 | 32 | 1,
{
    assert(20480u64 & 16384 != 0 && 4096u64 & 16384 == 0 && 20513u64 & 1 != 0 && 4129u64 & 1 != 0
        && 20480u64 == 4096u64 | 16384 && 20513u64 == 4096u64 | 32 | 1 | 16384 && 4129u64 == 4096u64
        | 32 | 1) by (bit_vector);
}

/// The steps that cover a denied path, a file or a directory, leave none of its own contents to
/// reach; those for a read-only one leave them all. In neither can anything be written, a
/// directory is covered with what is mounted below it, and no placeholder is left.
pub proof fn covered_paths_show_what_they_should(kind: ReadWriteOverlayKind, is_dir: bool)
    ensures
        ({
            let v = after_steps(uncovered(), cover_steps(kind, is_dir));
            &&& v.own_contents <==> kind == ReadWriteOverlayKind::ReadOnly
            &&& !v.writable
            &&& v.recursive == is_dir
            &&& !v.placeholder
        }),
{
    lemma_flags();
    let steps = cover_steps(kind, is_dir);
    reveal_with_fuel(after_steps, 5);
    assert(steps.drop_last().last() == steps[steps.len() - 2]);
    assert(steps.drop_last().drop_last() =~= steps.take(steps.len() - 2));
    if kind == ReadWriteOverlayKind::Deny {
        let two = steps.take(2);
        assert(two.last() == steps[1] && two.drop_last().last() == steps[0]);
        assert(two.drop_last().drop_last() =~= Seq::empty());
    } else {
        assert(steps.take(0) =~= Seq::empty());
    }
}

/// A denied path is covered by a placeholder of its own sort: a directory by a directory, and a
/// file by a file. The flags are those of a bind mount, and then of one that cannot be written.
pub proof fn placeholders_are_of_the_same_sort(kind: ReadWriteOverlayKind, is_dir: bool)
    ensures
        kind == ReadWriteOverlayKind::Deny ==> {
            let steps = cover_steps(kind, is_dir);
            &&& steps.len() == 4
            &&& steps[0] == if is_dir { MountStep::CreateDirectory } else { MountStep::CreateFile }
            &&& steps.last() == if is_dir {
                MountStep::RemoveDirectory
            } else {
                MountStep::RemoveFile
            }
            &&& !steps.contains(MountStep::BindSelf(bind_flags_value(is_dir)))
        },
        bind_flags_value(is_dir) == if is_dir { MS_BIND | MS_REC } else { MS_BIND },
        readonly_flags_value(is_dir) == if is_dir {
            MS_BIND | MS_REMOUNT | MS_RDONLY | MS_REC
        } else {
            MS_BIND | MS_REMOUNT | MS_RDONLY
        },
{
    lemma_flags();
}

/// The file rules below a read-only default grant reading everywhere, everything on the null device
/// and below each writable root, and nothing more. Their rights are those of the interface: running
/// (1), reading a file (4) and listing a directory (8), or all sixteen.
pub proof fn file_rules_open_exactly_the_roots(writable: Seq<Seq<u8>>, path: Seq<u8>, rights: u64)
    ensures
        file_rules(writable).contains((path, rights)) <==> {
            ||| path == vstd::utf8::encode_utf8("/"@) && rights == 1 + 4 + 8
            ||| path == vstd::utf8::encode_utf8("/dev/null"@) && rights == 0xffff
            ||| writable.contains(path) && rights == 0xffff
        },
        file_rules(writable).len() == writable.len() + 2,
{
    let r = file_rules(writable);
    assert(r[0] == (vstd::utf8::encode_utf8("/"@), 13u64));
    assert(r[1] == (vstd::utf8::encode_utf8("/dev/null"@), 0xffffu64));
    if writable.contains(path) {
        let i = choose|i: int| 0 <= i < writable.len() && writable[i] == path;
        assert(r[i + 2] == (path, 0xffffu64));
    }
    if r.contains((path, rights)) {
        let i = choose|i: int| 0 <= i < r.len() && r[i] == (path, rights);
        if i >= 2 {
            assert(writable[i - 2] == path);
        }
    }
}

} // verus!
