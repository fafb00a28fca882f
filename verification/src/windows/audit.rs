//! The search for directories that everybody may write.
use vstd::prelude::*;
use vstd::string::StringExecFns;

use crate::env::EnvMap;
use crate::error::{ErrorView, SandboxError};
use crate::path::{display_text, path_views, PathStyle, SandboxPath};
use crate::path_policy::{
    dedupe_paths, deduped, deduping_loses_no_key, has_key, text_key, PathKeyMode,
};
use crate::text::{is_blank, blank, join, join_texts, split, split_text, texts, trim, trimmed};
use crate::windows::access::{append_paths, copy_paths};
use crate::windows::acl::WRITE_MASK;
use crate::windows::environment::optional_text;
use crate::windows::process::exact_value;

verus! {

/// How long the search takes at most, in nanoseconds.
pub const AUDIT_TIME_LIMIT_NS: u128 = 4_000_000_000;

/// How many directories are looked at at most.
pub const AUDIT_CHECK_LIMIT: usize = 2_000;

/// How many directories below each one are looked at.
pub const AUDIT_CHILD_LIMIT: usize = 40;

/// How many directories an error names.
pub const AUDIT_REPORT_LIMIT: usize = 8;

/// The directories of a search path, without the blank ones.
pub open spec fn search_directories(parts: Seq<Seq<char>>) -> Seq<Seq<u8>>
    decreases parts.len(),
{
    if parts.len() == 0 {
        Seq::empty()
    } else if is_blank(parts.last()) {
        search_directories(parts.drop_last())
    } else {
        search_directories(parts.drop_last()).push(vstd::utf8::encode_utf8(trim(parts.last())))
    }
}

/// The directories that are looked at: the allowed ones, the working directory and those of the
/// search path, each once.
pub open spec fn audit_candidates(
    allowed: Seq<Seq<u8>>,
    cwd: Seq<u8>,
    search_path: Seq<char>,
) -> Seq<Seq<u8>> {
    deduped(
        PathKeyMode::AsciiCaseInsensitive,
        allowed.push(cwd) + search_directories(split(search_path, ';')),
    )
}

/// The directories that are looked at. `process_path` is the search path of the process, for an
/// environment without one.
pub fn gather_candidates(
    allow_paths: &Vec<SandboxPath>,
    env: &EnvMap,
    cwd: &SandboxPath,
    process_path: &Option<String>,
) -> (r: Vec<SandboxPath>)
    ensures
        path_views(r@) == audit_candidates(
            path_views(allow_paths@),
            cwd@,
            exact_value(env@, "PATH"@, optional_text(*process_path), Seq::empty()),
        ),
{
    proof {
        reveal_strlit("");
        assert(""@ =~= Seq::empty());
    }
    let mut candidates = copy_paths(allow_paths);
    let ghost allowed = path_views(candidates@);
    candidates.push(cwd.clone());
    assert(path_views(candidates@) =~= allowed.push(cwd@));
    let list = match env.get("PATH") {
        Some(value) => value,
        None => match process_path {
            Some(value) => value.clone(),
            None => String::new(),
        },
    };
    let parts = split_text(list.as_str(), ';');
    let ghost all = texts(parts@);
    let mut found: Vec<SandboxPath> = Vec::new();
    assert(path_views(found@) =~= search_directories(all.take(0)));
    for i in 0..parts.len()
        invariant
            all == texts(parts@),
            path_views(found@) == search_directories(all.take(i as int)),
    {
        proof {
            assert(all.take(i + 1).drop_last() =~= all.take(i as int));
            assert(all.take(i + 1).last() == parts@[i as int]@);
        }
        if !blank(parts[i].as_str()) {
            let ghost before = path_views(found@);
            let path = SandboxPath::from_text(trimmed(parts[i].as_str()).as_str());
            found.push(path);
            assert(path_views(found@) =~= before.push(path@));
        }
    }
    assert(all.take(all.len() as int) =~= all);
    append_paths(&mut candidates, &found);
    dedupe_paths(&candidates, PathKeyMode::AsciiCaseInsensitive)
}

/// Whether the search goes on, after so many nanoseconds and so many directories.
pub fn audit_goes_on(elapsed_ns: u128, checked: usize) -> (r: bool)
    ensures
        r == (elapsed_ns <= AUDIT_TIME_LIMIT_NS && checked <= AUDIT_CHECK_LIMIT),
{
    elapsed_ns <= AUDIT_TIME_LIMIT_NS && checked <= AUDIT_CHECK_LIMIT
}

/// Whether rights let a directory be written. `None` stands for rights that could not be found out.
pub fn allows_writing(rights: Option<u32>) -> (r: bool)
    ensures
        r == match rights {
            Some(mask) => mask & WRITE_MASK == WRITE_MASK,
            None => false,
        },
{
    match rights {
        Some(mask) => mask & WRITE_MASK == WRITE_MASK,
        None => false,
    }
}

/// The lines that name directories.
pub open spec fn finding_lines(flagged: Seq<Seq<u8>>) -> Seq<Seq<char>> {
    Seq::new(flagged.len(), |i: int| " - "@ + display_text(PathStyle::Windows, flagged[i]))
}

/// The first of the found directories, at most as many as an error names.
pub open spec fn reported_findings(flagged: Seq<Seq<u8>>) -> Seq<Seq<u8>> {
    if flagged.len() <= AUDIT_REPORT_LIMIT {
        flagged
    } else {
        flagged.take(AUDIT_REPORT_LIMIT as int)
    }
}

/// The outcome of the search: an error where something was found.
pub fn audit_outcome(flagged: &Vec<SandboxPath>) -> (r: Result<(), SandboxError>)
    ensures
        match r {
            Ok(_) => flagged.len() == 0,
            Err(e) => flagged.len() > 0 && e@ == ErrorView::AuditFailed(
                "world-writable directories detected before sandbox launch:\n"@ + join(
                    finding_lines(reported_findings(path_views(flagged@))),
                    "\n"@,
                ),
            ),
        },
{
    if flagged.len() == 0 {
        return Ok(());
    }
    let count: usize = if flagged.len() <= AUDIT_REPORT_LIMIT {
        flagged.len()
    } else {
        AUDIT_REPORT_LIMIT
    };
    let ghost named = reported_findings(path_views(flagged@));
    let mut lines: Vec<String> = Vec::new();
    for i in 0..count
        invariant
            count <= flagged.len(),
            named == reported_findings(path_views(flagged@)),
            named.len() == count,
            lines.len() == i,
            forall|j: int|
                0 <= j < i ==> (#[trigger] lines@[j])@ == " - "@ + display_text(
                    PathStyle::Windows,
                    named[j],
                ),
    {
        assert(named[i as int] == flagged@[i as int]@);
        let line = " - ".to_owned().concat(flagged[i].display(PathStyle::Windows).as_str());
        lines.push(line);
    }
    assert(texts(lines@) =~= finding_lines(named));
    let mut message = "world-writable directories detected before sandbox launch:\n".to_owned();
    message.append(join_texts(&lines, "\n").as_str());
    Err(SandboxError::AuditFailed(message))
}

/// The error for a directory whose access list cannot be read.
pub fn unreadable_list(path: &SandboxPath) -> (r: SandboxError)
    ensures
        r@ == ErrorView::AuditFailed(
            "failed to inspect DACL for "@ + display_text(PathStyle::Windows, path@),
        ),
{
    let shown = path.display(PathStyle::Windows);
    SandboxError::AuditFailed("failed to inspect DACL for ".to_owned().concat(shown.as_str()))
}

/// The directories of a search path are its parts that are not blank, trimmed, in their order.
pub proof fn search_directories_are_taken_one_by_one(
    a: Seq<Seq<char>>,
    b: Seq<Seq<char>>,
    part: Seq<char>,
)
    ensures
        search_directories(a + b) == search_directories(a) + search_directories(b),
        is_blank(part) ==> search_directories(seq![part]).len() == 0,
        !is_blank(part) ==> search_directories(seq![part]) == seq![
            vstd::utf8::encode_utf8(trim(part)),
        ],
    decreases b.len(),
{
    let one = seq![part];
    assert(one.drop_last() =~= Seq::empty());
    assert(search_directories(one.drop_last()) =~= Seq::empty());
    assert(!is_blank(part) ==> search_directories(one) =~= seq![
        vstd::utf8::encode_utf8(trim(part)),
    ]);
    if b.len() == 0 {
        assert(a + b =~= a);
        assert(search_directories(a) + search_directories(b) =~= search_directories(a));
    } else {
        let f = b.drop_last();
        search_directories_are_taken_one_by_one(a, f, part);
        assert((a + b).drop_last() =~= a + f);
        assert((a + b).last() == b.last());
        assert(search_directories(a + b) =~= search_directories(a) + search_directories(b));
    }
}

/// Every path that a run is allowed, its directory and every directory of the search path is looked
/// at, under one spelling.
pub proof fn audits_look_everywhere(
    allowed: Seq<Seq<u8>>,
    cwd: Seq<u8>,
    search_path: Seq<char>,
    p: Seq<u8>,
)
    requires
        allowed.contains(p) || p == cwd || search_directories(split(search_path, ';')).contains(p),
    ensures
        has_key(
            PathKeyMode::AsciiCaseInsensitive,
            audit_candidates(allowed, cwd, search_path),
            text_key(PathKeyMode::AsciiCaseInsensitive, p),
        ),
{
    let dirs = search_directories(split(search_path, ';'));
    let all = allowed.push(cwd) + dirs;
    if allowed.contains(p) {
        let i = choose|i: int| 0 <= i < allowed.len() && allowed[i] == p;
        assert(all[i] == p);
        deduping_loses_no_key(PathKeyMode::AsciiCaseInsensitive, all, i);
    } else if p == cwd {
        assert(all[allowed.len() as int] == p);
        deduping_loses_no_key(PathKeyMode::AsciiCaseInsensitive, all, allowed.len() as int);
    } else {
        let i = choose|i: int| 0 <= i < dirs.len() && dirs[i] == p;
        assert(all[allowed.len() + 1 + i] == p);
        deduping_loses_no_key(PathKeyMode::AsciiCaseInsensitive, all, allowed.len() + 1 + i);
    }
}

/// The first eight findings are reported, each on a line of its own.
pub proof fn eight_findings_are_reported(flagged: Seq<Seq<u8>>, i: int)
    ensures
        reported_findings(flagged).len() == if flagged.len() < 8 {
            flagged.len() as int
        } else {
            8
        },
        0 <= i < reported_findings(flagged).len() ==> reported_findings(flagged)[i] == flagged[i],
        finding_lines(flagged).len() == flagged.len(),
        0 <= i < flagged.len() ==> finding_lines(flagged)[i] == " - "@ + display_text(
            PathStyle::Windows,
            flagged[i],
        ),
{
}

} // verus!
