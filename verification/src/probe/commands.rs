//! The commands that a probe of the sandbox runs.
use vstd::prelude::*;
use vstd::string::StringExecFns;

use crate::bytes::push_bytes;
use crate::path::{
    display_text, is_separator, push_part, with_part, PathStyle, SandboxPath,
};
use crate::text::{chars_of, decimal, has_text, number, texts};
use crate::windows::access::{quoted_run, quoted_segments};

verus! {

/// How long a probed command may take, in milliseconds.
pub const PROBE_TIMEOUT_MS: u64 = 2_500;

/// A Unix path with a part added. A part that starts at the root takes the place of the path, and
/// any other is appended.
pub open spec fn unix_with_part(dir: Seq<u8>, part: Seq<u8>) -> Seq<u8> {
    if part.len() > 0 && is_separator(PathStyle::Unix, false, part[0]) {
        part
    } else if dir.len() > 0 && !is_separator(PathStyle::Unix, false, dir.last()) {
        dir.push(0x2f) + part
    } else {
        dir + part
    }
}

/// The path of a file in a directory.
pub open spec fn child_of(style: PathStyle, dir: Seq<u8>, name: Seq<char>) -> Seq<u8> {
    match style {
        PathStyle::Unix => unix_with_part(dir, vstd::utf8::encode_utf8(name)),
        PathStyle::Windows => with_part(dir, vstd::utf8::encode_utf8(name)),
    }
}

/// The path of a file in a directory.
pub fn child_path(style: PathStyle, dir: &SandboxPath, name: &str) -> (r: SandboxPath)
    ensures
        r@ == child_of(style, dir@, name@),
{
    let part = SandboxPath::from_text(name);
    match style {
        PathStyle::Unix => {
            if part.bytes.len() > 0 && part.bytes[0] == 0x2f {
                return part;
            }
            let mut bytes: Vec<u8> = dir.clone().bytes;
            let n: usize = bytes.len();
            if n > 0 && bytes[n - 1] != 0x2f {
                bytes.push(0x2f);
            }
            push_bytes(&mut bytes, part.bytes.as_slice());
            SandboxPath { bytes }
        },
        PathStyle::Windows => SandboxPath { bytes: push_part(&dir.bytes, part.bytes.as_slice()) },
    }
}

/// A text with every single quotation mark doubled.
pub open spec fn doubled_quotes(s: Seq<char>) -> Seq<char>
    decreases s.len(),
{
    if s.len() == 0 {
        Seq::empty()
    } else if s.last() == '\'' {
        doubled_quotes(s.drop_last()).push('\'').push('\'')
    } else {
        doubled_quotes(s.drop_last()).push(s.last())
    }
}

/// Doubles every single quotation mark, as a quoted text of PowerShell needs it.
pub fn escape_single_quotes(s: &str) -> (r: String)
    ensures
        r@ == doubled_quotes(s@),
{
    let v = chars_of(s);
    let mut r = String::new();
    assert(r@ =~= doubled_quotes(v@.take(0)));
    for i in 0..v.len()
        invariant
            v@ == s@,
            r@ == doubled_quotes(v@.take(i as int)),
    {
        proof {
            assert(v@.take(i + 1).drop_last() =~= v@.take(i as int));
            assert(v@.take(i + 1).last() == v@[i as int]);
        }
        if v[i] == '\'' {
            r.push('\'');
            r.push('\'');
        } else {
            r.push(v[i]);
        }
    }
    assert(v@.take(v.len() as int) =~= v@);
    r
}

/// The start of a PowerShell command line.
pub open spec fn powershell_with(script: Seq<char>) -> Seq<Seq<char>> {
    seq!["powershell.exe"@, "-NoProfile"@, "-NonInteractive"@, "-Command"@, script]
}

fn powershell_command(script: String) -> (r: Vec<String>)
    ensures
        texts(r@) == powershell_with(script@),
{
    let mut r: Vec<String> = Vec::new();
    r.push("powershell.exe".to_owned());
    r.push("-NoProfile".to_owned());
    r.push("-NonInteractive".to_owned());
    r.push("-Command".to_owned());
    r.push(script);
    assert(texts(r@) =~= powershell_with(script@));
    r
}

/// A command that does nothing and succeeds.
pub open spec fn exit_zero(style: PathStyle) -> Seq<Seq<char>> {
    match style {
        PathStyle::Unix => seq!["/bin/sh"@, "-c"@, "exit 0"@],
        PathStyle::Windows => seq!["cmd.exe"@, "/C"@, "exit 0"@],
    }
}

/// A command that does nothing and succeeds.
pub fn exit_zero_command(style: PathStyle) -> (r: Vec<String>)
    ensures
        texts(r@) == exit_zero(style),
{
    let mut r: Vec<String> = Vec::new();
    match style {
        PathStyle::Unix => {
            r.push("/bin/sh".to_owned());
            r.push("-c".to_owned());
        },
        PathStyle::Windows => {
            r.push("cmd.exe".to_owned());
            r.push("/C".to_owned());
        },
    }
    r.push("exit 0".to_owned());
    assert(texts(r@) =~= exit_zero(style));
    r
}

/// What a PowerShell script ends with that reports an error.
pub open spec fn report_and_fail() -> Seq<char> {
    "exit 0 } catch { [Console]::Error.WriteLine($_.Exception.Message); exit 1 }"@
}

/// A command that reads a file.
pub open spec fn read_file(style: PathStyle, target: Seq<u8>) -> Seq<Seq<char>> {
    match style {
        PathStyle::Unix => seq!["/bin/cat"@, display_text(style, target)],
        PathStyle::Windows => powershell_with(
            "try { [System.IO.File]::ReadAllText('"@ + doubled_quotes(display_text(style, target))
                + "') | Out-Null; "@ + report_and_fail(),
        ),
    }
}

/// A command that reads a file.
pub fn read_command(style: PathStyle, target: &SandboxPath) -> (r: Vec<String>)
    ensures
        texts(r@) == read_file(style, target@),
{
    let shown = target.display(style);
    match style {
        PathStyle::Unix => {
            let mut r: Vec<String> = Vec::new();
            r.push("/bin/cat".to_owned());
            r.push(shown);
            assert(texts(r@) =~= read_file(style, target@));
            r
        },
        PathStyle::Windows => {
            let mut script = "try { [System.IO.File]::ReadAllText('".to_owned();
            script.append(escape_single_quotes(shown.as_str()).as_str());
            script.append("') | Out-Null; ");
            script.append(
                "exit 0 } catch { [Console]::Error.WriteLine($_.Exception.Message); exit 1 }",
            );
            powershell_command(script)
        },
    }
}

/// A command that writes a text to a file.
pub open spec fn write_file(style: PathStyle, target: Seq<u8>, payload: Seq<char>) -> Seq<
    Seq<char>,
> {
    match style {
        PathStyle::Unix => seq![
            "/bin/sh"@,
            "-c"@,
            "printf '%s' \"$2\" > \"$1\""@,
            "sh"@,
            display_text(style, target),
            payload,
        ],
        PathStyle::Windows => powershell_with(
            "try { [System.IO.File]::WriteAllText('"@ + doubled_quotes(display_text(style, target))
                + "', '"@ + doubled_quotes(payload) + "'); "@ + report_and_fail(),
        ),
    }
}

/// A command that writes a text to a file.
pub fn write_command(style: PathStyle, target: &SandboxPath, payload: &str) -> (r: Vec<String>)
    ensures
        texts(r@) == write_file(style, target@, payload@),
{
    let shown = target.display(style);
    match style {
        PathStyle::Unix => {
            let mut r: Vec<String> = Vec::new();
            r.push("/bin/sh".to_owned());
            r.push("-c".to_owned());
            r.push("printf '%s' \"$2\" > \"$1\"".to_owned());
            r.push("sh".to_owned());
            r.push(shown);
            r.push(payload.to_owned());
            assert(texts(r@) =~= write_file(style, target@, payload@));
            r
        },
        PathStyle::Windows => {
            let mut script = "try { [System.IO.File]::WriteAllText('".to_owned();
            script.append(escape_single_quotes(shown.as_str()).as_str());
            script.append("', '");
            script.append(escape_single_quotes(payload).as_str());
            script.append("'); ");
            script.append(
                "exit 0 } catch { [Console]::Error.WriteLine($_.Exception.Message); exit 1 }",
            );
            powershell_command(script)
        },
    }
}

/// The word that asks the probe program to try a connection.
pub const NETWORK_PROBE_FLAG: &'static str = "--windows-net-probe";

/// The command that tries a connection: the probe program itself with the address and the time.
pub fn network_probe_command(program: &str, host: &str, port: u16, timeout_ms: u64) -> (r: Vec<
    String,
>)
    ensures
        texts(r@) == seq![
            program@,
            NETWORK_PROBE_FLAG@,
            host@,
            decimal(port as nat),
            decimal(timeout_ms as nat),
        ],
{
    let mut r: Vec<String> = Vec::new();
    r.push(program.to_owned());
    r.push(NETWORK_PROBE_FLAG.to_owned());
    r.push(host.to_owned());
    r.push(number(port as u128));
    r.push(number(timeout_ms as u128));
    assert(texts(r@) =~= seq![
        program@,
        NETWORK_PROBE_FLAG@,
        host@,
        decimal(port as nat),
        decimal(timeout_ms as nat),
    ]);
    r
}

/// The variables that a probed command is given, where they are set.
pub open spec fn probe_variables() -> Seq<Seq<char>> {
    seq![
        "PATH"@,
        "PATHEXT"@,
        "SystemRoot"@,
        "WINDIR"@,
        "HOME"@,
        "USERPROFILE"@,
        "TMP"@,
        "TEMP"@,
        "TMPDIR"@,
    ]
}

/// The names of the variables that a probed command is given.
pub fn probe_variable_names() -> (r: Vec<String>)
    ensures
        texts(r@) == probe_variables(),
{
    let mut r: Vec<String> = Vec::new();
    r.push("PATH".to_owned());
    r.push("PATHEXT".to_owned());
    r.push("SystemRoot".to_owned());
    r.push("WINDIR".to_owned());
    r.push("HOME".to_owned());
    r.push("USERPROFILE".to_owned());
    r.push("TMP".to_owned());
    r.push("TEMP".to_owned());
    r.push("TMPDIR".to_owned());
    assert(texts(r@) =~= probe_variables());
    r
}

/// The name of the directory that a probe works in.
pub fn probe_directory_name(prefix: &str, pid: u32, nonce: u128) -> (r: String)
    ensures
        r@ == "procwarden-ci-probe-"@ + prefix@ + "-"@ + decimal(pid as nat) + "-"@ + decimal(
            nonce as nat,
        ),
{
    let mut name = "procwarden-ci-probe-".to_owned();
    name.append(prefix);
    name.append("-");
    name.append(number(pid as u128).as_str());
    name.append("-");
    name.append(number(nonce).as_str());
    name
}

/// What a quoted text of PowerShell stands for: two marks give way to one.
pub open spec fn undoubled(s: Seq<char>) -> Seq<char>
    decreases s.len(),
{
    if s.len() == 0 {
        s
    } else if s.len() > 1 && s.last() == '\'' && s[s.len() - 2] == '\'' {
        undoubled(s.subrange(0, s.len() - 2)).push('\'')
    } else {
        undoubled(s.drop_last()).push(s.last())
    }
}

/// Doubling the quotation marks of a text can be undone, so that a path in a script stands for
/// itself.
pub proof fn doubling_can_be_undone(s: Seq<char>)
    ensures
        undoubled(doubled_quotes(s)) == s,
    decreases s.len(),
{
    if s.len() > 0 {
        let front = doubled_quotes(s.drop_last());
        let d = doubled_quotes(s);
        doubling_can_be_undone(s.drop_last());
        if s.last() == '\'' {
            assert(d.subrange(0, d.len() - 2) =~= front);
            assert(d[d.len() - 2] == '\'');
        } else {
            assert(d.drop_last() =~= front);
        }
        assert(s =~= s.drop_last().push(s.last()));
    }
}

proof fn lemma_doubled_from_the_front(s: Seq<char>)
    requires
        s.len() > 0,
    ensures
        doubled_quotes(s) == (if s[0] == '\'' {
            seq!['\'', '\'']
        } else {
            seq![s[0]]
        }) + doubled_quotes(s.subrange(1, s.len() as int)),
    decreases s.len(),
{
    let rest = s.subrange(1, s.len() as int);
    if s.len() == 1 {
        assert(s.drop_last() =~= Seq::empty());
        assert(rest =~= Seq::empty());
        assert(doubled_quotes(s.drop_last()) =~= Seq::empty());
    } else {
        let front = s.drop_last();
        lemma_doubled_from_the_front(front);
        assert(front.subrange(1, front.len() as int) =~= rest.drop_last());
    }
    assert(doubled_quotes(s) =~= (if s[0] == '\'' {
        seq!['\'', '\'']
    } else {
        seq![s[0]]
    }) + doubled_quotes(rest));
}

proof fn lemma_run_of_doubled(s: Seq<char>, after: Seq<char>)
    requires
        after.len() > 0 ==> after[0] != '\'',
    ensures
        quoted_run(doubled_quotes(s) + seq!['\''] + after) == (s, after),
    decreases s.len(),
{
    let whole = doubled_quotes(s) + seq!['\''] + after;
    if s.len() == 0 {
        assert(whole =~= seq!['\''] + after);
        assert(whole.subrange(1, whole.len() as int) =~= after);
        assert(s =~= Seq::empty());
    } else {
        let rest = s.subrange(1, s.len() as int);
        let more = doubled_quotes(rest) + seq!['\''] + after;
        lemma_doubled_from_the_front(s);
        lemma_run_of_doubled(rest, after);
        if s[0] == '\'' {
            assert(whole =~= seq!['\'', '\''] + more);
            assert(whole.subrange(2, whole.len() as int) =~= more);
        } else {
            assert(whole =~= seq![s[0]] + more);
            assert(whole.subrange(1, whole.len() as int) =~= more);
        }
        assert(seq![s[0]] + rest =~= s);
    }
}

/// A path in single quotation marks, with its own marks doubled, is found as it is: what a script
/// names in this way comes into the scope of the run.
pub proof fn quoted_paths_are_found(before: Seq<char>, path: Seq<char>, after: Seq<char>)
    requires
        !before.contains('\''),
        path.len() > 0,
        after.len() > 0 ==> after[0] != '\'',
    ensures
        quoted_segments(before + seq!['\''] + doubled_quotes(path) + seq!['\''] + after) == seq![path]
            + quoted_segments(after),
    decreases before.len(),
{
    let tail = doubled_quotes(path) + seq!['\''] + after;
    let whole = before + seq!['\''] + doubled_quotes(path) + seq!['\''] + after;
    if before.len() == 0 {
        assert(whole =~= seq!['\''] + tail);
        assert(whole.subrange(1, whole.len() as int) =~= tail);
        lemma_run_of_doubled(path, after);
    } else {
        let rest = before.subrange(1, before.len() as int);
        assert(before.contains(before[0]));
        assert(!rest.contains('\'')) by {
            if rest.contains('\'') {
                let i = choose|i: int| 0 <= i < rest.len() && rest[i] == '\'';
                assert(before[i + 1] == '\'');
            }
        }
        quoted_paths_are_found(rest, path, after);
        assert(whole.subrange(1, whole.len() as int) =~= rest + seq!['\''] + doubled_quotes(path)
            + seq!['\''] + after);
    }
}

/// Quotation marks are doubled one by one, and nothing else changes.
pub proof fn marks_are_doubled_one_by_one(a: Seq<char>, b: Seq<char>, c: char)
    ensures
        doubled_quotes(a + b) == doubled_quotes(a) + doubled_quotes(b),
        c == '\'' ==> doubled_quotes(seq![c]) == seq!['\'', '\''],
        c != '\'' ==> doubled_quotes(seq![c]) == seq![c],
    decreases b.len(),
{
    let one = seq![c];
    assert(one.drop_last() =~= Seq::empty());
    assert(doubled_quotes(one.drop_last()) =~= Seq::empty());
    assert(c == '\'' ==> doubled_quotes(one) =~= seq!['\'', '\'']);
    assert(c != '\'' ==> doubled_quotes(one) =~= seq![c]);
    if b.len() == 0 {
        assert(a + b =~= a);
        assert(doubled_quotes(a) + doubled_quotes(b) =~= doubled_quotes(a));
    } else {
        let f = b.drop_last();
        marks_are_doubled_one_by_one(a, f, c);
        assert((a + b).drop_last() =~= a + f);
        assert((a + b).last() == b.last());
        assert(doubled_quotes(a + b) =~= doubled_quotes(a) + doubled_quotes(b));
    }
}

/// A name in a directory stands behind its slash, which is written once.
pub proof fn names_stand_behind_a_slash(dir: Seq<u8>, name: Seq<u8>)
    requires
        dir.len() > 0,
        name.len() > 0,
        name[0] != 0x2f,
    ensures
        dir.last() != 0x2f ==> unix_with_part(dir, name) == dir + seq![0x2fu8] + name,
        dir.last() == 0x2f ==> unix_with_part(dir, name) == dir + name,
{
    assert(dir.push(0x2f) + name =~= dir + seq![0x2fu8] + name);
}

/// The commands of a probe on Unix name their file as a word of its own, and a payload as another:
/// whatever these hold, the shell reads nothing into it.
pub proof fn unix_commands_pass_their_words(target: Seq<u8>, payload: Seq<char>)
    ensures
        ({
            let u = PathStyle::Unix;
            let r = read_file(u, target);
            let w = write_file(u, target, payload);
            &&& r.len() == 2 && r[1] == display_text(u, target)
            &&& w.len() == 6 && w[4] == display_text(u, target) && w[5] == payload
            &&& r[0] == "/bin/cat"@ && w[0] == "/bin/sh"@
        }),
{
}

/// The commands of a probe on Windows hand one script to PowerShell, in which the path and the
/// payload stand between quotation marks, with every mark in them doubled.
pub proof fn windows_commands_quote_their_words(target: Seq<u8>, payload: Seq<char>)
    ensures
        ({
            let w = PathStyle::Windows;
            let path = doubled_quotes(display_text(w, target));
            let r = read_file(w, target);
            let c = write_file(w, target, payload);
            &&& r.len() == 5 && r[0] == "powershell.exe"@ && r[3] == "-Command"@
            &&& c.len() == 5 && c[0] == "powershell.exe"@ && c[3] == "-Command"@
            &&& has_text(r[4], "ReadAllText('"@ + path + "')"@)
            &&& has_text(
                c[4],
                "WriteAllText('"@ + path + "', '"@ + doubled_quotes(payload) + "')"@,
            )
        }),
{
    let w = PathStyle::Windows;
    let path = doubled_quotes(display_text(w, target));
    let data = doubled_quotes(payload);
    let r = read_file(w, target);
    let c = write_file(w, target, payload);
    reveal_strlit("try { [System.IO.File]::ReadAllText('");
    reveal_strlit("ReadAllText('");
    reveal_strlit("') | Out-Null; ");
    reveal_strlit("')");
    reveal_strlit("try { [System.IO.File]::WriteAllText('");
    reveal_strlit("WriteAllText('");
    reveal_strlit("', '");
    reveal_strlit("'); ");
    let a = "ReadAllText('"@ + path + "')"@;
    assert(r[4].subrange(24, 24int + a.len()) =~= a);
    assert(crate::text::occurs_at(r[4], a, 24));
    let b = "WriteAllText('"@ + path + "', '"@ + data + "')"@;
    assert(c[4].subrange(24, 24int + b.len()) =~= b);
    assert(crate::text::occurs_at(c[4], b, 24));
}

/// The variables that a probe passes on: those by which programs are found, and the directories of
/// the user and of temporary files.
pub proof fn these_variables_are_passed_on(name: Seq<char>)
    ensures
        probe_variables().contains(name) <==> name == "PATH"@ || name == "PATHEXT"@ || name
            == "SystemRoot"@ || name == "WINDIR"@ || name == "HOME"@ || name == "USERPROFILE"@ || name
            == "TMP"@ || name == "TEMP"@ || name == "TMPDIR"@,
{
    let v = probe_variables();
    assert(v[0] == "PATH"@ && v[1] == "PATHEXT"@ && v[2] == "SystemRoot"@ && v[3] == "WINDIR"@
        && v[4] == "HOME"@ && v[5] == "USERPROFILE"@ && v[6] == "TMP"@ && v[7] == "TEMP"@ && v[8]
        == "TMPDIR"@);
}

/// The child of a directory is its name in that directory, written as the system writes it.
pub proof fn children_are_written_by_style(dir: Seq<u8>, name: Seq<char>)
    ensures
        child_of(PathStyle::Unix, dir, name) == unix_with_part(dir, vstd::utf8::encode_utf8(name)),
        child_of(PathStyle::Windows, dir, name) == with_part(dir, vstd::utf8::encode_utf8(name)),
{
}

} // verus!
