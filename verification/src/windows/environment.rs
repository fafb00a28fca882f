//! The environment that a command gets on Windows.
use vstd::prelude::*;
use vstd::string::StringExecFns;

use crate::env::{entry_views, EnvMap};
use crate::text::{
    eq_ignore_ascii_case, join, join_texts, lower, same_ignoring_case, same_text, split, split_text,
    texts, to_lower, to_upper, trim, trimmed, upper,
};

verus! {

/// The name of the directory that holds the stubs for network tools.
pub const DENY_BIN_DIR_NAME: &'static str = "agena-sandbox-denybin";

/// What a stub for a network tool holds.
pub const DENY_STUB_SCRIPT: &'static str = "@echo off\r\nexit /b 1\r\n";

/// The address that proxies are set to: nothing listens there.
pub const PROXY_BLACKHOLE: &'static str = "http://127.0.0.1:9";

/// The hosts that are reached without a proxy.
pub const LOCAL_NO_PROXY: &'static str = "localhost,127.0.0.1,::1";

/// The extensions of programs where the environment names none.
pub const DEFAULT_PATHEXT: &'static str = ".COM;.EXE;.BAT;.CMD";

/// The environment without the variables whose name is this one up to case.
pub open spec fn without_key(
    env: Map<Seq<char>, Seq<char>>,
    key: Seq<char>,
) -> Map<Seq<char>, Seq<char>> {
    env.restrict(Set::new(|k: Seq<char>| !same_ignoring_case(k, key)))
}

/// The environment with a variable set, and no other one with the same name up to case.
pub open spec fn with_value(
    env: Map<Seq<char>, Seq<char>>,
    key: Seq<char>,
    value: Seq<char>,
) -> Map<Seq<char>, Seq<char>> {
    without_key(env, key).insert(key, value)
}

/// The environment with a variable set under two spellings of its name, and under no other.
pub open spec fn with_pair(
    env: Map<Seq<char>, Seq<char>>,
    upper_key: Seq<char>,
    lower_key: Seq<char>,
    value: Seq<char>,
) -> Map<Seq<char>, Seq<char>> {
    with_value(env, upper_key, value).insert(lower_key, value)
}

/// `value` is the value of a variable whose name counts up to case; the exact name is preferred.
pub open spec fn is_value_of(
    env: Map<Seq<char>, Seq<char>>,
    key: Seq<char>,
    value: Seq<char>,
) -> bool {
    if env.dom().contains(key) {
        value == env[key]
    } else {
        exists|k: Seq<char>| #[trigger]
            env.dom().contains(k) && same_ignoring_case(k, key) && env[k] == value
    }
}

/// Some variable has this name up to case.
pub open spec fn has_variable(env: Map<Seq<char>, Seq<char>>, key: Seq<char>) -> bool {
    exists|k: Seq<char>| #[trigger] env.dom().contains(k) && same_ignoring_case(k, key)
}

/// `value` is what a variable is looked up as: in the environment, where it is set there, else in
/// the process, else the fallback.
pub open spec fn is_looked_up(
    env: Map<Seq<char>, Seq<char>>,
    key: Seq<char>,
    process: Option<Seq<char>>,
    fallback: Seq<char>,
    value: Seq<char>,
) -> bool {
    if has_variable(env, key) {
        is_value_of(env, key, value)
    } else {
        match process {
            Some(p) => value == p,
            None => value == fallback,
        }
    }
}

/// The value of an optional text.
pub open spec fn optional_text(s: Option<String>) -> Option<Seq<char>> {
    match s {
        Some(x) => Some(x@),
        None => None,
    }
}

/// The value of a variable whose name counts up to case; the exact name is preferred.
pub fn get_env_case_insensitive(env: &EnvMap, key: &str) -> (r: Option<String>)
    ensures
        match r {
            Some(value) => has_variable(env@, key@) && is_value_of(env@, key@, value@),
            None => !has_variable(env@, key@),
        },
{
    match env.get(key) {
        Some(value) => {
            assert(same_ignoring_case(key@, key@));
            return Some(value);
        },
        None => {},
    }
    let entries = env.entries();
    let ghost v = entry_views(entries@);
    proof {
        crate::env::lemma_map_of(v);
    }
    for i in 0..entries.len()
        invariant
            v == entry_views(entries@),
            crate::env::map_of(v) == env@,
            !env@.dom().contains(key@),
            forall|j: int|
                0 <= j < v.len() ==> env@.dom().contains((#[trigger] v[j]).0) && env@[v[j].0]
                    == v[j].1,
            forall|j: int| 0 <= j < i ==> !same_ignoring_case((#[trigger] v[j]).0, key@),
    {
        if eq_ignore_ascii_case(entries[i].key.as_str(), key) {
            assert(v[i as int] == entries@[i as int]@);
            assert(env@.dom().contains(v[i as int].0));
            return Some(entries[i].value.clone());
        }
    }
    proof {
        assert forall|k: Seq<char>| #[trigger]
            env@.dom().contains(k) implies !same_ignoring_case(k, key@) by {
            let j = choose|j: int| 0 <= j < v.len() && v[j].0 == k;
            assert(!same_ignoring_case(v[j].0, key@));
        }
    }
    None
}

fn look_up(env: &EnvMap, key: &str, process: &Option<String>, fallback: &str) -> (r: String)
    ensures
        is_looked_up(env@, key@, optional_text(*process), fallback@, r@),
{
    match get_env_case_insensitive(env, key) {
        Some(value) => value,
        None => match process {
            Some(value) => value.clone(),
            None => fallback.to_owned(),
        },
    }
}

/// Unsets every variable whose name is this one up to case.
pub fn remove_case_insensitive_entries(env: &mut EnvMap, key: &str)
    ensures
        final(env)@ == without_key(old(env)@, key@),
{
    let entries = env.entries();
    let ghost v = entry_views(entries@);
    let ghost all = env@;
    proof {
        crate::env::lemma_map_of(v);
    }
    for i in 0..entries.len()
        invariant
            v == entry_views(entries@),
            crate::env::map_of(v) == all,
            forall|k: Seq<char>| #[trigger]
                env@.dom().contains(k) ==> all.dom().contains(k) && env@[k] == all[k],
            forall|k: Seq<char>|
                all.dom().contains(k) && !same_ignoring_case(k, key@)
                    ==> #[trigger] env@.dom().contains(k),
            forall|j: int|
                0 <= j < i && same_ignoring_case((#[trigger] v[j]).0, key@)
                    ==> !env@.dom().contains(v[j].0),
    {
        if eq_ignore_ascii_case(entries[i].key.as_str(), key) {
            let ghost before = env@;
            env.remove(entries[i].key.as_str());
            assert(env@ == before.remove(v[i as int].0));
        }
    }
    proof {
        assert forall|k: Seq<char>| #[trigger] env@.dom().contains(k) implies !same_ignoring_case(
            k,
            key@,
        ) by {
            let j = choose|j: int| 0 <= j < v.len() && v[j].0 == k;
            assert(v[j].0 == k);
        }
        assert(env@ =~= without_key(all, key@));
    }
}

/// Sets a variable, and unsets every other one with the same name up to case.
pub fn set_case_insensitive(env: &mut EnvMap, key: &str, value: &str)
    ensures
        final(env)@ == with_value(old(env)@, key@, value@),
{
    remove_case_insensitive_entries(env, key);
    env.insert(key.to_owned(), value.to_owned());
}

/// Sets a variable under two spellings of its name, and unsets every other spelling.
pub fn set_case_insensitive_pair(env: &mut EnvMap, upper_key: &str, lower_key: &str, value: &str)
    ensures
        final(env)@ == with_pair(old(env)@, upper_key@, lower_key@, value@),
{
    set_case_insensitive(env, upper_key, value);
    env.insert(lower_key.to_owned(), value.to_owned());
}

/// A search path with a directory at its front; nothing is added where it is there already.
pub open spec fn with_front(prefix: Seq<char>, existing: Seq<char>) -> Seq<char> {
    if same_ignoring_case(split(existing, ';')[0], prefix) {
        existing
    } else if existing.len() == 0 {
        prefix
    } else {
        prefix + ";"@ + existing
    }
}

/// Puts a directory at the front of the search path. `process` is the search path of the process,
/// for an environment without one.
pub fn prepend_path(env: &mut EnvMap, prefix: &str, process: &Option<String>)
    ensures
        exists|existing: Seq<char>| #[trigger]
            is_looked_up(old(env)@, "PATH"@, optional_text(*process), Seq::empty(), existing)
                && final(env)@ == with_value(old(env)@, "PATH"@, with_front(prefix@, existing)),
{
    proof {
        reveal_strlit("");
        assert(""@ =~= Seq::empty());
    }
    let existing = look_up(env, "PATH", process, "");
    let pieces = split_text(existing.as_str(), ';');
    proof {
        crate::text::lemma_split_nonempty(existing@, ';');
        assert(texts(pieces@).len() == pieces.len());
        assert(texts(pieces@)[0] == pieces@[0]@);
    }
    let ghost before = env@;
    assert(is_looked_up(before, "PATH"@, optional_text(*process), Seq::empty(), existing@));
    remove_case_insensitive_entries(env, "PATH");
    if eq_ignore_ascii_case(pieces[0].as_str(), prefix) {
        env.insert("PATH".to_owned(), existing);
    } else if existing.as_str().is_empty() {
        env.insert("PATH".to_owned(), prefix.to_owned());
    } else {
        let mut path = prefix.to_owned();
        path.append(";");
        path.append(existing.as_str());
        env.insert("PATH".to_owned(), path);
    }
}

/// The entries of a list that are not empty.
pub open spec fn nonempty(parts: Seq<Seq<char>>) -> Seq<Seq<char>>
    decreases parts.len(),
{
    if parts.len() == 0 {
        parts
    } else if parts.last().len() == 0 {
        nonempty(parts.drop_last())
    } else {
        nonempty(parts.drop_last()).push(parts.last())
    }
}

/// The first entry that is this one up to case, as a list of at most one.
pub open spec fn first_match(parts: Seq<Seq<char>>, wanted: Seq<char>) -> Seq<Seq<char>>
    decreases parts.len(),
{
    if parts.len() == 0 {
        Seq::empty()
    } else {
        let front = first_match(parts.drop_last(), wanted);
        if front.len() == 0 && upper(parts.last()) == wanted {
            seq![parts.last()]
        } else {
            front
        }
    }
}

/// The entries that are not stub extensions.
pub open spec fn other_extensions(parts: Seq<Seq<char>>) -> Seq<Seq<char>>
    decreases parts.len(),
{
    if parts.len() == 0 {
        Seq::empty()
    } else if upper(parts.last()) == ".BAT"@ || upper(parts.last()) == ".CMD"@ {
        other_extensions(parts.drop_last())
    } else {
        other_extensions(parts.drop_last()).push(parts.last())
    }
}

/// The extensions with those of stubs first.
pub open spec fn stubs_first(extensions: Seq<char>) -> Seq<char> {
    let parts = nonempty(split(extensions, ';'));
    join(
        first_match(parts, ".BAT"@) + first_match(parts, ".CMD"@) + other_extensions(parts),
        ";"@,
    )
}

fn keep_nonempty(parts: &Vec<String>) -> (r: Vec<String>)
    ensures
        texts(r@) == nonempty(texts(parts@)),
{
    let mut r: Vec<String> = Vec::new();
    let ghost all = texts(parts@);
    assert(texts(r@) =~= nonempty(all.take(0)));
    for i in 0..parts.len()
        invariant
            all == texts(parts@),
            texts(r@) == nonempty(all.take(i as int)),
    {
        proof {
            assert(all.take(i + 1).drop_last() =~= all.take(i as int));
            assert(all.take(i + 1).last() == parts@[i as int]@);
        }
        if !parts[i].as_str().is_empty() {
            let ghost before = texts(r@);
            r.push(parts[i].clone());
            assert(texts(r@) =~= before.push(parts@[i as int]@));
        }
    }
    assert(all.take(all.len() as int) =~= all);
    r
}

fn push_first_match(out: &mut Vec<String>, parts: &Vec<String>, wanted: &str)
    ensures
        texts(final(out)@) == texts(old(out)@) + first_match(texts(parts@), wanted@),
{
    let ghost before = texts(out@);
    let ghost all = texts(parts@);
    let mut found = false;
    assert(before =~= before + first_match(all.take(0), wanted@));
    for i in 0..parts.len()
        invariant
            all == texts(parts@),
            texts(out@) == before + first_match(all.take(i as int), wanted@),
            found == (first_match(all.take(i as int), wanted@).len() > 0),
    {
        proof {
            assert(all.take(i + 1).drop_last() =~= all.take(i as int));
            assert(all.take(i + 1).last() == parts@[i as int]@);
        }
        if !found {
            let up = to_upper(parts[i].as_str());
            if same_text(up.as_str(), wanted) {
                out.push(parts[i].clone());
                found = true;
                assert(texts(out@) =~= before + seq![parts@[i as int]@]);
            }
        }
    }
    assert(all.take(all.len() as int) =~= all);
}

fn push_other_extensions(out: &mut Vec<String>, parts: &Vec<String>)
    ensures
        texts(final(out)@) == texts(old(out)@) + other_extensions(texts(parts@)),
{
    let ghost before = texts(out@);
    let ghost all = texts(parts@);
    assert(before =~= before + other_extensions(all.take(0)));
    for i in 0..parts.len()
        invariant
            all == texts(parts@),
            texts(out@) == before + other_extensions(all.take(i as int)),
    {
        proof {
            assert(all.take(i + 1).drop_last() =~= all.take(i as int));
            assert(all.take(i + 1).last() == parts@[i as int]@);
        }
        let up = to_upper(parts[i].as_str());
        if !same_text(up.as_str(), ".BAT") && !same_text(up.as_str(), ".CMD") {
            let ghost front = other_extensions(all.take(i as int));
            let ghost was = texts(out@);
            let part = parts[i].clone();
            out.push(part);
            assert(texts(out@) =~= was.push(part@));
            assert(was.push(part@) =~= before + front.push(part@));
        }
    }
    assert(all.take(all.len() as int) =~= all);
}

/// Puts the extensions of stubs first. `process` is the list of the process, for an environment
/// without one.
pub fn reorder_pathext_for_stubs(env: &mut EnvMap, process: &Option<String>)
    ensures
        exists|existing: Seq<char>| #[trigger]
            is_looked_up(
                old(env)@,
                "PATHEXT"@,
                optional_text(*process),
                DEFAULT_PATHEXT@,
                existing,
            ) && final(env)@ == with_value(old(env)@, "PATHEXT"@, stubs_first(existing)),
{
    let existing = look_up(env, "PATHEXT", process, DEFAULT_PATHEXT);
    let ghost before = env@;
    assert(is_looked_up(
        before,
        "PATHEXT"@,
        optional_text(*process),
        DEFAULT_PATHEXT@,
        existing@,
    ));
    let parts = keep_nonempty(&split_text(existing.as_str(), ';'));
    let ghost all = texts(parts@);
    let mut ordered: Vec<String> = Vec::new();
    push_first_match(&mut ordered, &parts, ".BAT");
    push_first_match(&mut ordered, &parts, ".CMD");
    push_other_extensions(&mut ordered, &parts);
    assert(texts(ordered@) =~= first_match(all, ".BAT"@) + first_match(all, ".CMD"@)
        + other_extensions(all));
    let value = join_texts(&ordered, ";");
    remove_case_insensitive_entries(env, "PATHEXT");
    env.insert("PATHEXT".to_owned(), value);
}

/// The environment with the settings that keep common tools off the network. Proxy settings are
/// overwritten under every spelling.
pub open spec fn offline_settings(env: Map<Seq<char>, Seq<char>>) -> Map<Seq<char>, Seq<char>> {
    let e = with_value(env, "AGENA_SANDBOX_NETWORK_DISABLED"@, "1"@);
    let e = with_pair(e, "HTTP_PROXY"@, "http_proxy"@, PROXY_BLACKHOLE@);
    let e = with_pair(e, "HTTPS_PROXY"@, "https_proxy"@, PROXY_BLACKHOLE@);
    let e = with_pair(e, "ALL_PROXY"@, "all_proxy"@, PROXY_BLACKHOLE@);
    let e = with_pair(e, "GIT_HTTP_PROXY"@, "git_http_proxy"@, PROXY_BLACKHOLE@);
    let e = with_pair(e, "GIT_HTTPS_PROXY"@, "git_https_proxy"@, PROXY_BLACKHOLE@);
    let e = with_pair(e, "NO_PROXY"@, "no_proxy"@, LOCAL_NO_PROXY@);
    let e = with_value(e, "PIP_NO_INDEX"@, "1"@);
    let e = with_value(e, "PIP_DISABLE_PIP_VERSION_CHECK"@, "1"@);
    let e = with_value(e, "NPM_CONFIG_OFFLINE"@, "true"@);
    let e = with_value(e, "CARGO_NET_OFFLINE"@, "true"@);
    let e = with_value(e, "GIT_SSH_COMMAND"@, "cmd /c exit 1"@);
    let e = with_value(e, "GIT_ALLOW_PROTOCOL"@, ""@);
    let e = with_value(e, "GIT_ALLOW_PROTOCOLS"@, ""@);
    let e = with_value(e, "GIT_PROTOCOL_FROM_USER"@, "0"@);
    with_value(e, "GIT_TERMINAL_PROMPT"@, "0"@)
}

fn apply_offline_settings(env: &mut EnvMap)
    ensures
        final(env)@ == offline_settings(old(env)@),
{
    set_case_insensitive(env, "AGENA_SANDBOX_NETWORK_DISABLED", "1");
    set_case_insensitive_pair(env, "HTTP_PROXY", "http_proxy", PROXY_BLACKHOLE);
    set_case_insensitive_pair(env, "HTTPS_PROXY", "https_proxy", PROXY_BLACKHOLE);
    set_case_insensitive_pair(env, "ALL_PROXY", "all_proxy", PROXY_BLACKHOLE);
    set_case_insensitive_pair(env, "GIT_HTTP_PROXY", "git_http_proxy", PROXY_BLACKHOLE);
    set_case_insensitive_pair(env, "GIT_HTTPS_PROXY", "git_https_proxy", PROXY_BLACKHOLE);
    set_case_insensitive_pair(env, "NO_PROXY", "no_proxy", LOCAL_NO_PROXY);
    set_case_insensitive(env, "PIP_NO_INDEX", "1");
    set_case_insensitive(env, "PIP_DISABLE_PIP_VERSION_CHECK", "1");
    set_case_insensitive(env, "NPM_CONFIG_OFFLINE", "true");
    set_case_insensitive(env, "CARGO_NET_OFFLINE", "true");
    set_case_insensitive(env, "GIT_SSH_COMMAND", "cmd /c exit 1");
    set_case_insensitive(env, "GIT_ALLOW_PROTOCOL", "");
    set_case_insensitive(env, "GIT_ALLOW_PROTOCOLS", "");
    set_case_insensitive(env, "GIT_PROTOCOL_FROM_USER", "0");
    set_case_insensitive(env, "GIT_TERMINAL_PROMPT", "0");
}

/// How an environment is hardened, for the search path and the extensions that were looked up.
pub open spec fn hardens(
    env: Map<Seq<char>, Seq<char>>,
    stub_dir: Seq<char>,
    process_path: Option<Seq<char>>,
    process_pathext: Option<Seq<char>>,
    path: Seq<char>,
    pathext: Seq<char>,
    hardened: Map<Seq<char>, Seq<char>>,
) -> bool {
    let offline = offline_settings(env);
    let stubbed = with_value(offline, "PATH"@, with_front(stub_dir, path));
    &&& is_looked_up(offline, "PATH"@, process_path, Seq::empty(), path)
    &&& is_looked_up(stubbed, "PATHEXT"@, process_pathext, DEFAULT_PATHEXT@, pathext)
    &&& hardened == with_value(stubbed, "PATHEXT"@, stubs_first(pathext))
}

/// Keeps common tools off the network: by their settings, and by stubs that are found before the
/// tools. `stub_dir` is the directory that holds the stubs.
pub fn apply_no_network_hardening(
    env: &mut EnvMap,
    stub_dir: &str,
    process_path: &Option<String>,
    process_pathext: &Option<String>,
)
    ensures
        exists|path: Seq<char>, pathext: Seq<char>| #[trigger]
            hardens(
                old(env)@,
                stub_dir@,
                optional_text(*process_path),
                optional_text(*process_pathext),
                path,
                pathext,
                final(env)@,
            ),
{
    let ghost before = env@;
    apply_offline_settings(env);
    let ghost offline = env@;
    prepend_path(env, stub_dir, process_path);
    let ghost stubbed = env@;
    let ghost path = choose|path: Seq<char>| #[trigger]
        is_looked_up(offline, "PATH"@, optional_text(*process_path), Seq::empty(), path) && stubbed
            == with_value(offline, "PATH"@, with_front(stub_dir@, path));
    reorder_pathext_for_stubs(env, process_pathext);
    let ghost pathext = choose|pathext: Seq<char>| #[trigger]
        is_looked_up(
            stubbed,
            "PATHEXT"@,
            optional_text(*process_pathext),
            DEFAULT_PATHEXT@,
            pathext,
        ) && env@ == with_value(stubbed, "PATHEXT"@, stubs_first(pathext));
    assert(hardens(
        before,
        stub_dir@,
        optional_text(*process_path),
        optional_text(*process_pathext),
        path,
        pathext,
        env@,
    ));
}

/// A value that names the null device the way Unix does.
pub open spec fn is_null_device(value: Seq<char>) -> bool {
    lower(trim(value)) == "/dev/null"@ || lower(trim(value)) == "\\\\dev\\null"@
}

/// The environment with the null device named the way Windows does.
pub open spec fn with_null_device(env: Map<Seq<char>, Seq<char>>) -> Map<Seq<char>, Seq<char>> {
    Map::new(
        |k: Seq<char>| env.dom().contains(k),
        |k: Seq<char>|
            if is_null_device(env[k]) {
                "NUL"@
            } else {
                env[k]
            },
    )
}

/// Names the null device the way Windows does, in every value that is a Unix name of it.
pub fn normalize_null_device_env(env: &mut EnvMap)
    ensures
        final(env)@ == with_null_device(old(env)@),
{
    let entries = env.entries();
    let ghost v = entry_views(entries@);
    let ghost all = env@;
    proof {
        crate::env::lemma_map_of(v);
    }
    for i in 0..entries.len()
        invariant
            v == entry_views(entries@),
            crate::env::distinct_keys(v),
            crate::env::map_of(v) == all,
            forall|j: int|
                0 <= j < v.len() ==> all.dom().contains((#[trigger] v[j]).0) && all[v[j].0]
                    == v[j].1,
            forall|k: Seq<char>| #[trigger] env@.dom().contains(k) <==> all.dom().contains(k),
            forall|j: int|
                0 <= j < i ==> env@[(#[trigger] v[j]).0] == with_null_device(all)[v[j].0],
            forall|j: int| i <= j < v.len() ==> env@[(#[trigger] v[j]).0] == all[v[j].0],
    {
        let lowered = to_lower(trimmed(entries[i].value.as_str()).as_str());
        let ghost here = v[i as int];
        assert(here == entries@[i as int]@);
        let ghost before = env@;
        if same_text(lowered.as_str(), "/dev/null") || same_text(
            lowered.as_str(),
            "\\\\dev\\null",
        ) {
            env.insert(entries[i].key.clone(), "NUL".to_owned());
        }
        proof {
            assert forall|j: int| 0 <= j < v.len() && j != i implies env@[(#[trigger] v[j]).0]
                == before[v[j].0] by {
                if j < i {
                    assert(v[j].0 != v[i as int].0);
                } else {
                    assert(v[i as int].0 != v[j].0);
                }
            }
        }
    }
    proof {
        assert forall|k: Seq<char>| all.dom().contains(k) implies #[trigger] env@[k]
            == with_null_device(all)[k] by {
            let j = choose|j: int| 0 <= j < v.len() && v[j].0 == k;
            assert(env@[v[j].0] == with_null_device(all)[v[j].0]);
        }
        assert(env@ =~= with_null_device(all));
    }
}

/// The environment with a variable set, unless it is set already.
pub open spec fn with_default(
    env: Map<Seq<char>, Seq<char>>,
    key: Seq<char>,
    value: Seq<char>,
) -> Map<Seq<char>, Seq<char>> {
    if env.dom().contains(key) {
        env
    } else {
        env.insert(key, value)
    }
}

fn set_default(env: &mut EnvMap, key: &str, value: &str)
    ensures
        final(env)@ == with_default(old(env)@, key@, value@),
{
    if !env.contains_key(key) {
        env.insert(key.to_owned(), value.to_owned());
    }
}

/// The environment in which no tool waits for a key to be pressed.
pub open spec fn with_pager(env: Map<Seq<char>, Seq<char>>) -> Map<Seq<char>, Seq<char>> {
    with_default(
        with_default(with_default(env, "GIT_PAGER"@, "more.com"@), "PAGER"@, "more.com"@),
        "LESS"@,
        ""@,
    )
}

/// Sets pagers that do not wait, where none is set.
pub fn ensure_non_interactive_pager(env: &mut EnvMap)
    ensures
        final(env)@ == with_pager(old(env)@),
{
    set_default(env, "GIT_PAGER", "more.com");
    set_default(env, "PAGER", "more.com");
    set_default(env, "LESS", "");
}

/// The names of the tools that get stubs.
pub open spec fn stub_tools() -> Seq<Seq<char>> {
    seq!["ssh"@, "scp"@, "sftp"@, "ftp"@, "telnet"@, "nc"@, "ncat"@]
}

/// The file names of the stubs: a batch file and a command file for each tool.
pub open spec fn stub_files(tools: Seq<Seq<char>>) -> Seq<Seq<char>>
    decreases tools.len(),
{
    if tools.len() == 0 {
        Seq::empty()
    } else {
        stub_files(tools.drop_last()).push(tools.last() + ".bat"@).push(tools.last() + ".cmd"@)
    }
}

/// The file names of the stubs for network tools.
pub fn deny_stub_names() -> (r: Vec<String>)
    ensures
        texts(r@) == stub_files(stub_tools()),
{
    let mut tools: Vec<String> = Vec::new();
    tools.push("ssh".to_owned());
    tools.push("scp".to_owned());
    tools.push("sftp".to_owned());
    tools.push("ftp".to_owned());
    tools.push("telnet".to_owned());
    tools.push("nc".to_owned());
    tools.push("ncat".to_owned());
    let ghost all = texts(tools@);
    assert(all =~= stub_tools());
    let mut r: Vec<String> = Vec::new();
    assert(texts(r@) =~= stub_files(all.take(0)));
    for i in 0..tools.len()
        invariant
            all == texts(tools@),
            texts(r@) == stub_files(all.take(i as int)),
    {
        proof {
            assert(all.take(i + 1).drop_last() =~= all.take(i as int));
            assert(all.take(i + 1).last() == tools@[i as int]@);
        }
        let ghost before = texts(r@);
        let batch = tools[i].clone().concat(".bat");
        r.push(batch);
        assert(texts(r@) =~= before.push(batch@));
        let command = tools[i].clone().concat(".cmd");
        r.push(command);
        assert(texts(r@) =~= before.push(batch@).push(command@));
    }
    assert(all.take(all.len() as int) =~= all);
    r
}

/// The environment of a run on Windows: the null device and the pagers are adapted, and a run
/// without network is hardened.
pub fn prepare_env(
    env: &EnvMap,
    without_network: bool,
    stub_dir: &str,
    process_path: &Option<String>,
    process_pathext: &Option<String>,
) -> (r: EnvMap)
    ensures
        if without_network {
            exists|path: Seq<char>, pathext: Seq<char>| #[trigger]
                hardens(
                    with_pager(with_null_device(env@)),
                    stub_dir@,
                    optional_text(*process_path),
                    optional_text(*process_pathext),
                    path,
                    pathext,
                    r@,
                )
        } else {
            r@ == with_pager(with_null_device(env@))
        },
{
    let mut out = env.clone();
    normalize_null_device_env(&mut out);
    ensure_non_interactive_pager(&mut out);
    if without_network {
        apply_no_network_hardening(&mut out, stub_dir, process_path, process_pathext);
    }
    out
}

proof fn lemma_other_settings_stay(
    env: Map<Seq<char>, Seq<char>>,
    key: Seq<char>,
    value: Seq<char>,
    name: Seq<char>,
)
    requires
        !same_ignoring_case(name, key),
    ensures
        with_value(env, key, value).dom().contains(name) <==> env.dom().contains(name),
        env.dom().contains(name) ==> with_value(env, key, value)[name] == env[name],
{
    assert(same_ignoring_case(key, key));
}

proof fn lemma_longer_is_other(a: Seq<char>, b: Seq<char>)
    requires
        a.len() != b.len(),
    ensures
        !same_ignoring_case(a, b),
{
    assert(lower(a).len() == a.len() && lower(b).len() == b.len());
}

/// In a hardened environment every spelling of a proxy variable that is set points to the address
/// where nothing listens.
pub proof fn no_proxy_setting_survives(
    env: Map<Seq<char>, Seq<char>>,
    stub_dir: Seq<char>,
    process_path: Option<Seq<char>>,
    process_pathext: Option<Seq<char>>,
    path: Seq<char>,
    pathext: Seq<char>,
    hardened: Map<Seq<char>, Seq<char>>,
    name: Seq<char>,
)
    requires
        hardens(env, stub_dir, process_path, process_pathext, path, pathext, hardened),
        same_ignoring_case(name, "HTTP_PROXY"@) || same_ignoring_case(name, "HTTPS_PROXY"@)
            || same_ignoring_case(name, "ALL_PROXY"@),
        hardened.dom().contains(name),
    ensures
        hardened[name] == PROXY_BLACKHOLE@,
{
    reveal_strlit("HTTP_PROXY");
    reveal_strlit("HTTPS_PROXY");
    reveal_strlit("ALL_PROXY");
    reveal_strlit("PATH");
    reveal_strlit("PATHEXT");
    assert(lower(name).len() == name.len());
    assert(lower("HTTP_PROXY"@).len() == 10 && lower("HTTPS_PROXY"@).len() == 11 && lower(
        "ALL_PROXY"@,
    ).len() == 9);
    let offline = offline_settings(env);
    let stubbed = with_value(offline, "PATH"@, with_front(stub_dir, path));
    lemma_longer_is_other(name, "PATHEXT"@);
    lemma_other_settings_stay(stubbed, "PATHEXT"@, stubs_first(pathext), name);
    lemma_longer_is_other(name, "PATH"@);
    lemma_other_settings_stay(offline, "PATH"@, with_front(stub_dir, path), name);
    lemma_offline_proxies(env, name);
}

proof fn lemma_offline_proxies(env: Map<Seq<char>, Seq<char>>, name: Seq<char>)
    requires
        same_ignoring_case(name, "HTTP_PROXY"@) || same_ignoring_case(name, "HTTPS_PROXY"@)
            || same_ignoring_case(name, "ALL_PROXY"@),
        offline_settings(env).dom().contains(name),
    ensures
        offline_settings(env)[name] == PROXY_BLACKHOLE@,
{
    reveal_strlit("HTTP_PROXY");
    reveal_strlit("HTTPS_PROXY");
    reveal_strlit("ALL_PROXY");
    reveal_strlit("http_proxy");
    reveal_strlit("https_proxy");
    reveal_strlit("all_proxy");
    reveal_strlit("GIT_HTTP_PROXY");
    reveal_strlit("git_http_proxy");
    reveal_strlit("GIT_HTTPS_PROXY");
    reveal_strlit("git_https_proxy");
    reveal_strlit("NO_PROXY");
    reveal_strlit("no_proxy");
    reveal_strlit("PIP_NO_INDEX");
    reveal_strlit("PIP_DISABLE_PIP_VERSION_CHECK");
    reveal_strlit("NPM_CONFIG_OFFLINE");
    reveal_strlit("CARGO_NET_OFFLINE");
    reveal_strlit("GIT_SSH_COMMAND");
    reveal_strlit("GIT_ALLOW_PROTOCOL");
    reveal_strlit("GIT_ALLOW_PROTOCOLS");
    reveal_strlit("GIT_PROTOCOL_FROM_USER");
    reveal_strlit("GIT_TERMINAL_PROMPT");
    assert(lower(name).len() == name.len());
    assert(lower("HTTP_PROXY"@).len() == 10 && lower("HTTPS_PROXY"@).len() == 11 && lower(
        "ALL_PROXY"@,
    ).len() == 9);
    let e0 = with_value(env, "AGENA_SANDBOX_NETWORK_DISABLED"@, "1"@);
    let e1 = with_pair(e0, "HTTP_PROXY"@, "http_proxy"@, PROXY_BLACKHOLE@);
    let e2 = with_pair(e1, "HTTPS_PROXY"@, "https_proxy"@, PROXY_BLACKHOLE@);
    let e3 = with_pair(e2, "ALL_PROXY"@, "all_proxy"@, PROXY_BLACKHOLE@);
    let e4 = with_pair(e3, "GIT_HTTP_PROXY"@, "git_http_proxy"@, PROXY_BLACKHOLE@);
    let e5 = with_pair(e4, "GIT_HTTPS_PROXY"@, "git_https_proxy"@, PROXY_BLACKHOLE@);
    let e6 = with_pair(e5, "NO_PROXY"@, "no_proxy"@, LOCAL_NO_PROXY@);
    let e7 = with_value(e6, "PIP_NO_INDEX"@, "1"@);
    let e8 = with_value(e7, "PIP_DISABLE_PIP_VERSION_CHECK"@, "1"@);
    let e9 = with_value(e8, "NPM_CONFIG_OFFLINE"@, "true"@);
    let e10 = with_value(e9, "CARGO_NET_OFFLINE"@, "true"@);
    let e11 = with_value(e10, "GIT_SSH_COMMAND"@, "cmd /c exit 1"@);
    let e12 = with_value(e11, "GIT_ALLOW_PROTOCOL"@, ""@);
    let e13 = with_value(e12, "GIT_ALLOW_PROTOCOLS"@, ""@);
    let e14 = with_value(e13, "GIT_PROTOCOL_FROM_USER"@, "0"@);
    assert(offline_settings(env) == with_value(e14, "GIT_TERMINAL_PROMPT"@, "0"@));
    lemma_longer_is_other(name, "GIT_TERMINAL_PROMPT"@);
    lemma_other_settings_stay(e14, "GIT_TERMINAL_PROMPT"@, "0"@, name);
    lemma_longer_is_other(name, "GIT_PROTOCOL_FROM_USER"@);
    lemma_other_settings_stay(e13, "GIT_PROTOCOL_FROM_USER"@, "0"@, name);
    lemma_longer_is_other(name, "GIT_ALLOW_PROTOCOLS"@);
    lemma_other_settings_stay(e12, "GIT_ALLOW_PROTOCOLS"@, ""@, name);
    lemma_longer_is_other(name, "GIT_ALLOW_PROTOCOL"@);
    lemma_other_settings_stay(e11, "GIT_ALLOW_PROTOCOL"@, ""@, name);
    lemma_longer_is_other(name, "GIT_SSH_COMMAND"@);
    lemma_other_settings_stay(e10, "GIT_SSH_COMMAND"@, "cmd /c exit 1"@, name);
    lemma_longer_is_other(name, "CARGO_NET_OFFLINE"@);
    lemma_other_settings_stay(e9, "CARGO_NET_OFFLINE"@, "true"@, name);
    lemma_longer_is_other(name, "NPM_CONFIG_OFFLINE"@);
    lemma_other_settings_stay(e8, "NPM_CONFIG_OFFLINE"@, "true"@, name);
    lemma_longer_is_other(name, "PIP_DISABLE_PIP_VERSION_CHECK"@);
    lemma_other_settings_stay(e7, "PIP_DISABLE_PIP_VERSION_CHECK"@, "1"@, name);
    lemma_longer_is_other(name, "PIP_NO_INDEX"@);
    lemma_other_settings_stay(e6, "PIP_NO_INDEX"@, "1"@, name);
    lemma_longer_is_other(name, "NO_PROXY"@);
    lemma_other_settings_stay(e5, "NO_PROXY"@, LOCAL_NO_PROXY@, name);
    lemma_longer_is_other(name, "GIT_HTTPS_PROXY"@);
    lemma_other_settings_stay(e4, "GIT_HTTPS_PROXY"@, PROXY_BLACKHOLE@, name);
    lemma_longer_is_other(name, "GIT_HTTP_PROXY"@);
    lemma_other_settings_stay(e3, "GIT_HTTP_PROXY"@, PROXY_BLACKHOLE@, name);
    assert(name != "no_proxy"@ && name != "git_http_proxy"@ && name != "git_https_proxy"@);
    assert(e3.dom().contains(name) && e3[name] == offline_settings(env)[name]);
    if !same_ignoring_case(name, "ALL_PROXY"@) {
        lemma_other_settings_stay(e2, "ALL_PROXY"@, PROXY_BLACKHOLE@, name);
        if name != "all_proxy"@ && !same_ignoring_case(name, "HTTPS_PROXY"@) {
            lemma_other_settings_stay(e1, "HTTPS_PROXY"@, PROXY_BLACKHOLE@, name);
        }
    }
}

/// A variable of a run without network: its name, another spelling that is set too, and its value.
pub open spec fn offline_table() -> Seq<(Seq<char>, Seq<char>, Seq<char>)> {
    seq![
        ("AGENA_SANDBOX_NETWORK_DISABLED"@, "AGENA_SANDBOX_NETWORK_DISABLED"@, "1"@),
        ("HTTP_PROXY"@, "http_proxy"@, "http://127.0.0.1:9"@),
        ("HTTPS_PROXY"@, "https_proxy"@, "http://127.0.0.1:9"@),
        ("ALL_PROXY"@, "all_proxy"@, "http://127.0.0.1:9"@),
        ("GIT_HTTP_PROXY"@, "git_http_proxy"@, "http://127.0.0.1:9"@),
        ("GIT_HTTPS_PROXY"@, "git_https_proxy"@, "http://127.0.0.1:9"@),
        ("NO_PROXY"@, "no_proxy"@, "localhost,127.0.0.1,::1"@),
        ("PIP_NO_INDEX"@, "PIP_NO_INDEX"@, "1"@),
        ("PIP_DISABLE_PIP_VERSION_CHECK"@, "PIP_DISABLE_PIP_VERSION_CHECK"@, "1"@),
        ("NPM_CONFIG_OFFLINE"@, "NPM_CONFIG_OFFLINE"@, "true"@),
        ("CARGO_NET_OFFLINE"@, "CARGO_NET_OFFLINE"@, "true"@),
        ("GIT_SSH_COMMAND"@, "GIT_SSH_COMMAND"@, "cmd /c exit 1"@),
        ("GIT_ALLOW_PROTOCOL"@, "GIT_ALLOW_PROTOCOL"@, ""@),
        ("GIT_ALLOW_PROTOCOLS"@, "GIT_ALLOW_PROTOCOLS"@, ""@),
        ("GIT_PROTOCOL_FROM_USER"@, "GIT_PROTOCOL_FROM_USER"@, "0"@),
        ("GIT_TERMINAL_PROMPT"@, "GIT_TERMINAL_PROMPT"@, "0"@),
    ]
}

/// An environment with some variables set under both of their spellings, and under no other.
pub open spec fn with_settings(
    env: Map<Seq<char>, Seq<char>>,
    table: Seq<(Seq<char>, Seq<char>, Seq<char>)>,
) -> Map<Seq<char>, Seq<char>>
    decreases table.len(),
{
    if table.len() == 0 {
        env
    } else {
        with_pair(
            with_settings(env, table.drop_last()),
            table.last().0,
            table.last().1,
            table.last().2,
        )
    }
}

proof fn lemma_lone_setting(env: Map<Seq<char>, Seq<char>>, key: Seq<char>, value: Seq<char>)
    ensures
        with_value(env, key, value) == with_pair(env, key, key, value),
{
    assert(with_value(env, key, value) =~= with_pair(env, key, key, value));
}

proof fn lemma_offline_is_the_table(env: Map<Seq<char>, Seq<char>>)
    ensures
        offline_settings(env) == with_settings(env, offline_table()),
{
    let t = offline_table();
    assert(PROXY_BLACKHOLE@ == "http://127.0.0.1:9"@);
    assert(LOCAL_NO_PROXY@ == "localhost,127.0.0.1,::1"@);
    let e0 = with_value(env, "AGENA_SANDBOX_NETWORK_DISABLED"@, "1"@);
    lemma_lone_setting(env, "AGENA_SANDBOX_NETWORK_DISABLED"@, "1"@);
    let e1 = with_pair(e0, "HTTP_PROXY"@, "http_proxy"@, "http://127.0.0.1:9"@);
    let e2 = with_pair(e1, "HTTPS_PROXY"@, "https_proxy"@, "http://127.0.0.1:9"@);
    let e3 = with_pair(e2, "ALL_PROXY"@, "all_proxy"@, "http://127.0.0.1:9"@);
    let e4 = with_pair(e3, "GIT_HTTP_PROXY"@, "git_http_proxy"@, "http://127.0.0.1:9"@);
    let e5 = with_pair(e4, "GIT_HTTPS_PROXY"@, "git_https_proxy"@, "http://127.0.0.1:9"@);
    let e6 = with_pair(e5, "NO_PROXY"@, "no_proxy"@, "localhost,127.0.0.1,::1"@);
    let e7 = with_value(e6, "PIP_NO_INDEX"@, "1"@);
    lemma_lone_setting(e6, "PIP_NO_INDEX"@, "1"@);
    let e8 = with_value(e7, "PIP_DISABLE_PIP_VERSION_CHECK"@, "1"@);
    lemma_lone_setting(e7, "PIP_DISABLE_PIP_VERSION_CHECK"@, "1"@);
    let e9 = with_value(e8, "NPM_CONFIG_OFFLINE"@, "true"@);
    lemma_lone_setting(e8, "NPM_CONFIG_OFFLINE"@, "true"@);
    let e10 = with_value(e9, "CARGO_NET_OFFLINE"@, "true"@);
    lemma_lone_setting(e9, "CARGO_NET_OFFLINE"@, "true"@);
    let e11 = with_value(e10, "GIT_SSH_COMMAND"@, "cmd /c exit 1"@);
    lemma_lone_setting(e10, "GIT_SSH_COMMAND"@, "cmd /c exit 1"@);
    let e12 = with_value(e11, "GIT_ALLOW_PROTOCOL"@, ""@);
    lemma_lone_setting(e11, "GIT_ALLOW_PROTOCOL"@, ""@);
    let e13 = with_value(e12, "GIT_ALLOW_PROTOCOLS"@, ""@);
    lemma_lone_setting(e12, "GIT_ALLOW_PROTOCOLS"@, ""@);
    let e14 = with_value(e13, "GIT_PROTOCOL_FROM_USER"@, "0"@);
    lemma_lone_setting(e13, "GIT_PROTOCOL_FROM_USER"@, "0"@);
    let e15 = with_value(e14, "GIT_TERMINAL_PROMPT"@, "0"@);
    lemma_lone_setting(e14, "GIT_TERMINAL_PROMPT"@, "0"@);
    assert(t.take(0) =~= Seq::empty());
    assert(with_settings(env, t.take(0)) == env);
    assert(t.take(1).drop_last() =~= t.take(0));
    assert(with_settings(env, t.take(1)) == e0);
    assert(t.take(2).drop_last() =~= t.take(1));
    assert(with_settings(env, t.take(2)) == e1);
    assert(t.take(3).drop_last() =~= t.take(2));
    assert(with_settings(env, t.take(3)) == e2);
    assert(t.take(4).drop_last() =~= t.take(3));
    assert(with_settings(env, t.take(4)) == e3);
    assert(t.take(5).drop_last() =~= t.take(4));
    assert(with_settings(env, t.take(5)) == e4);
    assert(t.take(6).drop_last() =~= t.take(5));
    assert(with_settings(env, t.take(6)) == e5);
    assert(t.take(7).drop_last() =~= t.take(6));
    assert(with_settings(env, t.take(7)) == e6);
    assert(t.take(8).drop_last() =~= t.take(7));
    assert(with_settings(env, t.take(8)) == e7);
    assert(t.take(9).drop_last() =~= t.take(8));
    assert(with_settings(env, t.take(9)) == e8);
    assert(t.take(10).drop_last() =~= t.take(9));
    assert(with_settings(env, t.take(10)) == e9);
    assert(t.take(11).drop_last() =~= t.take(10));
    assert(with_settings(env, t.take(11)) == e10);
    assert(t.take(12).drop_last() =~= t.take(11));
    assert(with_settings(env, t.take(12)) == e11);
    assert(t.take(13).drop_last() =~= t.take(12));
    assert(with_settings(env, t.take(13)) == e12);
    assert(t.take(14).drop_last() =~= t.take(13));
    assert(with_settings(env, t.take(14)) == e13);
    assert(t.take(15).drop_last() =~= t.take(14));
    assert(with_settings(env, t.take(15)) == e14);
    assert(t.take(16).drop_last() =~= t.take(15));
    assert(with_settings(env, t.take(16)) == e15);
    assert(t.take(16) =~= t);
    assert(offline_settings(env) == e15);
}

/// The spellings of each variable differ in their case alone, and no two variables have a name in
/// common, whatever its case.
proof fn lemma_table_is_unambiguous()
    ensures
        forall|i: int, j: int|
            0 <= i < j < offline_table().len() ==> !same_ignoring_case(
                (#[trigger] offline_table()[i]).0,
                (#[trigger] offline_table()[j]).0,
            ),
        forall|i: int|
            0 <= i < offline_table().len() ==> same_ignoring_case(
                (#[trigger] offline_table()[i]).0,
                offline_table()[i].1,
            ),
        forall|i: int|
            0 <= i < offline_table().len() ==> (#[trigger] offline_table()[i]).0.len() > 7,
{
    let t = offline_table();
    reveal_strlit("AGENA_SANDBOX_NETWORK_DISABLED");
    reveal_strlit("HTTP_PROXY");
    reveal_strlit("HTTPS_PROXY");
    reveal_strlit("ALL_PROXY");
    reveal_strlit("GIT_HTTP_PROXY");
    reveal_strlit("GIT_HTTPS_PROXY");
    reveal_strlit("NO_PROXY");
    reveal_strlit("PIP_NO_INDEX");
    reveal_strlit("PIP_DISABLE_PIP_VERSION_CHECK");
    reveal_strlit("NPM_CONFIG_OFFLINE");
    reveal_strlit("CARGO_NET_OFFLINE");
    reveal_strlit("GIT_SSH_COMMAND");
    reveal_strlit("GIT_ALLOW_PROTOCOL");
    reveal_strlit("GIT_ALLOW_PROTOCOLS");
    reveal_strlit("GIT_PROTOCOL_FROM_USER");
    reveal_strlit("GIT_TERMINAL_PROMPT");
    reveal_strlit("http_proxy");
    reveal_strlit("https_proxy");
    reveal_strlit("all_proxy");
    reveal_strlit("git_http_proxy");
    reveal_strlit("git_https_proxy");
    reveal_strlit("no_proxy");
    assert(lower("http_proxy"@) =~= lower("HTTP_PROXY"@));
    assert(lower("https_proxy"@) =~= lower("HTTPS_PROXY"@));
    assert(lower("all_proxy"@) =~= lower("ALL_PROXY"@));
    assert(lower("git_http_proxy"@) =~= lower("GIT_HTTP_PROXY"@));
    assert(lower("git_https_proxy"@) =~= lower("GIT_HTTPS_PROXY"@));
    assert(lower("no_proxy"@) =~= lower("NO_PROXY"@));
    assert(t[0].0.len() == 30);
    assert(t[1].0.len() == 10);
    assert(t[2].0.len() == 11);
    assert(t[3].0.len() == 9);
    assert(t[4].0.len() == 14);
    assert(t[5].0.len() == 15);
    assert(t[6].0.len() == 8);
    assert(t[7].0.len() == 12);
    assert(t[8].0.len() == 29);
    assert(t[9].0.len() == 18);
    assert(t[10].0.len() == 17);
    assert(t[11].0.len() == 15);
    assert(t[12].0.len() == 18);
    assert(t[13].0.len() == 19);
    assert(t[14].0.len() == 22);
    assert(t[15].0.len() == 19);
    assert(lower(t[5].0)[4] == 'h' && lower(t[11].0)[4] == 's');
    assert(lower(t[9].0)[0] == 'n' && lower(t[12].0)[0] == 'g');
    assert(lower(t[13].0)[4] == 'a' && lower(t[15].0)[4] == 't');
    assert forall|i: int, j: int| 0 <= i < j < t.len() implies !same_ignoring_case(
        (#[trigger] t[i]).0,
        (#[trigger] t[j]).0,
    ) by {
        if t[i].0.len() != t[j].0.len() {
            lemma_longer_is_other(t[i].0, t[j].0);
        } else {
            assert((i == 5 && j == 11) || (i == 9 && j == 12) || (i == 13 && j == 15));
        }
    }
}

proof fn lemma_settings_hold(
    env: Map<Seq<char>, Seq<char>>,
    table: Seq<(Seq<char>, Seq<char>, Seq<char>)>,
    name: Seq<char>,
)
    requires
        forall|i: int, j: int|
            0 <= i < j < table.len() ==> !same_ignoring_case(
                (#[trigger] table[i]).0,
                (#[trigger] table[j]).0,
            ),
        forall|i: int|
            0 <= i < table.len() ==> same_ignoring_case((#[trigger] table[i]).0, table[i].1),
    ensures
        (forall|i: int| 0 <= i < table.len() ==> !same_ignoring_case(name, (#[trigger] table[i]).0))
            ==> (with_settings(env, table).dom().contains(name) <==> env.dom().contains(name)) && (
        env.dom().contains(name) ==> with_settings(env, table)[name] == env[name]),
        forall|i: int|
            0 <= i < table.len() && same_ignoring_case(name, (#[trigger] table[i]).0) ==> (
            with_settings(env, table).dom().contains(name) <==> name == table[i].0 || name
                == table[i].1) && (with_settings(env, table).dom().contains(name) ==> with_settings(
                env,
                table,
            )[name] == table[i].2),
    decreases table.len(),
{
    if table.len() > 0 {
        let f = table.drop_last();
        let (key, other, value) = table.last();
        let e = with_settings(env, f);
        assert(table[table.len() - 1] == table.last());
        assert forall|i: int, j: int| 0 <= i < j < f.len() implies !same_ignoring_case(
            (#[trigger] f[i]).0,
            (#[trigger] f[j]).0,
        ) by {
            assert(f[i] == table[i] && f[j] == table[j]);
        }
        assert forall|i: int| 0 <= i < f.len() implies same_ignoring_case(
            (#[trigger] f[i]).0,
            f[i].1,
        ) by {
            assert(f[i] == table[i]);
        }
        lemma_settings_hold(env, f, name);
        if same_ignoring_case(name, key) {
            assert forall|i: int| 0 <= i < f.len() implies !same_ignoring_case(
                name,
                (#[trigger] table[i]).0,
            ) by {
                assert(!same_ignoring_case(table[i].0, table[table.len() - 1].0));
            }
        } else {
            lemma_other_settings_stay(e, key, value, name);
            assert(name != other);
            assert forall|i: int| 0 <= i < f.len() implies f[i] == #[trigger] table[i] by {}
        }
    }
}

/// What a run without network finds in its environment: the settings of the table under both of
/// their spellings and under no other, the directory of the stubs in front of its search path, the
/// stubs' extensions in front of the others, and everything else as it was.
pub proof fn offline_runs_find_their_settings(
    env: Map<Seq<char>, Seq<char>>,
    stub_dir: Seq<char>,
    process_path: Option<Seq<char>>,
    process_pathext: Option<Seq<char>>,
    path: Seq<char>,
    pathext: Seq<char>,
    hardened: Map<Seq<char>, Seq<char>>,
    name: Seq<char>,
    i: int,
)
    requires
        hardens(env, stub_dir, process_path, process_pathext, path, pathext, hardened),
        0 <= i < offline_table().len(),
    ensures
        hardened.dom().contains(offline_table()[i].0),
        hardened.dom().contains(offline_table()[i].1),
        same_ignoring_case(name, offline_table()[i].0) && hardened.dom().contains(name)
            ==> hardened[name] == offline_table()[i].2,
        hardened.dom().contains("PATH"@) && hardened["PATH"@] == with_front(stub_dir, path),
        hardened.dom().contains("PATHEXT"@) && hardened["PATHEXT"@] == stubs_first(pathext),
        (forall|k: int|
            0 <= k < offline_table().len() ==> !same_ignoring_case(
                name,
                (#[trigger] offline_table()[k]).0,
            )) && !same_ignoring_case(name, "PATH"@) && !same_ignoring_case(name, "PATHEXT"@) ==> (
        hardened.dom().contains(name) <==> env.dom().contains(name)) && (env.dom().contains(name)
            ==> hardened[name] == env[name]),
{
    reveal_strlit("PATH");
    reveal_strlit("PATHEXT");
    let t = offline_table();
    let offline = offline_settings(env);
    let stubbed = with_value(offline, "PATH"@, with_front(stub_dir, path));
    lemma_offline_is_the_table(env);
    lemma_table_is_unambiguous();
    lemma_settings_hold(env, t, name);
    lemma_settings_hold(env, t, t[i].0);
    lemma_settings_hold(env, t, t[i].1);
    assert(lower(t[i].0).len() == t[i].0.len() && lower(t[i].1).len() == t[i].1.len());
    lemma_longer_is_other(t[i].0, "PATH"@);
    lemma_longer_is_other(t[i].0, "PATHEXT"@);
    lemma_longer_is_other(t[i].1, "PATH"@);
    lemma_longer_is_other(t[i].1, "PATHEXT"@);
    lemma_longer_is_other("PATH"@, "PATHEXT"@);
    lemma_other_settings_stay(offline, "PATH"@, with_front(stub_dir, path), t[i].0);
    lemma_other_settings_stay(offline, "PATH"@, with_front(stub_dir, path), t[i].1);
    lemma_other_settings_stay(stubbed, "PATHEXT"@, stubs_first(pathext), t[i].0);
    lemma_other_settings_stay(stubbed, "PATHEXT"@, stubs_first(pathext), t[i].1);
    lemma_other_settings_stay(stubbed, "PATHEXT"@, stubs_first(pathext), "PATH"@);
    if !same_ignoring_case(name, "PATH"@) && !same_ignoring_case(name, "PATHEXT"@) {
        lemma_other_settings_stay(offline, "PATH"@, with_front(stub_dir, path), name);
        lemma_other_settings_stay(stubbed, "PATHEXT"@, stubs_first(pathext), name);
    }
}

/// A search path with a directory in front starts with that directory, and ends with what it was.
pub proof fn the_front_comes_first(prefix: Seq<char>, existing: Seq<char>)
    requires
        !prefix.contains(';'),
    ensures
        same_ignoring_case(split(with_front(prefix, existing), ';')[0], prefix),
        with_front(prefix, existing).len() >= existing.len(),
        with_front(prefix, existing).subrange(
            with_front(prefix, existing).len() - existing.len(),
            with_front(prefix, existing).len() as int,
        ) == existing,
{
    let r = with_front(prefix, existing);
    assert(r.subrange(r.len() - existing.len(), r.len() as int) =~= existing);
    if !same_ignoring_case(split(existing, ';')[0], prefix) {
        reveal_strlit(";");
        if existing.len() == 0 {
            lemma_first_part(prefix, Seq::empty());
            assert(prefix + Seq::<char>::empty() =~= prefix);
        } else {
            lemma_first_part(prefix, ";"@ + existing);
            assert(r =~= prefix + (";"@ + existing));
        }
    }
}

proof fn lemma_first_part(a: Seq<char>, b: Seq<char>)
    requires
        !a.contains(';'),
        b.len() == 0 || b[0] == ';',
    ensures
        split(a + b, ';').len() > 0,
        split(a + b, ';')[0] == a,
    decreases a.len() + b.len(),
{
    if b.len() > 0 {
        let f = b.drop_last();
        assert((a + b).drop_last() =~= a + f);
        assert((a + b).last() == b.last());
        lemma_first_part(a, f);
        if f.len() == 0 {
            assert(b.last() == ';');
        } else {
            lemma_first_part_is_closed(a, f);
        }
    } else if a.len() > 0 {
        assert(a + b =~= a);
        let f = a.drop_last();
        assert forall|c: char| f.contains(c) implies a.contains(c) by {
            let i = choose|i: int| 0 <= i < f.len() && f[i] == c;
            assert(a[i] == c);
        }
        lemma_first_part(f, Seq::empty());
        assert(f + Seq::<char>::empty() =~= f);
        assert(a.contains(a[a.len() - 1]));
        lemma_one_part(f);
        assert(f.push(a.last()) =~= a);
    } else {
        assert(a + b =~= a);
        assert(a =~= Seq::empty());
    }
}

proof fn lemma_one_part(a: Seq<char>)
    requires
        !a.contains(';'),
    ensures
        split(a, ';').len() == 1,
    decreases a.len(),
{
    if a.len() > 0 {
        let f = a.drop_last();
        assert forall|c: char| f.contains(c) implies a.contains(c) by {
            let i = choose|i: int| 0 <= i < f.len() && f[i] == c;
            assert(a[i] == c);
        }
        assert(a.contains(a[a.len() - 1]));
        lemma_one_part(f);
    }
}

proof fn lemma_first_part_is_closed(a: Seq<char>, b: Seq<char>)
    requires
        b.len() > 0,
        b[0] == ';',
    ensures
        split(a + b, ';').len() > 1,
    decreases b.len(),
{
    let f = b.drop_last();
    assert((a + b).drop_last() =~= a + f);
    crate::text::lemma_split_nonempty(a + f, ';');
    if f.len() > 0 {
        lemma_first_part_is_closed(a, f);
    } else {
        assert((a + b).last() == ';');
    }
}

/// An environment gets a value under a name: every other spelling of it is gone, and every other
/// variable stays as it is.
pub proof fn values_replace_every_spelling(
    env: Map<Seq<char>, Seq<char>>,
    key: Seq<char>,
    value: Seq<char>,
    name: Seq<char>,
)
    ensures
        with_value(env, key, value).dom().contains(key),
        with_value(env, key, value)[key] == value,
        same_ignoring_case(name, key) && name != key ==> !with_value(
            env,
            key,
            value,
        ).dom().contains(name),
        !same_ignoring_case(name, key) ==> (with_value(env, key, value).dom().contains(name)
            <==> env.dom().contains(name)) && (env.dom().contains(name) ==> with_value(
            env,
            key,
            value,
        )[name] == env[name]),
{
    if !same_ignoring_case(name, key) {
        lemma_other_settings_stay(env, key, value, name);
    }
}

/// Variables that name the null device of another system name that of Windows, and every other one
/// keeps its value. None is added, and none is lost.
pub proof fn null_devices_are_renamed(env: Map<Seq<char>, Seq<char>>, name: Seq<char>)
    ensures
        with_null_device(env).dom().contains(name) <==> env.dom().contains(name),
        env.dom().contains(name) && (lower(trim(env[name])) == "/dev/null"@ || lower(trim(env[name]))
            == "\\\\dev\\null"@) ==> with_null_device(env)[name] == "NUL"@,
        env.dom().contains(name) && lower(trim(env[name])) != "/dev/null"@ && lower(trim(env[name]))
            != "\\\\dev\\null"@ ==> with_null_device(env)[name] == env[name],
{
}

/// Pagers that wait for a key are replaced where none is named; nothing else changes.
pub proof fn pagers_are_named(env: Map<Seq<char>, Seq<char>>, name: Seq<char>)
    ensures
        env.dom().contains(name) ==> with_pager(env).dom().contains(name) && with_pager(env)[name]
            == env[name],
        !env.dom().contains("GIT_PAGER"@) ==> with_pager(env).dom().contains("GIT_PAGER"@)
            && with_pager(env)["GIT_PAGER"@] == "more.com"@,
        !env.dom().contains("PAGER"@) ==> with_pager(env).dom().contains("PAGER"@) && with_pager(
            env,
        )["PAGER"@] == "more.com"@,
        !env.dom().contains("LESS"@) ==> with_pager(env).dom().contains("LESS"@) && with_pager(
            env,
        )["LESS"@] == ""@,
        !env.dom().contains(name) && with_pager(env).dom().contains(name) ==> name == "GIT_PAGER"@
            || name == "PAGER"@ || name == "LESS"@,
{
    reveal_strlit("GIT_PAGER");
    reveal_strlit("PAGER");
    reveal_strlit("LESS");
    assert("GIT_PAGER"@.len() == 9 && "PAGER"@.len() == 5 && "LESS"@.len() == 4);
}

/// Every tool that reaches the network has a stub under both extensions.
pub proof fn every_tool_has_its_stubs(a: Seq<Seq<char>>, b: Seq<Seq<char>>, tool: Seq<char>)
    ensures
        stub_files(a + b) == stub_files(a) + stub_files(b),
        stub_files(seq![tool]) == seq![tool + ".bat"@, tool + ".cmd"@],
        stub_tools().contains(tool) <==> tool == "ssh"@ || tool == "scp"@ || tool == "sftp"@ || tool
            == "ftp"@ || tool == "telnet"@ || tool == "nc"@ || tool == "ncat"@,
    decreases b.len(),
{
    let one = seq![tool];
    assert(one.drop_last() =~= Seq::empty());
    assert(stub_files(one.drop_last()) =~= Seq::empty());
    assert(stub_files(one) =~= seq![tool + ".bat"@, tool + ".cmd"@]);
    let s = stub_tools();
    assert(s[0] == "ssh"@ && s[1] == "scp"@ && s[2] == "sftp"@ && s[3] == "ftp"@ && s[4]
        == "telnet"@ && s[5] == "nc"@ && s[6] == "ncat"@);
    if b.len() == 0 {
        assert(a + b =~= a);
        assert(stub_files(a) + stub_files(b) =~= stub_files(a));
    } else {
        let f = b.drop_last();
        every_tool_has_its_stubs(a, f, tool);
        assert((a + b).drop_last() =~= a + f);
        assert((a + b).last() == b.last());
        assert(stub_files(a + b) =~= stub_files(a) + stub_files(b));
    }
}

/// Parts that hold something are kept in their order, and the others are dropped.
pub proof fn empty_parts_are_dropped_one_by_one(
    a: Seq<Seq<char>>,
    b: Seq<Seq<char>>,
    part: Seq<char>,
)
    ensures
        nonempty(a + b) == nonempty(a) + nonempty(b),
        part.len() == 0 ==> nonempty(seq![part]).len() == 0,
        part.len() > 0 ==> nonempty(seq![part]) == seq![part],
    decreases b.len(),
{
    let one = seq![part];
    assert(one.drop_last() =~= Seq::empty());
    assert(nonempty(one.drop_last()) =~= Seq::empty());
    assert(part.len() > 0 ==> nonempty(one) =~= one);
    if b.len() == 0 {
        assert(a + b =~= a);
        assert(nonempty(a) + nonempty(b) =~= nonempty(a));
    } else {
        let f = b.drop_last();
        empty_parts_are_dropped_one_by_one(a, f, part);
        assert((a + b).drop_last() =~= a + f);
        assert((a + b).last() == b.last());
        assert(nonempty(a + b) =~= nonempty(a) + nonempty(b));
    }
}

/// The extensions other than those of the stubs keep their order.
pub proof fn other_extensions_keep_their_order(
    a: Seq<Seq<char>>,
    b: Seq<Seq<char>>,
    part: Seq<char>,
)
    ensures
        other_extensions(a + b) == other_extensions(a) + other_extensions(b),
        upper(part) == ".BAT"@ || upper(part) == ".CMD"@ ==> other_extensions(
            seq![part],
        ).len() == 0,
        upper(part) != ".BAT"@ && upper(part) != ".CMD"@ ==> other_extensions(seq![part])
            == seq![part],
    decreases b.len(),
{
    let one = seq![part];
    assert(one.drop_last() =~= Seq::empty());
    assert(other_extensions(one.drop_last()) =~= Seq::empty());
    if upper(part) != ".BAT"@ && upper(part) != ".CMD"@ {
        assert(other_extensions(one) =~= one);
    }
    if b.len() == 0 {
        assert(a + b =~= a);
        assert(other_extensions(a) + other_extensions(b) =~= other_extensions(a));
    } else {
        let f = b.drop_last();
        other_extensions_keep_their_order(a, f, part);
        assert((a + b).drop_last() =~= a + f);
        assert((a + b).last() == b.last());
        assert(other_extensions(a + b) =~= other_extensions(a) + other_extensions(b));
    }
}

proof fn lemma_first_match(parts: Seq<Seq<char>>, wanted: Seq<char>)
    ensures
        first_match(parts, wanted).len() <= 1,
        first_match(parts, wanted).len() == 1 <==> exists|i: int|
            0 <= i < parts.len() && upper(#[trigger] parts[i]) == wanted,
        first_match(parts, wanted).len() == 1 ==> upper(first_match(parts, wanted)[0]) == wanted,
    decreases parts.len(),
{
    if parts.len() > 0 {
        let f = parts.drop_last();
        lemma_first_match(f, wanted);
        if first_match(f, wanted).len() == 1 {
            let i = choose|i: int| 0 <= i < f.len() && upper(#[trigger] f[i]) == wanted;
            assert(parts[i] == f[i]);
        } else if upper(parts.last()) == wanted {
            assert(parts[parts.len() - 1] == parts.last());
        }
        if exists|i: int| 0 <= i < parts.len() && upper(#[trigger] parts[i]) == wanted {
            let i = choose|i: int| 0 <= i < parts.len() && upper(#[trigger] parts[i]) == wanted;
            if i < f.len() {
                assert(f[i] == parts[i]);
            }
        }
    }
}

/// The extensions of the stubs come first wherever they are there at all, each once, and the others
/// follow in their order: none is added.
pub proof fn stub_extensions_come_first(extensions: Seq<char>)
    ensures
        ({
            let parts = nonempty(split(extensions, ';'));
            exists|bat: Seq<Seq<char>>, cmd: Seq<Seq<char>>|
                {
                    &&& #[trigger] join(bat + cmd + other_extensions(parts), ";"@) == stubs_first(
                        extensions,
                    )
                    &&& bat.len() == if exists|i: int|
                        0 <= i < parts.len() && upper(#[trigger] parts[i]) == ".BAT"@ {
                        1int
                    } else {
                        0
                    }
                    &&& cmd.len() == if exists|i: int|
                        0 <= i < parts.len() && upper(#[trigger] parts[i]) == ".CMD"@ {
                        1int
                    } else {
                        0
                    }
                    &&& bat.len() == 1 ==> upper(bat[0]) == ".BAT"@
                    &&& cmd.len() == 1 ==> upper(cmd[0]) == ".CMD"@
                }
        }),
{
    let parts = nonempty(split(extensions, ';'));
    let bat = first_match(parts, ".BAT"@);
    let cmd = first_match(parts, ".CMD"@);
    lemma_first_match(parts, ".BAT"@);
    lemma_first_match(parts, ".CMD"@);
    assert(join(bat + cmd + other_extensions(parts), ";"@) == stubs_first(extensions));
}

/// A directory that is in front already is not put there again.
pub proof fn the_front_is_put_once(prefix: Seq<char>, existing: Seq<char>)
    ensures
        same_ignoring_case(split(existing, ';')[0], prefix) ==> with_front(prefix, existing)
            == existing,
        !same_ignoring_case(split(existing, ';')[0], prefix) && existing.len() > 0 ==> with_front(
            prefix,
            existing,
        ) == prefix + seq![';'] + existing,
        !same_ignoring_case(split(existing, ';')[0], prefix) && existing.len() == 0 ==> with_front(
            prefix,
            existing,
        ) == prefix,
{
    reveal_strlit(";");
    assert(";"@ =~= seq![';']);
}

/// A value is looked up in the environment first, then in the process, and is else the fallback.
pub proof fn values_are_looked_up_in_order(
    env: Map<Seq<char>, Seq<char>>,
    key: Seq<char>,
    process: Seq<char>,
    fallback: Seq<char>,
    value: Seq<char>,
)
    ensures
        env.dom().contains(key) ==> (is_looked_up(env, key, Some(process), fallback, value)
            <==> value == env[key]),
        (forall|k: Seq<char>| #[trigger] env.dom().contains(k) ==> !same_ignoring_case(k, key)) ==> (
        is_looked_up(env, key, Some(process), fallback, value) <==> value == process) && (
        is_looked_up(env, key, None, fallback, value) <==> value == fallback),
{
    if env.dom().contains(key) {
        assert(same_ignoring_case(key, key));
        assert(has_variable(env, key));
    }
}

/// A run without network searches the stubs first and then where it searched before, and tries the
/// extensions that it tried before.
pub proof fn search_paths_keep_their_directories(
    env: Map<Seq<char>, Seq<char>>,
    stub_dir: Seq<char>,
    process_path: Option<Seq<char>>,
    process_pathext: Option<Seq<char>>,
    path: Seq<char>,
    pathext: Seq<char>,
    hardened: Map<Seq<char>, Seq<char>>,
)
    requires
        hardens(env, stub_dir, process_path, process_pathext, path, pathext, hardened),
    ensures
        env.dom().contains("PATH"@) ==> hardened["PATH"@] == with_front(stub_dir, env["PATH"@]),
        env.dom().contains("PATHEXT"@) ==> hardened["PATHEXT"@] == stubs_first(env["PATHEXT"@]),
{
    reveal_strlit("PATH");
    reveal_strlit("PATHEXT");
    let t = offline_table();
    let offline = offline_settings(env);
    let stubbed = with_value(offline, "PATH"@, with_front(stub_dir, path));
    lemma_offline_is_the_table(env);
    lemma_table_is_unambiguous();
    lemma_settings_hold(env, t, "PATH"@);
    lemma_settings_hold(env, t, "PATHEXT"@);
    assert forall|i: int| 0 <= i < t.len() implies !same_ignoring_case(
        "PATH"@,
        (#[trigger] t[i]).0,
    ) && !same_ignoring_case("PATHEXT"@, t[i].0) by {
        lemma_longer_is_other("PATH"@, t[i].0);
        lemma_longer_is_other("PATHEXT"@, t[i].0);
    }
    lemma_longer_is_other("PATHEXT"@, "PATH"@);
    lemma_longer_is_other("PATH"@, "PATHEXT"@);
    lemma_other_settings_stay(offline, "PATH"@, with_front(stub_dir, path), "PATHEXT"@);
    lemma_other_settings_stay(stubbed, "PATHEXT"@, stubs_first(pathext), "PATH"@);
    assert(same_ignoring_case("PATH"@, "PATH"@) && same_ignoring_case("PATHEXT"@, "PATHEXT"@));
    if env.dom().contains("PATH"@) {
        assert(has_variable(offline, "PATH"@));
    }
    if env.dom().contains("PATHEXT"@) {
        assert(has_variable(stubbed, "PATHEXT"@));
    }
}

} // verus!
