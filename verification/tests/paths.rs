use std::path::{Component, Path};

use procwarden::path::{
    is_same_or_descendant, push_part, same_path, strip_windows_verbatim_prefix,
    style_with_separator, PathComponent, PathPrefix,
};
use procwarden::path_policy::{dedupe_paths, PathKeyMode, PathPolicy};
use procwarden::text::{
    blank, contains_text, hex_number, is_whitespace, join_texts, number, signed_number, split_text,
    trimmed,
};
use procwarden::{PathStyle, SandboxPath, SandboxPathPermission};

fn path(text: &str) -> SandboxPath {
    SandboxPath::from_text(text)
}

#[test]
fn path_policy_validate_and_dedupe_uses_mode() {
    let policy = PathPolicy::ascii_case_insensitive();
    let paths = vec![path(r"C:\\Temp\\Value"), path(r"c:\\temp\\value")];

    let deduped = policy
        .validate_and_dedupe(paths, |path: &SandboxPath| Ok::<_, ()>(path.clone()))
        .expect("validation should succeed");
    assert_eq!(deduped.len(), 1);
}

#[test]
fn path_policy_exact_keeps_case_distinct_inputs() {
    let policy = PathPolicy::exact();
    let normalized = policy.normalize_paths(vec![path("CaseSensitive"), path("casesensitive")]);

    assert_eq!(normalized.len(), 2);
}

#[test]
fn dedupe_canonical_paths_respects_key_mode() {
    let upper = path("/TMP/AGENA-CAP-FS-DEDUPE/MIXED-CASE-ENTRY");
    let lower = path("/tmp/agena-cap-fs-dedupe/mixed-case-entry");

    let exact = dedupe_paths(&vec![upper.clone(), lower.clone()], PathKeyMode::Exact);
    assert_eq!(exact.len(), 2);

    let insensitive = dedupe_paths(&vec![upper, lower], PathKeyMode::AsciiCaseInsensitive);
    assert_eq!(insensitive.len(), 1);
}

#[test]
fn the_first_of_equal_paths_stays_and_the_first_error_counts() {
    let policy = PathPolicy::ascii_case_insensitive();
    let kept = policy.normalize_paths(vec![path("B"), path("a"), path("b"), path("A")]);
    assert_eq!(kept, vec![path("B"), path("a")]);

    let error = policy
        .validate_and_dedupe(vec![path("x"), path("bad"), path("worse")], |p| {
            if p.bytes.len() > 1 {
                Err(p.bytes.len())
            } else {
                Ok(p.clone())
            }
        })
        .expect_err("a path should be rejected");
    assert_eq!(error, 3);
}

fn names(components: &[PathComponent]) -> Vec<String> {
    components
        .iter()
        .map(|component| match component {
            PathComponent::Prefix(_, raw) => format!("prefix:{}", String::from_utf8_lossy(raw)),
            PathComponent::RootDir => "root".to_string(),
            PathComponent::CurDir => ".".to_string(),
            PathComponent::ParentDir => "..".to_string(),
            PathComponent::Normal(name) => String::from_utf8_lossy(name).to_string(),
        })
        .collect()
}

#[test]
fn unix_components_are_those_of_the_standard_library() {
    let samples = [
        "", "/", "//", ".", "./", "..", "a", "a/", "/a", "//a//b/", "./a/./b", "a/../b", "/./a",
        "/../a", ".a", "..a", "a/.", "a//..//", "./.", "././a", "/a\\b",
    ];
    for sample in samples {
        let expected: Vec<String> = Path::new(sample)
            .components()
            .map(|component| match component {
                Component::Prefix(_) => unreachable!(),
                Component::RootDir => "root".to_string(),
                Component::CurDir => ".".to_string(),
                Component::ParentDir => "..".to_string(),
                Component::Normal(name) => name.to_string_lossy().to_string(),
            })
            .collect();
        let p = path(sample);
        assert_eq!(names(&p.components(PathStyle::Unix)), expected, "{sample}");
        assert_eq!(p.depth(PathStyle::Unix), expected.len());
    }
}

#[test]
fn unix_identity_and_order_are_those_of_the_standard_library() {
    let samples = [
        "", "/", ".", "..", "a", "a/", "./a", "a/b", "a//b", "a/./b", "a/b/", "/a", "/a/b", "/ab",
        "/a-b", "/a/c", "..a", "/b",
    ];
    for x in samples {
        for y in samples {
            let (p, q) = (path(x), path(y));
            assert_eq!(
                same_path(PathStyle::Unix, &p, &q),
                Path::new(x) == Path::new(y),
                "{x} {y}"
            );
            assert_eq!(
                p.key(PathStyle::Unix) < q.key(PathStyle::Unix),
                Path::new(x) < Path::new(y),
                "{x} {y}"
            );
        }
    }
}

#[test]
fn windows_prefixes_are_recognized() {
    let w = PathStyle::Windows;
    let first = |text: &str| path(text).components(w).into_iter().next();
    let prefix = |text: &str| match first(text) {
        Some(PathComponent::Prefix(p, raw)) => {
            Some((p, String::from_utf8_lossy(&raw).to_string()))
        }
        _ => None,
    };
    let b = |text: &str| text.as_bytes().to_vec();
    assert_eq!(
        prefix(r"c:\x"),
        Some((PathPrefix::Disk(b'C'), "c:".to_string()))
    );
    assert_eq!(
        prefix(r"\\?\c:\x"),
        Some((PathPrefix::VerbatimDisk(b'C'), r"\\?\c:".to_string()))
    );
    assert_eq!(
        prefix(r"\\?\UNC\srv\share\x"),
        Some((
            PathPrefix::VerbatimUnc(b("srv"), b("share")),
            r"\\?\UNC\srv\share".to_string()
        ))
    );
    assert_eq!(
        prefix(r"\\?\pictures\x"),
        Some((
            PathPrefix::Verbatim(b("pictures")),
            r"\\?\pictures".to_string()
        ))
    );
    assert_eq!(
        prefix(r"\\.\COM42"),
        Some((PathPrefix::DeviceNs(b("COM42")), r"\\.\COM42".to_string()))
    );
    assert_eq!(
        prefix("//srv/share/x"),
        Some((
            PathPrefix::Unc(b("srv"), b("share")),
            "//srv/share".to_string()
        ))
    );
    assert_eq!(prefix(r"\\srv"), None);
    assert_eq!(prefix(r"\x"), None);
    assert_eq!(prefix("x"), None);
    assert_eq!(
        names(&path(r"\\srv\share").components(w)),
        vec![r"prefix:\\srv\share", "root"]
    );
    assert_eq!(
        names(&path(r"C:a/.\..\b").components(w)),
        vec!["prefix:C:", "a", "..", "b"]
    );
    assert_eq!(
        names(&path(r"\\?\C:\a/b\.").components(w)),
        vec![r"prefix:\\?\C:", "root", "a/b", "."]
    );
}

#[test]
fn verbatim_prefixes_are_shortened() {
    let strip = |text: &str| {
        strip_windows_verbatim_prefix(&path(text)).display(PathStyle::Windows)
    };
    assert_eq!(strip(r"\\?\C:\Users\me"), r"C:\Users\me");
    assert_eq!(strip(r"\\?\C:\"), r"C:\");
    assert_eq!(strip(r"\\?\c:"), "C:");
    assert_eq!(strip(r"\\?\UNC\srv\share\dir"), r"\\srv\share\dir");
    assert_eq!(strip(r"\\?\Volume{1}\x"), r"\\?\Volume{1}\x");
    assert_eq!(strip(r"D:\x"), r"D:\x");
    assert_eq!(strip("/unix/like"), "/unix/like");
}

#[test]
fn descendants_are_found_by_components() {
    let below = |style, p: &str, a: &str| is_same_or_descendant(style, &path(p), &path(a));
    assert!(below(PathStyle::Unix, "/a/b", "/a"));
    assert!(below(PathStyle::Unix, "/a", "/a/"));
    assert!(below(PathStyle::Unix, "/a/b/c", "/"));
    assert!(!below(PathStyle::Unix, "/ab", "/a"));
    assert!(!below(PathStyle::Unix, "/A/b", "/a"));
    assert!(!below(PathStyle::Unix, "/a", "/a/b"));
    assert!(below(PathStyle::Windows, r"c:\TEMP\x", r"C:\Temp"));
    assert!(!below(PathStyle::Windows, r"c:\TEMPORARY", r"C:\Temp"));
    assert!(!below(PathStyle::Windows, r"D:\Temp\x", r"C:\Temp"));
    assert!(below(PathStyle::Windows, "C:/Temp/x", r"C:\Temp"));
}

#[test]
fn lone_surrogates_are_compared_as_replaced() {
    let high = SandboxPath::from_bytes(vec![b'C', b':', b'\\', 0xed, 0xa0, 0x80]);
    let low = SandboxPath::from_bytes(vec![b'C', b':', b'\\', 0xed, 0xb0, 0x80]);
    assert!(is_same_or_descendant(PathStyle::Windows, &high, &low));
    assert!(!same_path(PathStyle::Windows, &high, &low));
    assert_eq!(high.display(PathStyle::Windows), "C:\\\u{fffd}");
}

#[test]
fn white_space_is_that_of_the_standard_library() {
    for code in 0..=0x10ffffu32 {
        if let Some(c) = char::from_u32(code) {
            assert_eq!(is_whitespace(c), c.is_whitespace(), "{code:#x}");
        }
    }
}

#[test]
fn texts_are_taken_apart_and_put_together() {
    for sample in ["", " ", "a", " a b ", "\u{3000}x\u{2003}", "\t\n"] {
        assert_eq!(trimmed(sample), sample.trim());
        assert_eq!(blank(sample), sample.trim().is_empty());
    }
    for sample in ["", ";", "a", "a;b", ";a;;b;"] {
        let parts = split_text(sample, ';');
        assert_eq!(parts, sample.split(';').collect::<Vec<_>>());
        assert_eq!(join_texts(&parts, ";"), sample);
    }
    assert!(contains_text("abcabd", "abd"));
    assert!(contains_text("abc", ""));
    assert!(!contains_text("ab", "abc"));
    assert_eq!(number(0), "0");
    assert_eq!(number(u128::MAX), u128::MAX.to_string());
    assert_eq!(signed_number(-42), "-42");
    assert_eq!(signed_number(i64::MIN), i64::MIN.to_string());
    assert_eq!(hex_number(0x8007_0005, 8), "80070005");
    assert_eq!(hex_number(0xabc, 8), "00000abc");
}

#[test]
fn paths_are_compared_as_the_host_takes_them_apart() {
    let samples = ["/tmp/a", "/tmp/a/", "/tmp//a", "/tmp/./a", "tmp/a", "/tmp/b", "", ".", "C:/a"];
    for x in samples {
        for y in samples {
            assert_eq!(path(x) == path(y), Path::new(x) == Path::new(y), "{x} {y}");
            assert_eq!(
                SandboxPathPermission::deny(x) == SandboxPathPermission::deny(y),
                Path::new(x) == Path::new(y)
            );
        }
    }
    assert_ne!(
        SandboxPathPermission::deny("/a"),
        SandboxPathPermission::read_only("/a")
    );
    assert_eq!(
        style_with_separator(std::path::MAIN_SEPARATOR) == PathStyle::Windows,
        std::path::MAIN_SEPARATOR == '\\'
    );
    assert_eq!(style_with_separator('/'), PathStyle::Unix);
}

#[test]
fn parts_are_added_to_verbatim_paths_by_components() {
    let joined = |base: &str, part: &str| {
        let bytes = push_part(&base.as_bytes().to_vec(), part.as_bytes());
        String::from_utf8(bytes).expect("the path is well formed")
    };
    for (base, part, expected) in [
        (r"\\?\C:\Windows", "System32", r"\\?\C:\Windows\System32"),
        (r"\\?\C:\\Windows\", "System32", r"\\?\C:\Windows\System32"),
        (r"\\?\C:\bar", "../foo", r"\\?\C:\foo"),
        (r"\\?\C:\bar\foo", "../.././foo/./", r"\\?\C:\foo"),
        (r"\\?\C:\", "../foo", r"\\?\C:\foo"),
        (r"\\?\C:", r"..\foo", r"\\?\C:\foo"),
        (r"\\?\UNC\server\share", "foo", r"\\?\UNC\server\share\foo"),
        (r"\\?\UNC\server\share\a", r"\foo", r"\\?\UNC\server\share\foo"),
        (r"\\?\A:\x\y", "/foo", r"\\?\A:\foo"),
        (r"\\?\A:\x\y", r"B:\z", r"B:\z"),
        (r"\\?\C:\a", "", r"\\?\C:\a\"),
        (r"C:\\a", "b", r"C:\\a\b"),
        ("C:", "b", "C:b"),
    ] {
        assert_eq!(joined(base, part), expected, "{base} {part}");
    }
}
