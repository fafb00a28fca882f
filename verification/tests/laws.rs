use procwarden::env::sanitize_env_vars;
use procwarden::linux::overlays::lexically_normalize_path;
use procwarden::manager::sanitize_policy_for_execution;
use procwarden::overlay::{
    access_for_priority, collapse_rules, explicit_priority, overlay_rules,
    prune_same_access_descendants,
};
use procwarden::path::is_same_or_descendant;
use procwarden::probe::commands::{escape_single_quotes, read_command};
use procwarden::windows::access::single_quoted_segments;
use procwarden::{
    EnvMap, PathProbe, PathStyle, SandboxDefaultAccess, SandboxError, SandboxPath,
    SandboxPathAccess, SandboxPathPermission, SandboxPolicy,
};

const UNIX: PathStyle = PathStyle::Unix;
const PATHS: [&str; 4] = ["/a", "/a/b", "/a/b/c", "/d"];
const ACCESSES: [SandboxPathAccess; 3] = [
    SandboxPathAccess::Deny,
    SandboxPathAccess::ReadOnly,
    SandboxPathAccess::ReadWrite,
];

fn rule(path: &str, access: SandboxPathAccess) -> SandboxPathPermission {
    SandboxPathPermission {
        path: SandboxPath::from_text(path),
        access,
    }
}

fn access_of(default: SandboxDefaultAccess) -> SandboxPathAccess {
    match default {
        SandboxDefaultAccess::ReadOnly => SandboxPathAccess::ReadOnly,
        SandboxDefaultAccess::ReadWrite => SandboxPathAccess::ReadWrite,
    }
}

fn is_below(q: &str, path: &SandboxPath) -> bool {
    is_same_or_descendant(UNIX, &SandboxPath::from_text(q), path)
}

/// What a list of rules gives to a path: denial first, and then what differs from the default.
fn given(
    default: SandboxDefaultAccess,
    rules: &[SandboxPathPermission],
    q: &str,
) -> SandboxPathAccess {
    let covering = || rules.iter().filter(|r| is_below(q, &r.path));
    if covering().any(|r| r.access == SandboxPathAccess::Deny) {
        SandboxPathAccess::Deny
    } else {
        covering()
            .map(|r| r.access)
            .find(|access| *access != access_of(default))
            .unwrap_or(access_of(default))
    }
}

fn rule_lists() -> Vec<Vec<SandboxPathPermission>> {
    let mut single = Vec::new();
    for path in PATHS {
        for access in ACCESSES {
            single.push((path, access));
        }
    }
    let mut lists = vec![vec![]];
    for a in &single {
        lists.push(vec![rule(a.0, a.1)]);
        for b in &single {
            lists.push(vec![rule(a.0, a.1), rule(b.0, b.1)]);
            for c in &single {
                lists.push(vec![rule(a.0, a.1), rule(b.0, b.1), rule(c.0, c.1)]);
            }
        }
    }
    lists
}

#[test]
fn accepted_rules_are_enforced_as_asked() {
    let mut rejected = 0;
    for default in [SandboxDefaultAccess::ReadOnly, SandboxDefaultAccess::ReadWrite] {
        for rules in rule_lists() {
            let result = overlay_rules(UNIX, default, &rules);
            let deny = SandboxPathAccess::Deny;
            let is_denied =
                |path: &SandboxPath| rules.iter().any(|r| r.access == deny && r.path == *path);
            let reopens = rules.iter().any(|r| {
                r.access != deny
                    && r.access != access_of(default)
                    && !is_denied(&r.path)
                    && rules
                        .iter()
                        .any(|d| d.access == deny && is_same_or_descendant(UNIX, &r.path, &d.path))
            });
            match result {
                Err(error) => {
                    rejected += 1;
                    assert!(reopens, "{rules:?}");
                    assert!(matches!(error, SandboxError::InvalidRequest(_)));
                }
                Ok(out) => {
                    assert!(!reopens, "{rules:?}");
                    for q in ["/", "/a", "/a/x", "/a/b", "/a/b/c", "/a/b/c/x", "/d", "/d/x", "/ab"] {
                        assert_eq!(given(default, &out, q), given(default, &rules, q), "{rules:?}");
                    }
                    assert!(out.iter().all(|r| r.access != access_of(default)));
                    for (i, r) in out.iter().enumerate() {
                        for (j, other) in out.iter().enumerate() {
                            assert!(
                                i == j
                                    || r.access != other.access
                                    || !is_same_or_descendant(UNIX, &r.path, &other.path)
                            );
                        }
                    }
                    let again = overlay_rules(UNIX, default, &out).expect("it was accepted");
                    assert_eq!(again, out);
                    let repeated = overlay_rules(UNIX, default, &rules).expect("it was accepted");
                    assert_eq!(repeated, out);
                }
            }
        }
    }
    assert!(rejected > 0);
}

/// What rules amount to, in a form that can be compared.
fn outcome(
    default: SandboxDefaultAccess,
    rules: &Vec<SandboxPathPermission>,
) -> Result<Vec<SandboxPathPermission>, String> {
    overlay_rules(UNIX, default, rules).map_err(|error| error.message())
}

#[test]
fn the_order_and_repetition_of_rules_do_not_matter() {
    for default in [SandboxDefaultAccess::ReadOnly, SandboxDefaultAccess::ReadWrite] {
        for rules in rule_lists() {
            let mut turned = rules.clone();
            turned.reverse();
            turned.extend(rules.clone());
            assert_eq!(
                collapse_rules(UNIX, default, &rules),
                collapse_rules(UNIX, default, &turned)
            );
            assert_eq!(outcome(default, &rules), outcome(default, &turned));
        }
    }
}

#[test]
fn reordered_policies_are_enforced_alike_and_keep_their_first_spelling() {
    let found = |p: &str| PathProbe::Resolved {
        canonical: SandboxPath::from_text(p),
        is_dir: true,
    };
    let policy = |path_permissions| SandboxPolicy {
        path_permissions,
        ..SandboxPolicy::default()
    };
    let deny = || rule("/x/../d", SandboxPathAccess::Deny);
    let write = || rule("/w", SandboxPathAccess::ReadWrite);
    let one = sanitize_policy_for_execution(
        UNIX,
        &policy(vec![deny(), write()]),
        &vec![found("/d"), found("/w")],
    )
    .expect("the policy should be accepted");
    let other = sanitize_policy_for_execution(
        UNIX,
        &policy(vec![write(), deny(), write()]),
        &vec![found("/w"), found("/d"), found("/w")],
    )
    .expect("the policy should be accepted");
    assert_eq!(one, other);

    // Two spellings of one path: the first one stays, and it is the same path.
    let spelled = |a: &str, b: &str| {
        overlay_rules(
            UNIX,
            SandboxDefaultAccess::ReadOnly,
            &vec![
                rule(a, SandboxPathAccess::Deny),
                rule(b, SandboxPathAccess::Deny),
            ],
        )
        .expect("nothing is reopened")
    };
    let (plain, slashed) = (spelled("/d", "/d/"), spelled("/d/", "/d"));
    assert_eq!(plain[0].path.bytes, b"/d");
    assert_eq!(slashed[0].path.bytes, b"/d/");
    assert_eq!(plain, slashed);
}

#[test]
fn a_prefix_with_slashes_is_told_from_one_with_backslashes() {
    let accepted = |first: &str, second: &str| {
        overlay_rules(
            PathStyle::Windows,
            SandboxDefaultAccess::ReadOnly,
            &vec![
                rule(first, SandboxPathAccess::Deny),
                rule(second, SandboxPathAccess::Deny),
                rule(r"\\srv\share\a\b", SandboxPathAccess::ReadWrite),
            ],
        )
        .is_ok()
    };
    assert!(!accepted(r"\\srv\share\a", r"\\srv\share\a\"));
    assert!(!accepted(r"\\srv\share\a\", r"\\srv\share\a"));
    assert!(!accepted(r"\\srv\share\a", "//srv/share/a"));
    assert!(accepted("//srv/share/a", r"\\srv\share\a"));
}

#[test]
fn the_most_specific_rule_decides() {
    let out = overlay_rules(
        UNIX,
        SandboxDefaultAccess::ReadOnly,
        &vec![
            rule("/a/b/c", SandboxPathAccess::Deny),
            rule("/a", SandboxPathAccess::ReadWrite),
            rule("/a/b", SandboxPathAccess::ReadOnly),
        ],
    )
    .expect("nothing is reopened");
    assert_eq!(
        out,
        vec![
            rule("/a", SandboxPathAccess::ReadWrite),
            rule("/a/b/c", SandboxPathAccess::Deny)
        ]
    );
}

#[test]
fn pruned_rules_are_covered_by_kept_ones() {
    let rules = vec![
        rule("/a", SandboxPathAccess::Deny),
        rule("/a/b", SandboxPathAccess::Deny),
        rule("/a/b/c", SandboxPathAccess::ReadOnly),
        rule("/d", SandboxPathAccess::Deny),
    ];
    assert_eq!(
        prune_same_access_descendants(UNIX, &rules),
        vec![
            rule("/a", SandboxPathAccess::Deny),
            rule("/a/b/c", SandboxPathAccess::ReadOnly),
            rule("/d", SandboxPathAccess::Deny),
        ]
    );
}

#[test]
fn priorities_stand_for_accesses() {
    let (ro, rw) = (SandboxDefaultAccess::ReadOnly, SandboxDefaultAccess::ReadWrite);
    assert_eq!(explicit_priority(ro, SandboxPathAccess::Deny), 2);
    assert_eq!(explicit_priority(ro, SandboxPathAccess::ReadWrite), 1);
    assert_eq!(explicit_priority(ro, SandboxPathAccess::ReadOnly), 0);
    assert_eq!(explicit_priority(rw, SandboxPathAccess::ReadOnly), 1);
    assert_eq!(
        access_for_priority(rw, 1),
        Some(SandboxPathAccess::ReadOnly)
    );
    assert_eq!(
        access_for_priority(ro, 2),
        Some(SandboxPathAccess::Deny)
    );
    assert_eq!(access_for_priority(ro, 0), None);
    assert_eq!(access_for_priority(ro, 3), None);
}

#[test]
fn cleaning_an_environment_twice_changes_nothing() {
    let mut env = EnvMap::new();
    for name in ["PATH", "ld_preload", "Ld_X", "BASH_ENV", "BASH_FUNC_f", "env", "ENVX", "DYLD_"] {
        env.insert(name.to_string(), "v".to_string());
    }
    let once = sanitize_env_vars(&env);
    assert_eq!(once.len(), 2);
    assert!(once.contains_key("PATH") && once.contains_key("ENVX"));
    let twice = sanitize_env_vars(&once);
    assert_eq!(twice.len(), 2);
    assert_eq!(twice.get("PATH"), Some("v".to_string()));
}

#[test]
fn normalized_paths_are_normalized_again_to_themselves() {
    for sample in ["/a/../b/./c//", "a/../../b", "/..", "", ".", "..a/..", "/a/b/..", "./x/.y"] {
        let once = lexically_normalize_path(&SandboxPath::from_text(sample));
        assert_eq!(lexically_normalize_path(&once), once, "{sample}");
    }
}

#[test]
fn paths_in_scripts_are_found_again() {
    for path in [r"C:\x", r"C:\it's", r"'", r"a''b"] {
        let script = format!("read('{}') now", escape_single_quotes(path));
        assert_eq!(single_quoted_segments(&script), vec![path]);
    }
    let command = read_command(PathStyle::Windows, &SandboxPath::from_text(r"C:\it's"));
    assert_eq!(single_quoted_segments(&command[4]), vec![r"C:\it's"]);
}
