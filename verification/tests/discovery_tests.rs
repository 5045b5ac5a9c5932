use gitconf::cfg::OptionConfig;
use gitconf::profiles::activation_actions;
use gitconf::profiles::activation_slot;
use gitconf::profiles::candidate_dirs;
use gitconf::profiles::resolve_available_profiles;
use gitconf::profiles::resolve_current_configuration;
use gitconf::profiles::scan_dirs;
use gitconf::profiles::CurrentLevel;
use gitconf::profiles::FsAction;
use gitconf::profiles::ProfileFile;
use gitconf::profiles::ProfilesLevel;
use gitconf::pth::walk_from;
use gitconf::pth::DirPath;
use gitconf::pth::PathIter;

fn dir(parts: &[&str]) -> DirPath {
    DirPath {
        parts: parts.iter().map(|p| String::from(*p)).collect(),
    }
}

fn doc_interactive(v: bool) -> OptionConfig {
    OptionConfig {
        strict: None,
        strict_git: None,
        select_profile_on_first_use: None,
        show_current_profile: None,
        interactive: Some(v),
        config: None,
    }
}

// Walking from /a/b/c yields the directory, its ancestors, the root, and
// the system directory, with no duplicate entries.
#[test]
fn walk_yields_ancestors_root_and_system_dir() {
    let chain = walk_from(&dir(&["a", "b", "c"]));
    let expected = vec![
        dir(&["a", "b", "c"]),
        dir(&["a", "b"]),
        dir(&["a"]),
        dir(&[]),
        dir(&["etc"]),
    ];
    assert_eq!(chain, expected);
    for i in 0..chain.len() {
        for j in 0..i {
            assert_ne!(chain[i], chain[j]);
        }
    }
}

// Walking from below the system directory does not yield it twice.
#[test]
fn walk_skips_duplicate_system_dir() {
    let chain = walk_from(&dir(&["etc", "sub"]));
    let expected = vec![dir(&["etc", "sub"]), dir(&["etc"]), dir(&[])];
    assert_eq!(chain, expected);
}

// Walking from the root yields the root and the system directory.
#[test]
fn walk_from_root() {
    let chain = walk_from(&dir(&[]));
    let expected = vec![dir(&[]), dir(&["etc"])];
    assert_eq!(chain, expected);
}

#[test]
fn path_iter_yields_chain_in_order_and_restarts() {
    let mut it = PathIter::new(dir(&["a", "b"]));
    assert_eq!(it.next(), Some(dir(&["a", "b"])));
    assert_eq!(it.next(), Some(dir(&["a"])));
    assert_eq!(it.next(), Some(dir(&[])));
    assert_eq!(it.next(), Some(dir(&["etc"])));
    assert_eq!(it.next(), None);
    assert_eq!(it.next(), None);
    let mut again = PathIter::new(dir(&["a", "b"]));
    assert_eq!(again.next(), Some(dir(&["a", "b"])));
}

#[test]
fn candidate_chain_puts_git_slot_first() {
    let cands = candidate_dirs(&dir(&["w"]));
    let expected = vec![
        dir(&["w", ".git"]),
        dir(&["w"]),
        dir(&[]),
        dir(&["etc"]),
    ];
    assert_eq!(cands, expected);
}

#[test]
fn scan_dirs_reverses_and_appends_leaf() {
    let dirs = scan_dirs(&dir(&["w"]), String::from("current"));
    let expected = vec![
        dir(&["etc", ".gitconf", "current"]),
        dir(&[".gitconf", "current"]),
        dir(&["w", ".gitconf", "current"]),
        dir(&["w", ".git", ".gitconf", "current"]),
    ];
    assert_eq!(dirs, expected);
}

// Discovery precedence: a `current` document at the repository-local level
// overrides one at the system level, and its path is recorded.
#[test]
fn closest_current_document_wins() {
    let levels = vec![
        CurrentLevel::One {
            path: String::from("/etc/.gitconf/current/p"),
            doc: Some(doc_interactive(true)),
        },
        CurrentLevel::Missing,
        CurrentLevel::One {
            path: String::from("/w/.git/.gitconf/current/p"),
            doc: Some(doc_interactive(false)),
        },
    ];
    let (resolved, active) = resolve_current_configuration(&levels);
    assert!(!resolved.interactive);
    assert_eq!(active, Some(String::from("/w/.git/.gitconf/current/p")));
}

// Empty, ambiguous, missing and unparsable levels contribute nothing; with
// no contributing level the configuration is the default and no active
// profile path is recorded.
#[test]
fn skipped_levels_leave_the_default() {
    let levels = vec![
        CurrentLevel::Missing,
        CurrentLevel::Empty,
        CurrentLevel::Ambiguous,
        CurrentLevel::One {
            path: String::from("/etc/.gitconf/current/bad"),
            doc: None,
        },
    ];
    let (resolved, active) = resolve_current_configuration(&levels);
    assert_eq!(active, None);
    assert!(resolved.strict_git);
    assert!(resolved.show_current_profile);
    assert!(!resolved.interactive);
    assert_eq!(
        resolved.config.get(&String::from("user.name")),
        Some(&String::from("John Doe"))
    );
}

// An unparsable document is skipped, but a parseable one at a farther
// level still contributes, and stays the recorded active path.
#[test]
fn unparsable_level_does_not_shadow_farther_document() {
    let levels = vec![
        CurrentLevel::One {
            path: String::from("/etc/.gitconf/current/ok"),
            doc: Some(doc_interactive(true)),
        },
        CurrentLevel::One {
            path: String::from("/w/.gitconf/current/bad"),
            doc: None,
        },
    ];
    let (resolved, active) = resolve_current_configuration(&levels);
    assert!(resolved.interactive);
    assert_eq!(active, Some(String::from("/etc/.gitconf/current/ok")));
}

// One table entry per distinct file name; closer levels override farther
// ones; files that do not parse are excluded.
#[test]
fn profiles_closest_definition_wins() {
    let levels = vec![
        ProfilesLevel {
            files: vec![
                ProfileFile {
                    name: String::from("work"),
                    path: String::from("/etc/.gitconf/profiles/work"),
                    parses: true,
                },
                ProfileFile {
                    name: String::from("home"),
                    path: String::from("/etc/.gitconf/profiles/home"),
                    parses: true,
                },
            ],
        },
        ProfilesLevel { files: vec![] },
        ProfilesLevel {
            files: vec![
                ProfileFile {
                    name: String::from("work"),
                    path: String::from("/w/.gitconf/profiles/work"),
                    parses: true,
                },
                ProfileFile {
                    name: String::from("broken"),
                    path: String::from("/w/.gitconf/profiles/broken"),
                    parses: false,
                },
            ],
        },
    ];
    let table = resolve_available_profiles(&levels);
    assert_eq!(table.len(), 2);
    assert_eq!(
        table.get(&String::from("work")),
        Some(&String::from("/w/.gitconf/profiles/work"))
    );
    assert_eq!(
        table.get(&String::from("home")),
        Some(&String::from("/etc/.gitconf/profiles/home"))
    );
    assert_eq!(table.get(&String::from("broken")), None);
}

#[test]
fn activation_slot_prefers_git_dir() {
    let with_git = activation_slot(&dir(&["w"]), true);
    assert_eq!(with_git, dir(&["w", ".git", ".gitconf", "current"]));
    let without_git = activation_slot(&dir(&["w"]), false);
    assert_eq!(without_git, dir(&["w", ".gitconf", "current"]));
}

// Activation always fully clears the slot before writing, so repeating it
// leaves exactly one file: the steps are the same whether the slot held a
// directory, a stray file, or nothing.
#[test]
fn activation_steps_clear_then_copy() {
    assert_eq!(
        activation_actions(true, true),
        vec![
            FsAction::RemoveDirAll,
            FsAction::CreateDirAll,
            FsAction::CopySource
        ]
    );
    assert_eq!(
        activation_actions(true, false),
        vec![
            FsAction::RemoveFile,
            FsAction::CreateDirAll,
            FsAction::CopySource
        ]
    );
    assert_eq!(
        activation_actions(false, false),
        vec![FsAction::CreateDirAll, FsAction::CopySource]
    );
    // A second activation of the same source begins from a slot that is a
    // directory holding the one copied file, and plans the same clear-then-
    // copy steps again.
    assert_eq!(
        activation_actions(true, true),
        vec![
            FsAction::RemoveDirAll,
            FsAction::CreateDirAll,
            FsAction::CopySource
        ]
    );
}
