use gitconf::apply::GitCmd;
use gitconf::cfg::Config;
use gitconf::cli::command_kind;
use gitconf::cli::should_offer_first_use;
use gitconf::cli::CommandKind;
use gitconf::smap::StringMap;

fn unset_cmd(key: &str) -> GitCmd {
    GitCmd::UnsetAll {
        key: String::from(key),
    }
}

fn set_cmd(key: &str, value: &str) -> GitCmd {
    GitCmd::SetValue {
        key: String::from(key),
        value: String::from(value),
    }
}

fn resolved(strict_git: bool, pairs: &[(&str, &str)]) -> Config {
    let mut settings = StringMap::new();
    for (k, v) in pairs {
        settings.insert(String::from(*k), String::from(*v));
    }
    Config {
        strict: false,
        strict_git,
        select_profile_on_first_use: false,
        show_current_profile: true,
        interactive: false,
        config: settings,
    }
}

fn lines(ls: &[&str]) -> Vec<String> {
    ls.iter().map(|l| String::from(*l)).collect()
}

// With strictGit set, sanitization resets every live key outside the
// protected namespaces and never touches `core.`, `remote.` or `branch.`
// keys; the settings are then applied as unset-then-set.
#[test]
fn strict_git_sanitizes_only_unprotected_keys() {
    let cfg = resolved(true, &[("user.name", "Jane")]);
    let listed = lines(&[
        "core.bare=false",
        "remote.origin.url=ssh://x",
        "branch.main.remote=origin",
        "user.email=a@b",
        "custom.key=1",
    ]);
    let plan = cfg.apply_plan(&listed);
    let expected = vec![
        unset_cmd("user.email"),
        set_cmd("user.email", ""),
        unset_cmd("custom.key"),
        set_cmd("custom.key", ""),
        unset_cmd("user.name"),
        set_cmd("user.name", "Jane"),
    ];
    assert_eq!(plan, expected);
}

// Without strictGit no sanitization happens: the plan is exactly the
// settings, each applied as unset-then-set in storage order.
#[test]
fn non_strict_git_only_applies_settings() {
    let cfg = resolved(false, &[("user.name", "Jane"), ("user.email", "j@d")]);
    let plan = cfg.apply_plan(&lines(&[]));
    let expected = vec![
        unset_cmd("user.name"),
        set_cmd("user.name", "Jane"),
        unset_cmd("user.email"),
        set_cmd("user.email", "j@d"),
    ];
    assert_eq!(plan, expected);
}

// Lines without `=` name no key and are skipped; a line with an empty key
// before `=` is unprotected and gets sanitized.
#[test]
fn sanitize_skips_lines_without_separator() {
    let cfg = resolved(true, &[]);
    let plan = cfg.apply_plan(&lines(&["no separator here", "=value", "remote.x=1"]));
    let expected = vec![unset_cmd(""), set_cmd("", "")];
    assert_eq!(plan, expected);
}

// Settings keys in protected namespaces are still applied; sanitization
// alone spares them.
#[test]
fn protected_settings_key_is_still_applied() {
    let cfg = resolved(true, &[("core.autocrlf", "input")]);
    let plan = cfg.apply_plan(&lines(&["core.bare=false"]));
    let expected = vec![unset_cmd("core.autocrlf"), set_cmd("core.autocrlf", "input")];
    assert_eq!(plan, expected);
}

#[test]
fn command_kind_dispatch() {
    assert_eq!(
        command_kind(Some(&String::from("show-profiles"))),
        CommandKind::ShowProfiles
    );
    assert_eq!(
        command_kind(Some(&String::from("show-profile"))),
        CommandKind::ShowProfile
    );
    assert_eq!(
        command_kind(Some(&String::from("set-profile"))),
        CommandKind::SetProfile
    );
    assert_eq!(
        command_kind(Some(&String::from("set-profile-path"))),
        CommandKind::SetProfilePath
    );
    assert_eq!(
        command_kind(Some(&String::from("status"))),
        CommandKind::RunGit
    );
    assert_eq!(command_kind(None), CommandKind::RunGit);
}

#[test]
fn first_use_selection_gate() {
    assert!(should_offer_first_use(true, true, true, false, 2));
    assert!(!should_offer_first_use(false, true, true, false, 2));
    assert!(!should_offer_first_use(true, false, true, false, 2));
    assert!(!should_offer_first_use(true, true, false, false, 2));
    assert!(!should_offer_first_use(true, true, true, true, 2));
    assert!(!should_offer_first_use(true, true, true, false, 0));
}
