use gitconf::cfg::Config;
use gitconf::cfg::OptionConfig;
use gitconf::smap::StringMap;

fn settings_of(pairs: &[(&str, &str)]) -> StringMap {
    let mut m = StringMap::new();
    for (k, v) in pairs {
        m.insert(String::from(*k), String::from(*v));
    }
    m
}

#[test]
fn test_to_config() {
    let mut config = StringMap::new();
    config.insert(String::from("user.name"), String::from("John Doe"));
    let option_config = OptionConfig {
        strict: Some(false),
        strict_git: Some(true),
        select_profile_on_first_use: Some(false),
        show_current_profile: Some(true),
        interactive: None,
        config: Some(config.duplicate()),
    };
    let config = Config {
        strict: false,
        strict_git: true,
        select_profile_on_first_use: false,
        show_current_profile: true,
        interactive: false,
        config,
    };
    assert_eq!(option_config.to_config(), config);
}

#[test]
fn test_merge() {
    let correct = OptionConfig {
        strict: Some(false),
        strict_git: None,
        select_profile_on_first_use: Some(false),
        show_current_profile: None,
        interactive: Some(true),
        config: Some(settings_of(&[("b", "2"), ("c", "3")])),
    };
    let first = OptionConfig {
        strict: Some(true),
        strict_git: Some(true),
        select_profile_on_first_use: Some(true),
        show_current_profile: Some(true),
        interactive: Some(true),
        config: Some(settings_of(&[("a", "1")])),
    };
    let second = OptionConfig {
        strict: Some(true),
        strict_git: None,
        select_profile_on_first_use: None,
        show_current_profile: None,
        interactive: None,
        config: Some(settings_of(&[("b", "2")])),
    };
    let third = OptionConfig {
        strict: Some(false),
        strict_git: None,
        select_profile_on_first_use: Some(false),
        show_current_profile: None,
        interactive: Some(true),
        config: Some(settings_of(&[("c", "3")])),
    };
    let mut merged = OptionConfig::new();
    merged.merge(&first);
    merged.merge(&second);
    merged.merge(&third);
    assert_eq!(correct, merged);
}

// Merging the all-absent default with any document yields that document.
#[test]
fn merge_into_default_is_identity() {
    let p = OptionConfig {
        strict: Some(false),
        strict_git: None,
        select_profile_on_first_use: Some(true),
        show_current_profile: None,
        interactive: Some(false),
        config: Some(settings_of(&[("user.email", "a@b"), ("x.y", "z")])),
    };
    let mut merged = OptionConfig::new();
    merged.merge(&p);
    assert_eq!(merged, p);

    // An all-absent incoming document leaves the accumulator unchanged.
    let mut base = OptionConfig {
        strict: None,
        strict_git: Some(false),
        select_profile_on_first_use: None,
        show_current_profile: Some(false),
        interactive: None,
        config: Some(settings_of(&[("a", "1")])),
    };
    let before = OptionConfig {
        strict: None,
        strict_git: Some(false),
        select_profile_on_first_use: None,
        show_current_profile: Some(false),
        interactive: None,
        config: Some(settings_of(&[("a", "1")])),
    };
    base.merge(&OptionConfig::new());
    assert_eq!(base, before);
}

// In a sequence of non-strict merges the most recent present field wins.
#[test]
fn latest_nonstrict_document_wins() {
    let older = OptionConfig {
        strict: None,
        strict_git: Some(true),
        select_profile_on_first_use: None,
        show_current_profile: Some(true),
        interactive: Some(true),
        config: Some(settings_of(&[("k", "old"), ("only.old", "1")])),
    };
    let newer = OptionConfig {
        strict: None,
        strict_git: Some(false),
        select_profile_on_first_use: None,
        show_current_profile: None,
        interactive: Some(false),
        config: Some(settings_of(&[("k", "new")])),
    };
    let mut merged = OptionConfig::new();
    merged.merge(&older);
    merged.merge(&newer);
    let expected = OptionConfig {
        strict: None,
        strict_git: Some(false),
        select_profile_on_first_use: None,
        show_current_profile: Some(true),
        interactive: Some(false),
        config: Some(settings_of(&[("k", "new"), ("only.old", "1")])),
    };
    assert_eq!(merged, expected);
}

// A strict incoming document discards everything accumulated before it,
// settings keys included.
#[test]
fn strict_merge_discards_accumulator() {
    let mut merged = OptionConfig::new();
    merged.merge(&OptionConfig {
        strict: None,
        strict_git: Some(false),
        select_profile_on_first_use: Some(true),
        show_current_profile: None,
        interactive: Some(true),
        config: Some(settings_of(&[("a", "1"), ("b", "2")])),
    });
    let strict_doc = OptionConfig {
        strict: Some(true),
        strict_git: None,
        select_profile_on_first_use: None,
        show_current_profile: None,
        interactive: None,
        config: Some(settings_of(&[("c", "3")])),
    };
    merged.merge(&strict_doc);
    assert_eq!(merged, strict_doc);
}

// Settings merge is a non-destructive union below a strict boundary.
#[test]
fn settings_merge_is_union() {
    let mut merged = OptionConfig::new();
    merged.merge(&OptionConfig {
        strict: None,
        strict_git: None,
        select_profile_on_first_use: None,
        show_current_profile: None,
        interactive: None,
        config: Some(settings_of(&[("a", "1")])),
    });
    merged.merge(&OptionConfig {
        strict: None,
        strict_git: None,
        select_profile_on_first_use: None,
        show_current_profile: None,
        interactive: None,
        config: Some(settings_of(&[("b", "2")])),
    });
    let expected = OptionConfig {
        strict: None,
        strict_git: None,
        select_profile_on_first_use: None,
        show_current_profile: None,
        interactive: None,
        config: Some(settings_of(&[("a", "1"), ("b", "2")])),
    };
    assert_eq!(merged, expected);
}

// Finalizing the all-absent default yields the documented defaults.
#[test]
fn finalize_default_yields_documented_defaults() {
    let resolved = OptionConfig::new().to_config();
    assert!(!resolved.strict);
    assert!(resolved.strict_git);
    assert!(!resolved.select_profile_on_first_use);
    assert!(resolved.show_current_profile);
    assert!(!resolved.interactive);
    assert_eq!(resolved.config.len(), 2);
    assert_eq!(
        resolved.config.get(&String::from("user.name")),
        Some(&String::from("John Doe"))
    );
    assert_eq!(
        resolved.config.get(&String::from("user.email")),
        Some(&String::from(""))
    );
}

// A present but empty settings table is kept, not replaced by defaults.
#[test]
fn finalize_keeps_present_empty_settings() {
    let doc = OptionConfig {
        strict: None,
        strict_git: None,
        select_profile_on_first_use: None,
        show_current_profile: None,
        interactive: None,
        config: Some(StringMap::new()),
    };
    let resolved = doc.to_config();
    assert_eq!(resolved.config.len(), 0);
}

#[test]
fn string_map_insert_overwrites() {
    let mut m = StringMap::new();
    assert!(m.is_empty());
    m.insert(String::from("k"), String::from("1"));
    m.insert(String::from("k"), String::from("2"));
    m.insert(String::from("l"), String::from("3"));
    assert_eq!(m.len(), 2);
    assert_eq!(m.get(&String::from("k")), Some(&String::from("2")));
    assert_eq!(m.get(&String::from("l")), Some(&String::from("3")));
    assert_eq!(m.get(&String::from("m")), None);
    assert!(!m.is_empty());
    assert!(m.contains_key(&String::from("k")));
    assert!(!m.contains_key(&String::from("m")));
    let copy = m.duplicate();
    assert_eq!(copy, m);
}
