use kiwi_keymapper::config::{BindingSpec, CompiledConfig, Config, HyperSpec, UiConfig};
use kiwi_keymapper::conflicts::{CatalogEntry, catalog_matches, find_conflicts};
use kiwi_keymapper::key::Chord;

fn entry(chord: &str, source: &str, label: &str) -> CatalogEntry {
    CatalogEntry {
        chord: chord.into(),
        source: source.into(),
        label: label.into(),
        url: None,
    }
}

fn catalog() -> Vec<CatalogEntry> {
    vec![
        CatalogEntry {
            url: Some("https://support.apple.com/guide/mac-help/keyboard-shortcuts-mchlp2262/mac".into()),
            ..entry("command+space", "macos", "Spotlight")
        },
        entry("command+shift+3", "macos", "Screenshot entire screen"),
        entry("command+t", "safari", "New tab"),
        entry("command+t", "chrome", "New tab"),
        entry("command+t", "ghostty", "New tab"),
        entry("command+n", "finder", "New window"),
    ]
}

fn compiled(source: &str, spec: BindingSpec) -> CompiledConfig {
    Config {
        hyper: HyperSpec::default(),
        bindings: vec![(source.to_string(), spec)],
        ui: UiConfig::default(),
        dual_role: Vec::new(),
    }
    .compile()
    .unwrap()
}

fn app(target: &str) -> BindingSpec {
    BindingSpec {
        app: Some(target.into()),
        behavior: None,
        url: None,
        command: None,
        keys: None,
        enabled: true,
    }
}

#[test]
fn generic_catalog_modifier_matches_either_physical_side() {
    let catalog: Chord = "command+space".parse().unwrap();

    assert!(catalog_matches(&catalog, &"left_command+space".parse().unwrap()));
    assert!(catalog_matches(&catalog, &"right_command+space".parse().unwrap()));
}

#[test]
fn side_specific_catalog_modifier_does_not_match_the_other_side() {
    let catalog: Chord = "left_command+space".parse().unwrap();

    assert!(!catalog_matches(&catalog, &"right_command+space".parse().unwrap()));
    assert!(!catalog_matches(&catalog, &"command+space".parse().unwrap()));
}

#[test]
fn generic_catalog_chord_matches_generic_and_side_specific_bindings() {
    for shortcut in ["command+space", "left_command+space"] {
        let conflicts = find_conflicts(&compiled(shortcut, app("Finder")), &catalog()).unwrap();

        assert_eq!(conflicts.len(), 1);
        assert_eq!(conflicts[0].shortcut, shortcut);
        assert_eq!(conflicts[0].source, "macos");
        assert_eq!(conflicts[0].label, "Spotlight");
        assert_eq!(conflicts[0].kind, "app");
        assert_eq!(conflicts[0].action, "Finder");
        assert!(conflicts[0].url.is_some());
    }
}

#[test]
fn screenshot_binding_matches_catalog() {
    let spec = BindingSpec {
        app: None,
        command: Some("capture".into()),
        ..app("unused")
    };
    let conflicts = find_conflicts(&compiled("command+shift+3", spec), &catalog()).unwrap();

    assert!(
        conflicts
            .iter()
            .any(|conflict| conflict.source == "macos" && conflict.label.contains("Screenshot"))
    );
}

#[test]
fn a_chord_shared_by_several_apps_reports_every_row_in_catalog_order() {
    let conflicts = find_conflicts(&compiled("command+t", app("Arc")), &catalog()).unwrap();

    let rows: Vec<_> = conflicts
        .iter()
        .map(|conflict| (conflict.source.as_str(), conflict.label.as_str()))
        .collect();
    assert_eq!(
        rows,
        vec![("safari", "New tab"), ("chrome", "New tab"), ("ghostty", "New tab")]
    );
    assert!(conflicts.iter().all(|conflict| conflict.shortcut == "command+t"));
}

#[test]
fn hyper_binding_does_not_expand_or_inspect_emitted_keys() {
    let spec = BindingSpec {
        app: None,
        keys: Some("command+space".into()),
        ..app("unused")
    };
    let conflicts = find_conflicts(&compiled("hyper+t", spec), &catalog()).unwrap();

    assert!(conflicts.is_empty());
}

#[test]
fn an_invalid_catalog_chord_is_an_error() {
    let catalog = vec![entry("command+nope", "macos", "Broken")];

    assert_eq!(
        find_conflicts(&compiled("hyper+t", app("A")), &catalog).unwrap_err(),
        "invalid chord `command+nope` in bundled shortcut catalog"
    );
}

#[test]
fn conflict_table_aligns_rows_and_names_the_source() {
    let config = Config {
        hyper: HyperSpec::default(),
        bindings: vec![
            ("command+shift+3".to_string(), BindingSpec {
                app: None,
                command: Some("capture".into()),
                ..app("unused")
            }),
            ("command+space".to_string(), app("Finder")),
        ],
        ui: UiConfig::default(),
        dual_role: Vec::new(),
    }
    .compile()
    .unwrap();
    let conflicts = find_conflicts(&config, &catalog()).unwrap();

    assert_eq!(
        kiwi_keymapper::conflicts::conflicts_table(&conflicts, false),
        "2 conflicts\n\nSHORTCUT         TYPE     ACTION   CONFLICTS WITH\ncommand+shift+3  command  capture  macOS Screenshot entire screen\ncommand+space    app      Finder   macOS Spotlight\n"
    );
    assert_eq!(
        kiwi_keymapper::conflicts::conflicts_table(&Vec::new(), false),
        "No shortcut conflicts found.\n"
    );
}

#[test]
fn bindings_with_a_dual_role_modifier_are_checked_for_conflicts() {
    let config = Config {
        hyper: HyperSpec::default(),
        bindings: vec![
            ("command+space".to_string(), app("Arc")),
            ("leader+h".to_string(), app("Finder")),
        ],
        ui: UiConfig::default(),
        dual_role: vec![kiwi_keymapper::config::DualRoleSpec {
            key: "space".into(),
            tap: "space".into(),
            hold_modifier: "leader".into(),
        }],
    }
    .compile()
    .unwrap();
    let conflicts = find_conflicts(&config, &catalog()).unwrap();
    assert_eq!(conflicts.len(), 1);
    assert_eq!(conflicts[0].shortcut, "command+space");
    assert_eq!(conflicts[0].label, "Spotlight");
}
