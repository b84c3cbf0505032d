use kiwi_keymapper::config::{
    Action, AppAction, AppBehavior, BindingSpec, CompiledConfig, Config, DualRoleSpec, FeedbackPolicy,
    HyperSpec, UiConfig,
};
use kiwi_keymapper::key::Chord;

fn spec() -> BindingSpec {
    BindingSpec {
        app: None,
        behavior: None,
        url: None,
        command: None,
        keys: None,
        enabled: true,
    }
}

fn app(target: &str) -> BindingSpec {
    BindingSpec {
        app: Some(target.into()),
        ..spec()
    }
}

fn keys(text: &str) -> BindingSpec {
    BindingSpec {
        keys: Some(text.into()),
        ..spec()
    }
}

fn config(mut bindings: Vec<(&str, BindingSpec)>, dual_role: Vec<(&str, &str, &str)>) -> Config {
    bindings.sort_by(|a, b| a.0.cmp(b.0));
    Config {
        hyper: HyperSpec::default(),
        bindings: bindings
            .into_iter()
            .map(|(source, spec)| (source.to_string(), spec))
            .collect(),
        ui: UiConfig::default(),
        dual_role: dual_role
            .into_iter()
            .map(|(key, tap, hold)| DualRoleSpec {
                key: key.into(),
                tap: tap.into(),
                hold_modifier: hold.into(),
            })
            .collect(),
    }
}

fn compile(bindings: Vec<(&str, BindingSpec)>) -> Result<CompiledConfig, String> {
    config(bindings, Vec::new()).compile()
}

#[test]
fn parses_portable_hyper_and_binding_actions() {
    let compiled = compile(vec![
        ("hyper+t", app("Ghostty")),
        ("hyper+s", app("Slack")),
        ("hyper+a", keys("control+a")),
        (
            "left_option+h",
            BindingSpec {
                enabled: false,
                ..keys("left")
            },
        ),
    ])
    .expect("example config should validate");

    assert_eq!(compiled.hyper.key.as_str(), "caps_lock");
    assert_eq!(compiled.hyper.tap.to_string(), "escape");
    assert_eq!(
        compiled.bindings.get("hyper+t"),
        Some(&Action::App(AppAction {
            target: "Ghostty".into(),
            behavior: AppBehavior::Launch,
        }))
    );
    assert_eq!(
        compiled.bindings.get("hyper+a"),
        Some(&Action::SendKeys("control+a".parse::<Chord>().unwrap()))
    );
    assert!(!compiled.bindings.contains_key("left_option+h"));
}

#[test]
fn rejects_a_binding_with_more_than_one_action() {
    let error = compile(vec![(
        "hyper+t",
        BindingSpec {
            keys: Some("command+t".into()),
            ..app("Ghostty")
        },
    )])
    .unwrap_err();

    assert!(error.contains("hyper+t"));
    assert!(error.contains("exactly one"));
}

#[test]
fn rejects_unknown_keys_with_the_binding_name() {
    let error = compile(vec![("hyper+definitely_not_a_key", app("Ghostty"))]).unwrap_err();

    assert!(error.contains("hyper+definitely_not_a_key"));
    assert!(error.contains("unknown key"));
}

#[test]
fn rejects_bindings_that_normalize_to_the_same_chord() {
    let error = compile(vec![
        ("hyper+shift+a", app("Ghostty")),
        ("shift+hyper+a", app("Slack")),
    ])
    .unwrap_err();

    assert!(error.contains("duplicate binding"));
    assert!(error.contains("hyper+shift+a"));
}

#[test]
fn rejects_virtual_hyper_in_a_synthetic_keystroke() {
    let error = compile(vec![("hyper+x", keys("hyper+y"))]).unwrap_err();

    assert!(error.contains("hyper+x"));
    assert!(error.contains("virtual `hyper`"));
}

#[test]
fn compiles_named_dual_role_modifiers_in_bindings() {
    let compiled = config(
        vec![
            ("leader+f", app("Finder")),
            ("hyper+leader+t", app("Terminal")),
        ],
        vec![("space", "space", "leader")],
    )
    .compile()
    .unwrap();

    assert_eq!(compiled.dual_roles.len(), 1);
    assert_eq!(compiled.dual_roles[0].key.as_str(), "space");
    assert_eq!(compiled.dual_roles[0].tap.to_string(), "space");
    assert_eq!(compiled.dual_roles[0].hold_modifier, "leader");
    assert!(compiled.bindings.contains_key("leader+f"));
    assert!(compiled.bindings.contains_key("hyper+leader+t"));
}

#[test]
fn rejects_invalid_dual_role_declarations() {
    let cases: Vec<(Vec<(&str, &str, &str)>, &str)> = vec![
        (vec![("not_a_key", "space", "leader")], "invalid dual-role key"),
        (vec![("space", "not_a_key", "leader")], "invalid dual-role tap"),
        (vec![("space", "space", "hyper")], "reserved"),
        (vec![("space", "space", "shift")], "collides"),
        (vec![("space", "space", "space")], "collides"),
        (vec![("space", "space", "leader+mode")], "valid modifier name"),
        (
            vec![("space", "space", "leader"), ("space", "tab", "nav")],
            "duplicate dual-role key",
        ),
        (
            vec![("space", "space", "leader"), ("tab", "tab", "leader")],
            "duplicate hold modifier",
        ),
        (vec![("caps_lock", "space", "leader")], "duplicates the hyper key"),
    ];

    for (roles, expected) in cases {
        let error = config(Vec::new(), roles).compile().unwrap_err();
        assert!(error.contains(expected), "expected `{expected}` in `{error}`");
    }
}

#[test]
fn rejects_undefined_named_modifier_in_binding() {
    let error = compile(vec![("leader+f", app("Finder"))]).unwrap_err();

    assert!(error.contains("leader+f"));
    assert!(error.contains("unknown modifier `leader`"));
}

#[test]
fn named_modifier_normalization_is_deterministic() {
    let compiled = config(
        vec![("Shift+leader-mode+F", app("Finder"))],
        vec![("space", "space", "leader-mode")],
    )
    .compile()
    .unwrap();

    assert!(compiled.bindings.contains_key("shift+leader_mode+f"));
}

#[test]
fn disabled_bindings_are_ignored_before_validation() {
    let compiled = compile(vec![(
        "hyper+not_a_key",
        BindingSpec {
            enabled: false,
            ..spec()
        },
    )])
    .unwrap();

    assert!(compiled.bindings.is_empty());
}

#[test]
fn rejects_a_binding_without_an_action() {
    let error = compile(vec![("hyper+t", spec())]).unwrap_err();

    assert!(error.contains("hyper+t"));
    assert!(error.contains("exactly one"));
}

#[test]
fn rejects_an_unknown_hyper_key() {
    let mut cfg = config(Vec::new(), Vec::new());
    cfg.hyper.key = "not_a_key".into();

    let error = cfg.compile().unwrap_err();

    assert!(error.contains("hyper"));
    assert!(error.contains("unknown key"));
}

#[test]
fn rejects_a_cheatsheet_delay_above_five_seconds() {
    let mut cfg = config(Vec::new(), Vec::new());
    cfg.ui.cheatsheet_delay_ms = 5001;

    assert_eq!(
        cfg.compile().unwrap_err(),
        "`ui.cheatsheet_delay_ms` must be in 0..=5000"
    );
}

#[test]
fn rejects_more_than_64_hyper_bindings_while_the_cheatsheet_is_on() {
    let names: Vec<String> = (0..65)
        .map(|i| {
            if i < 26 {
                format!("hyper+{}", (b'a' + i as u8) as char)
            } else if i < 36 {
                format!("hyper+{}", i - 26)
            } else if i < 56 {
                format!("hyper+f{}", i - 35)
            } else {
                let extra = [
                    "escape", "enter", "tab", "space", "delete", "left", "right", "down", "up",
                ];
                format!("hyper+{}", extra[(i - 56) as usize])
            }
        })
        .collect();
    let bindings: Vec<(&str, BindingSpec)> =
        names.iter().map(|name| (name.as_str(), app("App"))).collect();

    let error = compile(bindings).unwrap_err();

    assert!(error.contains("cheatsheet"));
    assert!(error.contains("found 65"));
}

#[test]
fn app_behaviors_parse_by_name() {
    assert_eq!(AppBehavior::parse("toggle"), Ok(AppBehavior::Toggle));
    assert_eq!(AppBehavior::parse("new_window"), Ok(AppBehavior::NewWindow));
    assert!(AppBehavior::parse("Toggle").unwrap_err().contains("unknown app behavior"));
    assert_eq!(FeedbackPolicy::parse("all"), Ok(FeedbackPolicy::All));
}

#[test]
fn compiled_summary_lists_hyper_bindings_without_hyper() {
    let compiled = compile(vec![
        ("hyper+t", app("Ghostty")),
        ("left_option+h", keys("left")),
    ])
    .unwrap();

    let rows = compiled.hyper_binding_summary();

    assert_eq!(rows.len(), 1);
    assert_eq!(rows[0].key, "t");
    assert_eq!(rows[0].kind, "app");
    assert_eq!(rows[0].action, "Ghostty");
}
