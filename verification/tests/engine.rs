use kiwi_keymapper::config::{
    Action, AppAction, AppBehavior, BindingSpec, CompiledConfig, Config, HyperSpec, UiConfig,
};
use kiwi_keymapper::engine::{Decision, Engine, EventKind, Input};
use kiwi_keymapper::key::{Chord, Key, Modifier};

fn key(name: &str) -> Key {
    name.parse().unwrap()
}

fn chord(text: &str) -> Chord {
    text.parse().unwrap()
}

fn launch(target: &str) -> Action {
    Action::App(AppAction {
        target: target.into(),
        behavior: AppBehavior::Launch,
    })
}

fn app(target: &str) -> BindingSpec {
    BindingSpec {
        app: Some(target.into()),
        behavior: None,
        url: None,
        command: None,
        keys: None,
        enabled: true,
    }
}

fn keys(text: &str) -> BindingSpec {
    BindingSpec {
        app: None,
        behavior: None,
        url: None,
        command: None,
        keys: Some(text.into()),
        enabled: true,
    }
}

fn compiled(mut bindings: Vec<(&str, BindingSpec)>) -> CompiledConfig {
    bindings.sort_by(|a, b| a.0.cmp(b.0));
    Config {
        hyper: HyperSpec::default(),
        bindings: bindings
            .into_iter()
            .map(|(source, spec)| (source.to_string(), spec))
            .collect(),
        ui: UiConfig::default(),
        dual_role: Vec::new(),
    }
    .compile()
    .unwrap()
}

fn engine() -> Engine {
    Engine::new(compiled(vec![
        ("hyper+t", app("Ghostty")),
        ("hyper+a", keys("control+a")),
        ("left_option+h", keys("left")),
    ]))
}

fn press(name: &str) -> Input {
    Input::Key {
        key: key(name),
        kind: EventKind::Down,
        repeat: false,
    }
}

fn release(name: &str) -> Input {
    Input::Key {
        key: key(name),
        kind: EventKind::Up,
        repeat: false,
    }
}

#[test]
fn tapping_caps_emits_escape_and_suppresses_caps() {
    let mut engine = engine();

    assert_eq!(engine.handle(press("caps_lock")), Decision::Suppress);
    assert_eq!(
        engine.handle(release("caps_lock")),
        Decision::Trigger(Action::SendKeys(chord("escape")))
    );
}

#[test]
fn hyper_app_binding_triggers_once_and_consumes_key_pair() {
    let mut engine = engine();

    assert_eq!(engine.handle(press("caps_lock")), Decision::Suppress);
    assert_eq!(engine.handle(press("t")), Decision::Trigger(launch("Ghostty")));
    assert_eq!(
        engine.handle(Input::Key {
            key: key("t"),
            kind: EventKind::Down,
            repeat: true,
        }),
        Decision::Suppress
    );
    assert_eq!(engine.handle(release("t")), Decision::Suppress);
    assert_eq!(engine.handle(release("caps_lock")), Decision::Suppress);
}

#[test]
fn unmapped_hyper_chord_passes_with_configured_modifiers() {
    let mut engine = engine();
    engine.handle(press("caps_lock"));

    assert_eq!(
        engine.handle(press("b")),
        Decision::PassWithModifiers(vec![
            Modifier::Command,
            Modifier::Control,
            Modifier::Option,
            Modifier::Shift,
        ])
    );
    assert!(matches!(
        engine.handle(release("b")),
        Decision::PassWithModifiers(_)
    ));
    assert_eq!(engine.handle(release("caps_lock")), Decision::Suppress);
}

#[test]
fn side_specific_modifier_binding_works_without_hyper() {
    let mut engine = engine();

    assert_eq!(
        engine.handle(Input::Modifier {
            modifier: Modifier::LeftOption,
            kind: EventKind::Down,
        }),
        Decision::Pass
    );
    assert_eq!(
        engine.handle(press("h")),
        Decision::Trigger(Action::SendKeys(chord("left")))
    );
    assert_eq!(engine.handle(release("h")), Decision::Suppress);
}

#[test]
fn side_specific_binding_wins_over_a_matching_generic_binding() {
    let mut engine = Engine::new(compiled(vec![
        ("option+h", app("Generic")),
        ("left_option+h", app("Specific")),
    ]));
    engine.handle(Input::Modifier {
        modifier: Modifier::LeftOption,
        kind: EventKind::Down,
    });

    assert_eq!(engine.handle(press("h")), Decision::Trigger(launch("Specific")));
}

#[test]
fn pressing_another_key_prevents_escape_even_if_it_is_unmapped() {
    let mut engine = engine();
    engine.handle(press("caps_lock"));
    engine.handle(press("b"));
    engine.handle(release("b"));

    assert_eq!(engine.handle(release("caps_lock")), Decision::Suppress);
}

#[test]
fn engine_is_idle_only_between_complete_input_sequences() {
    let mut engine = engine();

    assert!(engine.is_idle());
    engine.handle(press("caps_lock"));
    assert!(!engine.is_idle());
    engine.handle(press("t"));
    engine.handle(release("t"));
    engine.handle(release("caps_lock"));
    assert!(engine.is_idle());
}

#[test]
fn replacing_config_changes_the_next_binding() {
    let replacement = compiled(vec![("hyper+b", app("Replacement"))]);
    let mut engine = engine();

    engine.replace_config(replacement);
    engine.handle(press("caps_lock"));
    assert_eq!(
        engine.handle(press("b")),
        Decision::Trigger(launch("Replacement"))
    );
}

#[test]
fn preview_chord_uses_held_physical_modifiers_and_hyper() {
    let mut engine = engine();
    engine.handle(Input::Modifier {
        modifier: Modifier::LeftOption,
        kind: EventKind::Down,
    });

    assert_eq!(
        engine.preview_chord(&press("h")).unwrap().to_string(),
        "left_option+h"
    );

    engine.handle(Input::Modifier {
        modifier: Modifier::LeftOption,
        kind: EventKind::Up,
    });
    engine.handle(press("caps_lock"));
    assert_eq!(
        engine.preview_chord(&press("h")).unwrap().to_string(),
        "hyper+h"
    );
}

#[test]
fn preview_chord_ignores_non_observable_inputs() {
    let engine = engine();

    assert_eq!(engine.preview_chord(&release("h")), None);
    assert_eq!(
        engine.preview_chord(&Input::Key {
            key: key("h"),
            kind: EventKind::Down,
            repeat: true,
        }),
        None
    );
    assert_eq!(engine.preview_chord(&press("caps_lock")), None);
    assert_eq!(
        engine.preview_chord(&Input::Modifier {
            modifier: Modifier::LeftOption,
            kind: EventKind::Down,
        }),
        None
    );
}

#[test]
fn modifier_events_always_pass() {
    let mut engine = engine();
    for kind in [EventKind::Down, EventKind::Up] {
        assert_eq!(
            engine.handle(Input::Modifier {
                modifier: Modifier::RightCommand,
                kind,
            }),
            Decision::Pass
        );
    }
    assert!(engine.is_idle());
}

#[test]
fn hyper_tap_after_a_modifier_press_is_cancelled() {
    let mut engine = engine();
    engine.handle(press("caps_lock"));
    engine.handle(Input::Modifier {
        modifier: Modifier::LeftShift,
        kind: EventKind::Down,
    });

    assert_eq!(engine.handle(release("caps_lock")), Decision::Suppress);
}

#[test]
fn unheld_hyper_release_is_suppressed_without_a_tap() {
    let mut engine = engine();

    assert_eq!(engine.handle(release("caps_lock")), Decision::Suppress);
    assert!(engine.is_idle());
}

#[test]
fn dual_role_key_taps_alone_and_holds_its_modifier() {
    let mut config = Config {
        hyper: HyperSpec::default(),
        bindings: vec![("leader+f".to_string(), app("Finder"))],
        ui: UiConfig::default(),
        dual_role: Vec::new(),
    };
    config.dual_role.push(kiwi_keymapper::config::DualRoleSpec {
        key: "space".into(),
        tap: "space".into(),
        hold_modifier: "leader".into(),
    });
    let mut engine = Engine::new(config.compile().unwrap());

    assert_eq!(engine.handle(press("space")), Decision::Suppress);
    assert_eq!(
        engine.handle(release("space")),
        Decision::Trigger(Action::SendKeys(chord("space")))
    );

    assert_eq!(engine.handle(press("space")), Decision::Suppress);
    assert_eq!(
        engine.preview_chord(&press("f")).unwrap().to_string(),
        "leader+f"
    );
    assert_eq!(engine.handle(press("f")), Decision::Trigger(launch("Finder")));
    assert_eq!(engine.handle(release("f")), Decision::Suppress);
    assert_eq!(engine.handle(release("space")), Decision::Suppress);
    assert!(engine.is_idle());
}

#[test]
fn dual_role_tap_keeps_the_modifiers_held_when_it_went_down() {
    let mut config = Config {
        hyper: HyperSpec::default(),
        bindings: Vec::new(),
        ui: UiConfig::default(),
        dual_role: Vec::new(),
    };
    config.dual_role.push(kiwi_keymapper::config::DualRoleSpec {
        key: "space".into(),
        tap: "space".into(),
        hold_modifier: "leader".into(),
    });
    let mut engine = Engine::new(config.compile().unwrap());
    engine.handle(Input::Modifier {
        modifier: Modifier::LeftShift,
        kind: EventKind::Down,
    });

    engine.handle(press("space"));
    assert_eq!(
        engine.handle(release("space")),
        Decision::Trigger(Action::SendKeys(chord("left_shift+space")))
    );
}

fn modifier(modifier: Modifier, kind: EventKind) -> Input {
    Input::Modifier { modifier, kind }
}

#[test]
fn a_triggering_key_stays_consumed_across_other_input() {
    let mut engine = engine();
    engine.handle(press("caps_lock"));
    assert_eq!(engine.handle(press("t")), Decision::Trigger(launch("Ghostty")));
    engine.handle(release("caps_lock"));
    engine.handle(modifier(Modifier::LeftShift, EventKind::Down));
    engine.handle(press("b"));
    engine.handle(release("b"));
    assert_eq!(
        engine.handle(Input::Key { key: key("t"), kind: EventKind::Down, repeat: true }),
        Decision::Suppress
    );
    engine.handle(modifier(Modifier::LeftShift, EventKind::Up));
    assert_eq!(engine.handle(release("t")), Decision::Suppress);
}

#[test]
fn a_rewritten_key_is_released_with_hyper_modifiers_across_other_input() {
    let mut engine = engine();
    engine.handle(press("caps_lock"));
    let down = engine.handle(press("z"));
    assert!(matches!(down, Decision::PassWithModifiers(_)));
    engine.handle(release("caps_lock"));
    engine.handle(press("b"));
    engine.handle(release("b"));
    assert_eq!(engine.handle(release("z")), down);
}

fn leader_config() -> CompiledConfig {
    let mut config = Config {
        hyper: HyperSpec::default(),
        bindings: Vec::new(),
        ui: UiConfig::default(),
        dual_role: Vec::new(),
    };
    config.dual_role.push(kiwi_keymapper::config::DualRoleSpec {
        key: "space".into(),
        tap: "space".into(),
        hold_modifier: "leader".into(),
    });
    config.compile().unwrap()
}

#[test]
fn a_dual_role_key_taps_across_releases_and_not_after_a_press() {
    let mut engine = Engine::new(leader_config());
    engine.handle(modifier(Modifier::LeftShift, EventKind::Down));
    engine.handle(press("space"));
    engine.handle(modifier(Modifier::LeftShift, EventKind::Up));
    engine.handle(release("b"));
    assert_eq!(
        engine.handle(release("space")),
        Decision::Trigger(Action::SendKeys(chord("left_shift+space")))
    );

    let mut engine = Engine::new(leader_config());
    engine.handle(press("space"));
    engine.handle(modifier(Modifier::LeftShift, EventKind::Down));
    engine.handle(modifier(Modifier::LeftShift, EventKind::Up));
    engine.handle(release("b"));
    assert_eq!(engine.handle(release("space")), Decision::Suppress);
}

#[test]
fn idleness_waits_for_every_key_that_still_awaits_its_release() {
    let mut engine = engine();
    assert!(engine.is_idle());
    assert_eq!(engine.handle(press("b")), Decision::Pass);
    assert!(engine.is_idle());
    engine.handle(release("b"));
    engine.handle(press("caps_lock"));
    assert!(!engine.is_idle());
    assert!(matches!(engine.handle(press("z")), Decision::PassWithModifiers(_)));
    engine.handle(release("caps_lock"));
    assert!(!engine.is_idle());
    engine.handle(modifier(Modifier::LeftShift, EventKind::Down));
    engine.handle(release("z"));
    assert!(!engine.is_idle());
    engine.handle(modifier(Modifier::LeftShift, EventKind::Up));
    assert!(engine.is_idle());
}
