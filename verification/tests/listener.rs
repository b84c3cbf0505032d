use std::sync::mpsc;

use kiwi_keymapper::config::{Action, AppAction, AppBehavior, Config, HyperSpec, UiConfig};
use kiwi_keymapper::engine::{EventKind, Input};
use kiwi_keymapper::key::{Key, Modifier};
use kiwi_keymapper::listener::{observation_for, observation_line, paint};
use kiwi_keymapper::runtime::ReloadingEngine;

#[test]
fn formats_every_matched_action_type() {
    let cases = [
        (
            "hyper+t",
            Action::App(AppAction {
                target: "Ghostty".into(),
                behavior: AppBehavior::Launch,
            }),
            "hyper+t  matched  app  Ghostty",
        ),
        (
            "hyper+u",
            Action::OpenUrl("https://example.com".into()),
            "hyper+u  matched  url  https://example.com",
        ),
        (
            "hyper+p",
            Action::RunCommand("echo hi".into()),
            "hyper+p  matched  command  echo hi",
        ),
        (
            "hyper+a",
            Action::SendKeys("control+a".parse().unwrap()),
            "hyper+a  matched  keys  control+a",
        ),
    ];

    for (chord, action, expected) in cases {
        assert_eq!(observation_line(chord, Some(&action), false), expected);
    }
}

#[test]
fn formats_an_unmatched_chord_without_an_action() {
    assert_eq!(observation_line("hyper+z", None, false), "hyper+z  unmatched");
}

#[test]
fn colors_each_semantic_field_when_requested() {
    assert_eq!(
        observation_line("hyper+p", Some(&Action::RunCommand("echo hi".into())), true),
        "\u{1b}[36mhyper+p\u{1b}[0m  \u{1b}[32mmatched\u{1b}[0m  \u{1b}[35mcommand\u{1b}[0m  echo hi"
    );
    assert_eq!(
        observation_line("hyper+z", None, true),
        "\u{1b}[36mhyper+z\u{1b}[0m  \u{1b}[33munmatched\u{1b}[0m"
    );
}

#[test]
fn app_behaviors_appear_after_the_target() {
    for (behavior, suffix) in [
        (AppBehavior::Hide, "hide"),
        (AppBehavior::Cycle, "cycle"),
        (AppBehavior::NewWindow, "new window"),
        (AppBehavior::Toggle, "toggle"),
    ] {
        let action = Action::App(AppAction {
            target: "Ghostty".into(),
            behavior,
        });
        assert_eq!(
            observation_line("hyper+t", Some(&action), false),
            format!("hyper+t  matched  app  Ghostty ({suffix})")
        );
    }
}

#[test]
fn paint_wraps_only_when_colored() {
    assert_eq!(paint("x", "36", false), "x");
    assert_eq!(paint("x", "36", true), "\u{1b}[36mx\u{1b}[0m");
}

#[test]
fn repeat_release_and_modifier_events_do_not_produce_observations() {
    let config = Config {
        hyper: HyperSpec::default(),
        bindings: Vec::new(),
        ui: UiConfig::default(),
        dual_role: Vec::new(),
    }
    .compile()
    .unwrap();
    let (_sender, receiver) = mpsc::channel();
    let mut runtime = ReloadingEngine::new(config, receiver);
    let inputs = [
        Input::Modifier {
            modifier: Modifier::LeftOption,
            kind: EventKind::Down,
        },
        Input::Key {
            key: "h".parse::<Key>().unwrap(),
            kind: EventKind::Down,
            repeat: true,
        },
        Input::Key {
            key: "h".parse::<Key>().unwrap(),
            kind: EventKind::Up,
            repeat: false,
        },
    ];

    for input in inputs {
        let handled = runtime.observe(input);
        assert_eq!(observation_for(&handled, false), None);
    }
}

#[test]
fn a_fresh_press_is_observed_as_unmatched_or_matched() {
    let config = Config {
        hyper: HyperSpec::default(),
        bindings: vec![(
            "hyper+a".to_string(),
            kiwi_keymapper::config::BindingSpec {
                app: Some("Arc".into()),
                behavior: None,
                url: None,
                command: None,
                keys: None,
                enabled: true,
            },
        )],
        ui: UiConfig::default(),
        dual_role: Vec::new(),
    }
    .compile()
    .unwrap();
    let (_sender, receiver) = mpsc::channel();
    let mut runtime = ReloadingEngine::new(config, receiver);
    let press = |name: &str| Input::Key {
        key: name.parse::<Key>().unwrap(),
        kind: EventKind::Down,
        repeat: false,
    };

    let handled = runtime.observe(press("z"));
    assert_eq!(observation_for(&handled, false).as_deref(), Some("z  unmatched"));
    runtime.observe(press("caps_lock"));
    let handled = runtime.observe(press("a"));
    assert_eq!(
        observation_for(&handled, false).as_deref(),
        Some("hyper+a  matched  app  Arc")
    );
}
