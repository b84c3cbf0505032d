use std::sync::mpsc;

use kiwi_keymapper::config::{
    Action, AppAction, AppBehavior, BindingSpec, CompiledConfig, Config, FeedbackPolicy, HyperSpec,
    UiConfig,
};
use kiwi_keymapper::engine::{Decision, EventKind, Input};
use kiwi_keymapper::key::{Chord, Key, Modifier};
use kiwi_keymapper::runtime::{ReloadNotice, ReloadingEngine, job_chord};

fn app(target: &str) -> BindingSpec {
    BindingSpec {
        app: Some(target.into()),
        behavior: None,
        url: None,
        command: None,
        keys: None,
        enabled: true,
    }
}

fn config_with(hyper: HyperSpec, ui: UiConfig, bindings: Vec<(&str, BindingSpec)>) -> CompiledConfig {
    Config {
        hyper,
        bindings: bindings
            .into_iter()
            .map(|(source, spec)| (source.to_string(), spec))
            .collect(),
        ui,
        dual_role: Vec::new(),
    }
    .compile()
    .unwrap()
}

fn config(bindings: Vec<(&str, BindingSpec)>) -> CompiledConfig {
    config_with(HyperSpec::default(), UiConfig::default(), bindings)
}

fn launch(target: &str) -> Action {
    Action::App(AppAction {
        target: target.into(),
        behavior: AppBehavior::Launch,
    })
}

fn press(name: &str) -> Input {
    Input::Key {
        key: name.parse::<Key>().unwrap(),
        kind: EventKind::Down,
        repeat: false,
    }
}

fn release(name: &str) -> Input {
    Input::Key {
        key: name.parse::<Key>().unwrap(),
        kind: EventKind::Up,
        repeat: false,
    }
}

#[test]
fn pending_config_applies_only_after_the_active_chord_finishes() {
    let initial = config(vec![("hyper+a", app("Old"))]);
    let replacement = config(vec![("hyper+b", app("New"))]);
    let (sender, receiver) = mpsc::channel();
    let mut runtime = ReloadingEngine::new(initial, receiver);

    runtime.handle(press("caps_lock"));
    sender.send(replacement).unwrap();
    let old_binding = runtime.handle(press("a"));
    assert_eq!(old_binding.decision, Decision::Trigger(launch("Old")));
    assert!(old_binding.notices.is_empty());

    runtime.handle(release("a"));
    let boundary = runtime.handle(release("caps_lock"));
    assert_eq!(boundary.notices, vec![ReloadNotice::Applied(1)]);

    runtime.handle(press("caps_lock"));
    assert_eq!(runtime.handle(press("b")).decision, Decision::Trigger(launch("New")));
}

#[test]
fn hyper_key_change_is_rejected_without_replacing_bindings() {
    let initial = config(vec![("hyper+a", app("Old"))]);
    let mut hyper = HyperSpec::default();
    hyper.key = "f18".into();
    let incompatible = config_with(hyper, UiConfig::default(), vec![("hyper+b", app("New"))]);
    let (sender, receiver) = mpsc::channel();
    let mut runtime = ReloadingEngine::new(initial, receiver);
    sender.send(incompatible).unwrap();

    let hyper_down = runtime.handle(press("caps_lock"));
    assert_eq!(hyper_down.notices, vec![ReloadNotice::HyperKeyChanged]);
    assert_eq!(hyper_down.decision, Decision::Suppress);
    assert_eq!(runtime.handle(press("a")).decision, Decision::Trigger(launch("Old")));
}

#[test]
fn observe_previews_a_chord_but_handle_does_not() {
    let initial = config(vec![("hyper+a", app("Observed"))]);
    let (_sender, receiver) = mpsc::channel();
    let mut runtime = ReloadingEngine::new(initial, receiver);

    runtime.observe(press("caps_lock"));
    let observed = runtime.observe(press("a"));
    assert_eq!(observed.chord.unwrap().to_string(), "hyper+a");

    runtime.observe(release("a"));
    runtime.observe(release("caps_lock"));
    runtime.handle(press("caps_lock"));
    assert!(runtime.handle(press("a")).chord.is_none());
}

#[test]
fn lost_passthrough_key_up_does_not_block_reload() {
    let initial = config(vec![("hyper+a", app("Old"))]);
    let replacement = config(vec![("hyper+b", app("New"))]);
    let (sender, receiver) = mpsc::channel();
    let mut runtime = ReloadingEngine::new(initial, receiver);

    assert_eq!(runtime.handle(press("q")).decision, Decision::Pass);
    sender.send(replacement).unwrap();
    let boundary = runtime.handle(press("caps_lock"));
    assert_eq!(boundary.notices, vec![ReloadNotice::Applied(1)]);
    assert_eq!(runtime.handle(press("b")).decision, Decision::Trigger(launch("New")));
}

#[test]
fn action_job_retains_normalized_chord_action_and_active_feedback_generation() {
    let errors = UiConfig {
        feedback: FeedbackPolicy::Errors,
        ..UiConfig::default()
    };
    let all = UiConfig {
        feedback: FeedbackPolicy::All,
        ..UiConfig::default()
    };
    let initial = config_with(HyperSpec::default(), errors, vec![("Shift+Hyper+A", app("Old"))]);
    let replacement = config_with(HyperSpec::default(), all, vec![("hyper+b", app("New"))]);
    let (sender, receiver) = mpsc::channel();
    let mut runtime = ReloadingEngine::new(initial, receiver);

    runtime.handle(press("caps_lock"));
    runtime.handle(Input::Modifier {
        modifier: "shift".parse::<Modifier>().unwrap(),
        kind: EventKind::Down,
    });
    sender.send(replacement).unwrap();
    let old = runtime.handle(press("a")).action_job.unwrap();
    assert_eq!(old.chord.to_string(), "hyper+shift+a");
    assert_eq!(old.action, launch("Old"));
    assert_eq!(old.feedback, FeedbackPolicy::Errors);

    runtime.handle(release("a"));
    runtime.handle(Input::Modifier {
        modifier: "shift".parse::<Modifier>().unwrap(),
        kind: EventKind::Up,
    });
    runtime.handle(release("caps_lock"));

    runtime.handle(press("caps_lock"));
    let new = runtime.handle(press("b")).action_job.unwrap();
    assert_eq!(new.chord.to_string(), "hyper+b");
    assert_eq!(new.action, launch("New"));
    assert_eq!(new.feedback, FeedbackPolicy::All);
}

#[test]
fn hyper_tap_job_reports_the_emitted_key_not_the_physical_hyper_key() {
    let all = UiConfig {
        feedback: FeedbackPolicy::All,
        ..UiConfig::default()
    };
    let initial = config_with(HyperSpec::default(), all, Vec::new());
    let (_sender, receiver) = mpsc::channel();
    let mut runtime = ReloadingEngine::new(initial, receiver);

    runtime.handle(press("caps_lock"));
    let tap = runtime.handle(release("caps_lock")).action_job.unwrap();

    assert_eq!(tap.chord.to_string(), "escape");
    assert_eq!(tap.action, Action::SendKeys("escape".parse().unwrap()));
}

#[test]
fn the_last_compatible_config_received_wins() {
    let initial = config(vec![("hyper+a", app("Old"))]);
    let (sender, receiver) = mpsc::channel();
    let mut runtime = ReloadingEngine::new(initial, receiver);
    sender.send(config(vec![("hyper+b", app("First"))])).unwrap();
    sender
        .send(config(vec![("hyper+b", app("Second")), ("hyper+c", app("Third"))]))
        .unwrap();

    let boundary = runtime.handle(press("caps_lock"));
    assert_eq!(boundary.notices, vec![ReloadNotice::Applied(2)]);
    assert_eq!(runtime.handle(press("b")).decision, Decision::Trigger(launch("Second")));
}

#[test]
fn job_chord_prefers_the_triggering_chord_then_the_emitted_keys_then_the_key() {
    let chord = |text: &str| text.parse::<Chord>().unwrap();
    let key = "t".parse::<Key>().unwrap();

    assert_eq!(
        job_chord(&launch("A"), Some(chord("hyper+t")), Some(key.clone())),
        Some(chord("hyper+t"))
    );
    assert_eq!(
        job_chord(&Action::SendKeys(chord("escape")), None, Some(key.clone())),
        Some(chord("escape"))
    );
    assert_eq!(job_chord(&launch("A"), None, Some(key)), Some(chord("t")));
    assert_eq!(job_chord(&launch("A"), None, None), None);
}
