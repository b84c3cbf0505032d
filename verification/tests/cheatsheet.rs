use kiwi_keymapper::cheatsheet::{
    CheatsheetModel, MAX_VISIBLE_MS, WorkerEffect, WorkerState, check_input_size, check_model,
    render_text, same_model,
};
use kiwi_keymapper::config::BindingSummary;

fn model(generation: u64) -> CheatsheetModel {
    CheatsheetModel {
        generation,
        rows: Vec::new(),
    }
}

fn row(key: &str, kind: &str, action: &str) -> BindingSummary {
    BindingSummary {
        key: key.into(),
        kind: kind.into(),
        action: action.into(),
    }
}

#[test]
fn worker_deadline_cancels_fast_release_and_deduplicates_down() {
    let model = model(1);
    let mut state = WorkerState::new();

    assert_eq!(state.show(10, 300, model.clone()), WorkerEffect::Schedule);
    assert_eq!(state.show(20, 300, model), WorkerEffect::Nothing);
    assert_eq!(
        state.hide_overlay(),
        WorkerEffect::Nothing,
        "pending display is cancelled without spawning"
    );
    assert_eq!(state.deadline_elapsed(400), WorkerEffect::Nothing);
}

#[test]
fn worker_spawns_at_deadline_and_hides_visible_child_immediately() {
    let model = model(2);
    let mut state = WorkerState::new();

    assert_eq!(state.show(1000, 300, model), WorkerEffect::Schedule);
    assert_eq!(state.deadline_elapsed(1299), WorkerEffect::Nothing);
    assert_eq!(state.deadline_elapsed(1300), WorkerEffect::Spawn);
    state.spawn_succeeded(1300);
    assert_eq!(state.hide_overlay(), WorkerEffect::Stop);
}

#[test]
fn visible_overlay_expires_and_stays_blocked_until_fresh_release_down() {
    let model = model(3);
    let mut state = WorkerState::new();
    let shown_at = 2000;

    assert_eq!(state.show(shown_at, 0, model.clone()), WorkerEffect::Schedule);
    assert_eq!(state.deadline_elapsed(shown_at), WorkerEffect::Spawn);
    state.spawn_succeeded(shown_at);
    assert_eq!(
        state.deadline_elapsed(shown_at + MAX_VISIBLE_MS - 1),
        WorkerEffect::Nothing
    );
    assert_eq!(
        state.deadline_elapsed(shown_at + MAX_VISIBLE_MS),
        WorkerEffect::Stop
    );
    assert_eq!(
        state.show(shown_at + MAX_VISIBLE_MS, 0, model.clone()),
        WorkerEffect::Nothing
    );
    assert_eq!(state.hide_overlay(), WorkerEffect::Nothing);
    assert_eq!(
        state.show(shown_at + MAX_VISIBLE_MS, 0, model),
        WorkerEffect::Schedule
    );
}

#[test]
fn failed_spawn_does_not_mark_the_model_visible_and_can_retry() {
    let model = model(4);
    let mut state = WorkerState::new();
    let now = 1000;

    assert_eq!(state.show(now, 0, model.clone()), WorkerEffect::Schedule);
    assert_eq!(state.deadline_elapsed(now), WorkerEffect::Spawn);
    state.spawn_failed();
    assert_eq!(state.show(now + 1, 0, model), WorkerEffect::Schedule);
}

#[test]
fn a_new_model_replaces_a_visible_overlay() {
    let mut state = WorkerState::new();

    state.show(0, 0, model(5));
    state.deadline_elapsed(0);
    assert_eq!(state.spawning_model().map(|m| m.generation), Some(5));
    state.spawn_succeeded(0);
    assert_eq!(state.next_deadline(), Some(MAX_VISIBLE_MS));
    assert_eq!(state.show(10, 200, model(6)), WorkerEffect::Stop);
    assert_eq!(state.next_deadline(), Some(210));
}

#[test]
fn an_exited_overlay_blocks_until_release() {
    let mut state = WorkerState::new();

    state.show(0, 0, model(7));
    state.deadline_elapsed(0);
    state.spawn_succeeded(0);
    state.child_exited();
    assert_eq!(state.next_deadline(), None);
    assert_eq!(state.show(5, 0, model(7)), WorkerEffect::Nothing);
}

#[test]
fn rendered_text_aligns_key_and_type_columns() {
    let model = CheatsheetModel {
        generation: 1,
        rows: vec![row("t", "app", "Ghostty"), row("shift+a", "command", "echo hi")],
    };

    assert_eq!(
        render_text(&model),
        "KIWI · HYPER\n\nKEY      TYPE     ACTION\nt        app      Ghostty\nshift+a  command  echo hi\n"
    );
    assert_eq!(render_text(&self::model(0)), "KIWI · HYPER\n\nKEY  TYPE  ACTION\n");
}

#[test]
fn model_checks_reject_oversized_input() {
    assert!(check_input_size(100_000).is_ok());
    assert!(check_input_size(100_001).is_err());

    let too_many = CheatsheetModel {
        generation: 0,
        rows: (0..65).map(|_| row("a", "app", "Arc")).collect(),
    };
    assert!(check_model(too_many).unwrap_err().contains("rows"));

    let long_text = CheatsheetModel {
        generation: 0,
        rows: vec![row("a", "app", &"x".repeat(161))],
    };
    assert!(check_model(long_text).is_err());

    let control = CheatsheetModel {
        generation: 0,
        rows: vec![row("a", "app", "Arc\nINJECT")],
    };
    assert!(check_model(control).is_err());

    let valid = CheatsheetModel {
        generation: 3,
        rows: vec![row("shift+t", "app", "Arc")],
    };
    assert_eq!(check_model(valid).unwrap().generation, 3);
}

#[test]
fn models_are_the_same_when_generation_and_rows_are() {
    let a = CheatsheetModel {
        generation: 1,
        rows: vec![row("t", "app", "A")],
    };
    let b = CheatsheetModel {
        generation: 1,
        rows: vec![row("t", "app", "B")],
    };
    assert!(same_model(&a, &a.clone()));
    assert!(!same_model(&a, &b));
}

#[test]
fn a_show_without_delay_starts_at_once_and_waking_is_capped_while_a_child_runs() {
    let mut state = WorkerState::new();
    assert_eq!(state.show_command(100, 0, model(1)), (WorkerEffect::Schedule, WorkerEffect::Spawn));
    assert_eq!(state.spawning_model().map(|m| m.generation), Some(1));
    state.spawn_succeeded(100);
    assert_eq!(state.wake_at(200, true), Some(1200));
    assert_eq!(state.wake_at(200, false), Some(100 + MAX_VISIBLE_MS));
    assert_eq!(state.wake_at(30_000, true), Some(100 + MAX_VISIBLE_MS));

    let mut state = WorkerState::new();
    assert_eq!(state.show_command(100, 250, model(2)), (WorkerEffect::Schedule, WorkerEffect::Nothing));
    assert_eq!(state.wake_at(100, true), Some(350));
    assert_eq!(state.spawning_model(), None);
}
