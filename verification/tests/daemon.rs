use kiwi_keymapper::daemon::{
    CAPS_TO_F18_MAPPING, FLAG_ALPHA_SHIFT, FLAG_COMMAND, FLAG_CONTROL, FLAG_SHIFT, MappingState,
    TapAction, flags_for, mapping_state, tap_action,
};
use kiwi_keymapper::config::Action;
use kiwi_keymapper::engine::Decision;
use kiwi_keymapper::key::Modifier;

#[test]
fn uses_apples_caps_to_f18_hid_usage_mapping() {
    assert_eq!(
        CAPS_TO_F18_MAPPING,
        r#"{"UserKeyMapping":[{"HIDKeyboardModifierMappingSrc":0x700000039,"HIDKeyboardModifierMappingDst":0x70000006D}]}"#
    );
}

#[test]
fn distinguishes_our_hid_mapping_from_foreign_mappings() {
    assert_eq!(mapping_state("(null)"), MappingState::Empty);
    assert_eq!(mapping_state("(\n)"), MappingState::Empty);
    assert_eq!(
        mapping_state(
            r#"(
                  {
                    HIDKeyboardModifierMappingDst = 30064771181;
                    HIDKeyboardModifierMappingSrc = 30064771129;
                  }
                )"#
        ),
        MappingState::Owned
    );
    assert_eq!(
        mapping_state(
            r#"(
                  {
                    HIDKeyboardModifierMappingDst = 30064771130;
                    HIDKeyboardModifierMappingSrc = 30064771129;
                  }
                )"#
        ),
        MappingState::Foreign
    );
}

#[test]
fn two_mappings_are_foreign_even_when_one_is_ours() {
    assert_eq!(mapping_state(""), MappingState::Empty);
    assert_eq!(
        mapping_state(
            "({HIDKeyboardModifierMappingSrc = 30064771129; HIDKeyboardModifierMappingDst = 30064771181;},{HIDKeyboardModifierMappingSrc = 1; HIDKeyboardModifierMappingDst = 2;})"
        ),
        MappingState::Foreign
    );
}

#[test]
fn modifier_flags_ignore_side_and_virtual_modifiers() {
    assert_eq!(
        flags_for(&[Modifier::LeftCommand, Modifier::RightControl, Modifier::Hyper]),
        FLAG_COMMAND | FLAG_CONTROL
    );
    assert_eq!(flags_for(&[Modifier::Named("leader".into())]), 0);
}

#[test]
fn tap_actions_follow_the_decision() {
    let flags = FLAG_ALPHA_SHIFT | 0x100;
    assert_eq!(tap_action(&Decision::Pass, 0x100, true), TapAction::Keep);
    assert_eq!(tap_action(&Decision::Pass, flags, false), TapAction::Keep);
    assert_eq!(tap_action(&Decision::Pass, flags, true), TapAction::Replace(0x100));
    assert_eq!(tap_action(&Decision::Suppress, flags, true), TapAction::Drop);
    assert_eq!(
        tap_action(&Decision::Trigger(Action::OpenUrl("x".into())), flags, true),
        TapAction::Drop
    );
    assert_eq!(
        tap_action(
            &Decision::PassWithModifiers(vec![Modifier::Command, Modifier::Shift]),
            flags,
            false
        ),
        TapAction::Replace(0x100 | FLAG_COMMAND | FLAG_SHIFT)
    );
}
