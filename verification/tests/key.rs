use kiwi_keymapper::key::{Chord, Key, Modifier};

#[test]
fn modifier_order_and_case_do_not_matter() {
    let a: Chord = "Command+Shift+P".parse().unwrap();
    let b: Chord = "shift+command+p".parse().unwrap();

    assert_eq!(a, b);
    assert_eq!(a.to_string(), "command+shift+p");
}

#[test]
fn names_normalize_dashes_and_aliases() {
    let chord: Chord = "left-alt+ESC".parse().unwrap();

    assert_eq!(chord.to_string(), "left_option+escape");
    assert!(chord.has(&Modifier::LeftOption));
    assert!(!chord.has(&Modifier::Option));
}

#[test]
fn repeated_modifiers_collapse() {
    let chord: Chord = "cmd+command+a".parse().unwrap();

    assert_eq!(chord.to_string(), "command+a");
}

#[test]
fn chord_parse_errors_name_the_bad_part() {
    assert_eq!(
        "hyper+".parse::<Chord>().unwrap_err(),
        "key chord cannot end with `+`"
    );
    assert!("super+a".parse::<Chord>().unwrap_err().contains("unknown modifier `super`"));
    assert!("hyper+nope".parse::<Chord>().unwrap_err().contains("unknown key `nope`"));
}

#[test]
fn function_keys_run_from_f1_to_f20() {
    assert!("f1".parse::<Key>().is_ok());
    assert!("F20".parse::<Key>().is_ok());
    assert!("f21".parse::<Key>().is_err());
    assert!("f0".parse::<Key>().is_err());
}

#[test]
fn chord_new_orders_modifiers_canonically() {
    let chord = Chord::new(
        vec![Modifier::Shift, Modifier::Hyper, Modifier::Shift],
        "a".parse().unwrap(),
    );

    assert_eq!(chord.to_string(), "hyper+shift+a");
}

#[test]
fn parsed_chords_read_back_from_their_text() {
    for text in [" Ctrl + Alt-Gr + Return ", "cmd+cmd+F12", "right-shift+hyper+backspace", "q"] {
        let named = vec!["alt_gr".to_string()];
        let chord = Chord::parse_with(text, &named).unwrap();
        let again = Chord::parse_with(&chord.to_string(), &named).unwrap();
        assert_eq!(again, chord);
        assert_eq!(again.to_string(), chord.to_string());
    }
    let chord = Chord::parse_with(" Ctrl + Alt-Gr + Return ", &["alt_gr".to_string()]).unwrap();
    assert_eq!(chord.to_string(), "control+alt_gr+enter");
}

#[test]
fn function_keys_are_written_without_sign_or_leading_zero() {
    for name in ["f01", "f001", "f020", "f+1", "f00", "f21", "f1a"] {
        assert!(name.parse::<Key>().is_err(), "{name}");
    }
    for name in ["f1", "f9", "f10", "f19", "f20", "F12"] {
        assert!(name.parse::<Key>().is_ok(), "{name}");
    }
}
