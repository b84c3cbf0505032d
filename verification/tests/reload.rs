use kiwi_keymapper::reload::reload_error;

#[test]
fn reload_error_is_condensed_to_one_informative_line() {
    let error = anyhow::Error::msg("parse failed\n| source excerpt\nspecific reason").context("invalid config");

    assert_eq!(
        reload_error(&error.to_string(), &error.root_cause().to_string()),
        "invalid config: parse failed: specific reason"
    );
}

#[test]
fn a_single_line_error_is_reported_once() {
    assert_eq!(reload_error("bad key", "bad key"), "bad key");
    assert_eq!(reload_error("outer", "  \n inner \n"), "outer: inner");
    assert_eq!(reload_error("outer\nmore", ""), "unknown config error");
}
