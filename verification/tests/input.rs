use study_time::input::{on_key, Choice, Key};

#[test]
fn keys_that_leave() {
    assert_eq!(on_key(true, Key::Char('q')), Choice::Quit);
    assert_eq!(on_key(true, Key::Char('Q')), Choice::Quit);
    assert_eq!(on_key(true, Key::Esc), Choice::Quit);
}

#[test]
fn key_that_toggles() {
    assert_eq!(on_key(true, Key::Char(' ')), Choice::Toggle);
}

#[test]
fn other_keys_do_nothing() {
    assert_eq!(on_key(true, Key::Char('x')), Choice::Nothing);
    assert_eq!(on_key(true, Key::Other), Choice::Nothing);
}

#[test]
fn only_pressing_counts() {
    assert_eq!(on_key(false, Key::Char('q')), Choice::Nothing);
    assert_eq!(on_key(false, Key::Char(' ')), Choice::Nothing);
    assert_eq!(on_key(false, Key::Esc), Choice::Nothing);
}
