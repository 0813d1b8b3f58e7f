use linear_tui::notation::{char_key, parse, Key, KeyCode, Modifiers};

const NONE: Modifiers = Modifiers { control: false, alt: false, shift: false };
const SHIFT: Modifiers = Modifiers { control: false, alt: false, shift: true };
const CONTROL: Modifiers = Modifiers { control: true, alt: false, shift: false };
const ALT: Modifiers = Modifiers { control: false, alt: true, shift: false };

fn key(code: KeyCode, modifiers: Modifiers) -> Key {
    Key { code, modifiers }
}

#[test]
fn plain_characters_are_pressed_one_by_one() {
    assert_eq!(
        parse("gm J").unwrap(),
        [
            key(KeyCode::Char('g'), NONE),
            key(KeyCode::Char('m'), NONE),
            key(KeyCode::Char('J'), SHIFT),
        ]
    );
}

#[test]
fn named_keys_take_modifiers() {
    assert_eq!(
        parse("<C-k> <S-Tab> <A-Enter> <F5> <lt> <Space>").unwrap(),
        [
            key(KeyCode::Char('k'), CONTROL),
            key(KeyCode::BackTab, NONE),
            key(KeyCode::Enter, ALT),
            key(KeyCode::F(5), NONE),
            key(KeyCode::Char('<'), NONE),
            key(KeyCode::Char(' '), NONE),
        ]
    );
}

#[test]
fn a_ctrl_dash_is_the_dash() {
    assert_eq!(parse("<C-->").unwrap(), [key(KeyCode::Char('-'), CONTROL)]);
}

#[test]
fn an_unknown_name_is_an_error() {
    assert!(parse("<Nope>").is_err());
    assert!(parse("<Fx>").is_err());
}

#[test]
fn an_unknown_name_is_quoted_and_stops_the_sequence() {
    assert_eq!(parse("g <F300> m").unwrap_err(), "unknown key <F300>");
    assert_eq!(parse("<>").unwrap_err(), "unknown key <>");
}

#[test]
fn modifiers_stack_and_names_ignore_case() {
    assert_eq!(
        parse("<C-M-pgdn> <S-x> <ESC> <M-f>").unwrap(),
        [
            key(
                KeyCode::PageDown,
                Modifiers { control: true, alt: true, shift: false }
            ),
            key(KeyCode::Char('x'), SHIFT),
            key(KeyCode::Esc, NONE),
            key(KeyCode::Char('f'), ALT),
        ]
    );
    assert_eq!(parse("<").unwrap(), [char_key('<')]);
    assert!(parse("   ").unwrap().is_empty());
    assert!(parse("<s-x>").is_err());
}
