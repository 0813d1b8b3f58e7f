use linear_tui::input::Input;

#[test]
fn input_edits_at_the_cursor() {
    let mut input = Input::default();
    for c in "hello world".chars() {
        input.insert(c);
    }
    input.left();
    input.left();
    input.insert('X');
    assert_eq!(input.value, "hello worXld");
    input.backspace();
    assert_eq!(input.value, "hello world");
}

#[test]
fn input_handles_multibyte_characters() {
    let mut input = Input::default();
    for c in "日本語".chars() {
        input.insert(c);
    }
    assert_eq!(input.cursor, 9);
    input.backspace();
    assert_eq!(input.value, "日本");
    input.home();
    input.delete();
    assert_eq!(input.value, "本");
}

#[test]
fn input_kill_word_stops_at_the_previous_space() {
    let mut input = Input::default();
    for c in "add search feature".chars() {
        input.insert(c);
    }
    input.kill_word();
    assert_eq!(input.value, "add search ");
    input.kill_word();
    assert_eq!(input.value, "add ");
}

#[test]
fn input_kill_to_start_and_end_split_at_the_cursor() {
    let mut input = Input::default();
    for c in "abcdef".chars() {
        input.insert(c);
    }
    input.left();
    input.left();
    input.kill_to_end();
    assert_eq!(input.value, "abcd");
    input.kill_to_start();
    assert_eq!(input.value, "");
}

#[test]
fn backspace_takes_back_what_was_typed() {
    let mut input = Input::with("héllo wörld");
    input.left();
    input.left();
    let before = input.clone();
    input.insert('ß');
    assert_eq!(input.value, "héllo wörßld");
    input.backspace();
    assert_eq!(input, before);
}
