use linear_tui::fuzzy::score;

#[test]
fn letters_must_appear_in_order() {
    assert!(score("cst", "Change status").is_some());
    assert!(score("zz", "Change status").is_none());
    assert!(score("sc", "Change status").is_none());
}

#[test]
fn case_is_ignored() {
    assert_eq!(score("CS", "change status").unwrap().positions, [0, 7]);
}

#[test]
fn word_starts_beat_letters_inside_words() {
    let initials = score("cs", "Change status").unwrap();
    assert_eq!(initials.positions, [0, 7]);
    let inside = score("cs", "Discuss").unwrap();
    assert!(initials.score > inside.score);
}

#[test]
fn a_contiguous_run_beats_scattered_letters() {
    let run = score("stat", "Change status").unwrap();
    let scattered = score("stat", "Set the assignee today").unwrap();
    assert!(run.score > scattered.score);
}

#[test]
fn positions_count_characters_not_bytes() {
    let m = score("課題", "日本語の課題").unwrap();
    assert_eq!(m.positions, [4, 5]);
}

#[test]
fn an_empty_query_matches_everything() {
    assert_eq!(score("", "anything").unwrap().score, 0);
}

#[test]
fn a_letter_whose_lowercase_is_two_characters_matches_itself() {
    let m = score("\u{130}", "\u{130}stanbul").unwrap();
    assert_eq!(m.positions, [0]);
    assert!(score("\u{130}S", "\u{130}stanbul").is_some());
    assert!(score("xy", "xy").is_some());
}

#[test]
fn a_plain_letter_finds_one_whose_lowercase_begins_with_it() {
    assert_eq!(score("i", "\u{130}stanbul").unwrap().positions, [0]);
    assert_eq!(score("is", "\u{130}stanbul").unwrap().positions, [0, 1]);
    assert!(score("\u{130}", "istanbul").is_none());
}
