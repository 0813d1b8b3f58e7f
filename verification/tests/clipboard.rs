use linear_tui::clipboard::osc52;

#[test]
fn the_clipboard_sequence_carries_the_text_in_base64() {
    assert_eq!(osc52("hello"), "\x1b]52;c;aGVsbG8=\x07");
    assert_eq!(osc52(""), "\x1b]52;c;\x07");
    assert_eq!(osc52("a"), "\x1b]52;c;YQ==\x07");
    assert_eq!(osc52("ab"), "\x1b]52;c;YWI=\x07");
    assert_eq!(osc52("abc"), "\x1b]52;c;YWJj\x07");
    assert_eq!(osc52("é"), "\x1b]52;c;w6k=\x07");
    assert_eq!(osc52("ENG-42>?"), "\x1b]52;c;RU5HLTQyPj8=\x07");
}
