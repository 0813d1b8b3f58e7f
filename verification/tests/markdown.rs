use linear_tui::look::{Color, Role};
use linear_tui::markdown::{plain, render, wrap, Span, Style};
use unicode_width::UnicodeWidthStr;

fn text(line: &[Span]) -> String {
    line.iter().map(|s| s.content.as_str()).collect()
}

fn plain_lines(lines: &[Vec<Span>]) -> Vec<String> {
    lines.iter().map(|l| text(l)).collect()
}

#[test]
fn emphasis_markers_are_removed() {
    let lines = render("a **bold** and `code` and *it*", 80, &vec![]);
    assert_eq!(plain_lines(&lines), ["a bold and code and it"]);
    let bold = lines[0].iter().find(|s| s.content == "bold").unwrap();
    assert!(bold.style.bold);
}

#[test]
fn snake_case_is_not_italicised() {
    let lines = render("call my_func_name now", 80, &vec![]);
    assert_eq!(plain_lines(&lines), ["call my_func_name now"]);
}

#[test]
fn arithmetic_stars_survive() {
    let lines = render("5 * 3 = 15", 80, &vec![]);
    assert_eq!(plain_lines(&lines), ["5 * 3 = 15"]);
}

#[test]
fn links_keep_their_text_only() {
    let lines = render("see [the docs](https://x.y/z) now", 80, &vec![]);
    assert_eq!(plain_lines(&lines), ["see the docs now"]);
}

#[test]
fn images_become_a_placeholder() {
    let lines = render("![shot](https://x/y.png)", 80, &vec![]);
    assert_eq!(plain_lines(&lines), ["[image: shot]"]);
}

#[test]
fn a_nested_bullet_is_indented_by_display_width() {
    // One ideographic space: three bytes, two cells.
    let lines = render("\u{3000}- nested", 80, &vec![]);
    assert!(
        plain_lines(&lines)[0].starts_with("  \u{2022} "),
        "{:?}",
        plain_lines(&lines)
    );
}

#[test]
fn bullets_wrap_under_their_text() {
    let lines = render("- one two three four five", 12, &vec![]);
    let out = plain_lines(&lines);
    assert!(out.len() > 1);
    assert!(out[0].starts_with("\u{2022} "));
    assert!(out[1].starts_with("  "), "continuation is indented: {out:?}");
}

#[test]
fn japanese_wraps_by_display_width() {
    let lines = render("日本語のテキストを折り返す", 10, &vec![]);
    for line in &lines {
        assert!(text(line).width() <= 10, "{:?}", text(line));
    }
    assert_eq!(plain_lines(&lines).concat(), "日本語のテキストを折り返す");
}

#[test]
fn a_line_never_starts_with_a_full_stop() {
    // Ten cells hold exactly five characters, so "。" lands at a break.
    let lines = render("あいうえお。かき", 10, &vec![]);
    let out = plain_lines(&lines);
    assert_eq!(out, ["あいうえ", "お。かき"]);
}

#[test]
fn a_line_never_ends_with_an_opening_bracket() {
    let lines = render("あいうえ「かき」", 10, &vec![]);
    let out = plain_lines(&lines);
    assert!(out.iter().all(|l| !l.ends_with('\u{300c}')), "{out:?}");
    assert_eq!(out.concat(), "あいうえ「かき」");
}

#[test]
fn the_gutter_prefixes_every_wrapped_line() {
    let gutter = vec![Span { content: "| ".into(), style: plain() }];
    let lines = render("aaaa bbbb cccc dddd", 11, &gutter);
    assert!(lines.len() > 1);
    assert!(lines.iter().all(|l| text(l).starts_with("| ")));
}

#[test]
fn code_blocks_are_verbatim() {
    let lines = render("```rust\nlet **x** = 1;\n```", 40, &vec![]);
    let out = plain_lines(&lines);
    assert!(out.iter().any(|l| l.contains("let **x** = 1;")));
    assert!(out[0].contains("rust"));
}

#[test]
fn headings_drop_their_hashes() {
    let lines = render("## Heading", 40, &vec![]);
    assert_eq!(plain_lines(&lines), ["Heading"]);
}

#[test]
fn runs_of_blank_lines_collapse() {
    let lines = render("a\n\n\n\nb", 40, &vec![]);
    assert_eq!(plain_lines(&lines), ["a", "", "b"]);
}

#[test]
fn task_items_render_as_checkboxes() {
    let lines = render("- [ ] todo\n- [x] done", 40, &vec![]);
    assert_eq!(plain_lines(&lines), ["\u{2610} todo", "\u{2611} done"]);
}

#[test]
fn inline_runs_carry_their_style() {
    let base = Style { fg: Some(Color::Themed(Role::Text)), ..plain() };
    let runs = linear_tui::markdown::inline("x ~~gone~~ [l](u) `c`", base);
    let texts: Vec<&str> = runs.iter().map(|r| r.0.as_str()).collect();
    assert_eq!(texts, ["x ", "gone", " ", "l", " ", "c"]);
    assert!(runs[1].1.crossed_out);
    assert!(runs[3].1.underlined);
    assert_eq!(runs[3].1.fg, Some(Color::Themed(Role::Accent)));
    assert_eq!(runs[5].1.bg, Some(Color::Themed(Role::CodeBackground)));
}

#[test]
fn a_word_wider_than_the_line_is_split() {
    let lines = wrap(vec![("abcdefghij".into(), plain())], 4, vec![], vec![]);
    assert_eq!(plain_lines(&lines), ["abcd", "efgh", "ij"]);
}

#[test]
fn quotes_rules_and_numbered_items() {
    let lines = render("> said\n---\n12) twelve", 10, &vec![]);
    let out = plain_lines(&lines);
    assert_eq!(out[0], "\u{258e} said");
    assert_eq!(out[1], "\u{2500}".repeat(10));
    assert_eq!(out[2], "12. twelve");
    assert!(render("", 10, &vec![]).is_empty());
}

#[test]
fn every_line_starts_with_the_gutter() {
    let gutter = vec![Span { content: "| ".into(), style: plain() }];
    let lines = render("# Title\n\n- one\n- two\n\n```rust\nlet x = 1;\n```\n\n> quoted text\n", 16, &gutter);
    assert!(!lines.is_empty());
    for line in &lines {
        assert_eq!(line[0], gutter[0]);
    }
}
