use linear_tui::detail::section_rule;

#[test]
fn a_section_heading_runs_a_rule_to_the_edge() {
    let line = section_rule("Activity", "3 comments", 30);
    let texts: Vec<&str> = line.iter().map(|s| s.content.as_str()).collect();
    assert_eq!(texts[..3], ["Activity ", " 3 comments", " "]);
    assert_eq!(texts[3], "\u{2500}".repeat(30 - 9 - 11 - 1));
    assert!(line[0].style.bold);
    let bare = section_rule("Sub-issues", "", 13);
    assert_eq!(bare[1].content, "");
    assert_eq!(bare[3].content, "\u{2500}");
    let narrow = section_rule("Activity", "", 4);
    assert_eq!(narrow[3].content, "");
}

#[test]
fn panel_headings_and_rows_line_up() {
    let h = linear_tui::detail::heading("Labels");
    assert_eq!(h.len(), 1);
    assert_eq!(h[0].content, " Labels");
    assert!(h[0].style.bold);
    let value = linear_tui::detail::heading("x");
    let row = linear_tui::detail::prop("ID", value.clone());
    assert_eq!(row[0].content, " ID       ");
    assert_eq!(row[1..], value[..]);
    let long = linear_tui::detail::prop("Estimated", Vec::new());
    assert_eq!(long[0].content, " Estimated");
    let longer = linear_tui::detail::prop("Milestones", Vec::new());
    assert_eq!(longer[0].content, " Milestones");
}
