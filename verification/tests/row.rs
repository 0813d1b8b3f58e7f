use linear_tui::row::{visible_columns, Columns, Visible};

#[test]
fn columns_drop_out_from_the_right_as_the_pane_narrows() {
    let all = Columns { project: true, assignee: true };
    assert_eq!(
        visible_columns(120, all),
        Visible { labels: true, project: true, estimate: true, date: true, assignee: true }
    );
    assert_eq!(
        visible_columns(100, all),
        Visible { labels: false, project: true, estimate: true, date: true, assignee: true }
    );
    assert_eq!(
        visible_columns(85, all),
        Visible { labels: false, project: false, estimate: true, date: true, assignee: true }
    );
    assert_eq!(
        visible_columns(70, all),
        Visible { labels: false, project: false, estimate: false, date: true, assignee: true }
    );
    assert_eq!(
        visible_columns(50, all),
        Visible { labels: false, project: false, estimate: false, date: false, assignee: true }
    );
    assert_eq!(
        visible_columns(43, all),
        Visible { labels: false, project: false, estimate: false, date: false, assignee: false }
    );
    let mine = Columns { project: true, assignee: false };
    assert!(!visible_columns(200, mine).assignee);
}

#[test]
fn a_group_header_fills_its_row() {
    let line = linear_tui::row::group_line(
        "In Progress",
        linear_tui::look::Color::Yellow,
        "\u{25d0}",
        3,
        false,
        30,
    );
    let texts: Vec<&str> = line.iter().map(|s| s.content.as_str()).collect();
    assert_eq!(texts[..4], [" \u{25be} ", "\u{25d0} ", "In Progress", "  3"]);
    assert_eq!(texts[4], " ".repeat(30 - (3 + 2 + 11 + 3)));
    assert!(line[2].style.bold);
    assert!(line.iter().all(|s| s.style.bg
        == Some(linear_tui::look::Color::Themed(linear_tui::look::Role::Surface))));
    let folded = linear_tui::row::group_line("Done", linear_tui::look::Color::Green, "\u{25cf}", 12, true, 5);
    assert_eq!(folded[0].content, " \u{25b8} ");
    assert_eq!(folded[4].content, "");
}
