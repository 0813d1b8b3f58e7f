use linear_tui::entity::{Issue, Preset, Priority};
use linear_tui::grouping::GroupBy;
use linear_tui::list::{issue_list_frame, ListRow};
use linear_tui::look::{Color, Role};

fn issue(id: &str) -> Issue {
    Issue {
        id: id.to_lowercase(),
        identifier: id.into(),
        title: format!("Title of {id}"),
        priority: Priority::Unset,
        priority_label: None,
        state: None,
        assignee: None,
        labels: None,
        description: None,
        created_at: None,
        updated_at: None,
        comments: None,
        project: None,
        project_milestone: None,
        cycle: None,
        creator: None,
        estimate: None,
        due_date: None,
        parent: None,
        children: None,
        url: None,
        branch_name: None,
        team: None,
    }
}

fn group() -> ListRow {
    ListRow::Group { label: "Todo".into(), color: Color::Themed(Role::Text), glyph: "o".into(), count: 2, collapsed: false }
}

fn text(line: &[linear_tui::markdown::Span]) -> String {
    line.iter().map(|s| s.content.as_str()).collect()
}

#[test]
fn the_cursor_row_is_scrolled_into_view() {
    let rows = vec![group(), ListRow::Issue { ordinal: 0, depth: 0 }, ListRow::Issue { ordinal: 1, depth: 0 }];
    let issues = vec![issue("ENG-1"), issue("ENG-2")];
    let f = issue_list_frame(&rows, &issues, 1, 0, 2, 60, false, GroupBy::Status, false, "", false, Preset::Active);
    assert_eq!((f.offset, f.count, f.lines.len()), (1, 2, 2));
    assert!(text(&f.lines[0]).contains("ENG-1"));
    assert!(text(&f.lines[1]).starts_with('\u{258c}'), "{}", text(&f.lines[1]));
    assert!(f.message.is_none());
}

#[test]
fn the_first_issue_of_a_group_keeps_its_header_in_view() {
    let rows = vec![group(), ListRow::Issue { ordinal: 0, depth: 0 }, group(), ListRow::Issue { ordinal: 1, depth: 0 }];
    let issues = vec![issue("ENG-1"), issue("ENG-2")];
    let f = issue_list_frame(&rows, &issues, 0, 3, 2, 60, false, GroupBy::Status, false, "", false, Preset::All);
    assert_eq!(f.offset, 0);
    assert!(text(&f.lines[0]).contains("Todo"));
}

#[test]
fn an_empty_list_says_why() {
    let m = |loading, filtered, preset| {
        issue_list_frame(&[], &[], 0, 0, 5, 60, false, GroupBy::Status, loading, "*", filtered, preset).message.unwrap()
    };
    assert_eq!(m(true, false, Preset::All), "* Loading issues\u{2026}");
    assert_eq!(m(false, true, Preset::All), "No issues match the current filter");
    assert_eq!(m(false, false, Preset::Backlog), "No backlog issues \u{2014} Shift+Tab or g e shows all issues");
    assert_eq!(m(false, false, Preset::All), "No issues");
}
