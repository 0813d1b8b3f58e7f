use linear_tui::entity::{Issue, Label, Priority, Project, StateType, User, WorkflowState};
use linear_tui::markdown::Span;
use linear_tui::panel::panel_lines;
use linear_tui::widgets::{format_date, short_date, truncate};

fn text(line: &[Span]) -> String {
    line.iter().map(|s| s.content.as_str()).collect()
}

fn issue() -> Issue {
    Issue {
        id: "i1".into(),
        identifier: "ENG-7".into(),
        title: "Fix the header".into(),
        priority: Priority::High,
        priority_label: None,
        state: Some(WorkflowState {
            id: "s".into(),
            name: "In Progress".into(),
            color: None,
            state_type: Some(StateType::Started),
            position: None,
        }),
        assignee: Some(User { id: "u".into(), name: "ada".into(), email: None, display_name: None }),
        labels: Some(vec![
            Label { id: "l1".into(), name: "Bug".into(), color: None },
            Label { id: "l2".into(), name: "Frontend".into(), color: Some("#ff0000".into()) },
        ]),
        description: None,
        created_at: Some("2026-03-05T10:00:00.000Z".into()),
        updated_at: None,
        comments: None,
        project: Some(Project {
            id: "p".into(),
            name: "A very long project name indeed".into(),
            state: None,
            color: None,
            health: None,
            description: None,
            start_date: None,
            target_date: None,
            lead: None,
            url: None,
        }),
        project_milestone: None,
        cycle: None,
        creator: None,
        estimate: Some("3".into()),
        due_date: Some("2026-04-01".into()),
        parent: None,
        children: None,
        url: None,
        branch_name: Some("ada/eng-7-fix-the-header".into()),
        team: None,
    }
}

#[test]
fn the_panel_lists_the_properties_in_order() {
    let mut lines: Vec<String> = panel_lines(&issue(), 20, 0).iter().map(|l| text(l)).collect();
    assert!(lines[16].starts_with(" Mar 5, 2026 \u{00b7} "), "{}", lines[16]);
    lines[16] = "@created".to_string();
    assert_eq!(
        lines,
        [
            "",
            " Properties",
            " \u{25d0} In Progress",
            " \u{2587} High",
            " a ada",
            " \u{25c7} 3 pts",
            " \u{2691} Due Apr 1",
            "",
            " Labels",
            " \u{25cf} Bug \u{25cf} Frontend ",
            "",
            " Project",
            " \u{25a3} A very long pro\u{2026}",
            "",
            " Created by",
            " Unknown",
            "@created",
            "",
            " Updated  ",
            " ID       ENG-7",
            "",
            " Branch",
            " ada/eng-7-fix-the\u{2026}",
        ]
    );
}

#[test]
fn chips_share_a_row_while_they_fit() {
    let lines: Vec<String> = panel_lines(&issue(), 12, 0).iter().map(|l| text(l)).collect();
    assert!(lines.contains(&" \u{25cf} Bug ".to_string()), "{lines:?}");
    assert!(lines.contains(&" \u{25cf} Frontend ".to_string()), "{lines:?}");
}

#[test]
fn widgets_cut_and_date() {
    assert_eq!(truncate("abcdef", 4), "abc\u{2026}");
    assert_eq!(truncate("abc", 3), "abc");
    assert_eq!(truncate("abc", 0), "");
    assert_eq!(short_date(&Some("2026-12-09T00:00:00Z".into())), "Dec 9");
    assert_eq!(format_date(&Some("2026-12-09".into())), "Dec 9, 2026");
    assert_eq!(short_date(&Some("soon".into())), "");
}
