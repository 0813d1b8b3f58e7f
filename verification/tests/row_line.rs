use linear_tui::entity::{Issue, IssueRef, Label, Priority, Project, StateType, User, WorkflowState};
use linear_tui::look::{Color, Role};
use linear_tui::markdown::Span;
use linear_tui::row::{issue_line, Columns, RowState};

fn text(line: &[Span]) -> String {
    line.iter().map(|s| s.content.as_str()).collect()
}

fn issue() -> Issue {
    Issue {
        id: "i7".into(),
        identifier: "ENG-7".into(),
        title: "Fix the header".into(),
        priority: Priority::High,
        priority_label: None,
        state: Some(WorkflowState {
            id: "s".into(),
            name: "In Progress".into(),
            color: None,
            state_type: Some(StateType::Started),
            position: None,
        }),
        assignee: Some(User { id: "u".into(), name: "ada".into(), email: None, display_name: None }),
        labels: Some(vec![
            Label { id: "l1".into(), name: "Bug".into(), color: None },
            Label { id: "l2".into(), name: "Frontend".into(), color: None },
            Label { id: "l3".into(), name: "Docs".into(), color: None },
        ]),
        description: None,
        created_at: Some("2026-03-05T10:00:00.000Z".into()),
        updated_at: None,
        comments: None,
        project: Some(Project {
            id: "p".into(),
            name: "Web".into(),
            state: None,
            color: None,
            health: None,
            description: None,
            start_date: None,
            target_date: None,
            lead: None,
            url: None,
        }),
        project_milestone: None,
        cycle: None,
        creator: None,
        estimate: Some("3".into()),
        due_date: None,
        parent: None,
        children: None,
        url: None,
        branch_name: None,
        team: None,
    }
}

const ALL: Columns = Columns { project: true, assignee: true };

#[test]
fn a_wide_row_carries_every_column() {
    let line = issue_line(&issue(), RowState { depth: 0, selected: false }, 6, 120, ALL);
    let right = "\u{25cf} Bug \u{25cf} Frontend +1 \u{25a3} Web  3 a  Mar 5 ";
    assert_eq!(
        text(&line),
        format!(" \u{2587}  ENG-7   \u{25d0} Fix the header{}{right}", " ".repeat(54))
    );
}

#[test]
fn a_narrow_selected_sub_issue_points_to_its_parent() {
    let mut sub = issue();
    sub.parent = Some(IssueRef { id: "i1".into(), identifier: "ENG-1".into(), title: "Epic".into(), state: None });
    let line = issue_line(&sub, RowState { depth: 0, selected: true }, 6, 50, ALL);
    assert_eq!(
        text(&line),
        format!("\u{258c}\u{2587}  ENG-7   \u{25d0} Fix the header \u{2190} ENG-1{}a ", " ".repeat(12))
    );
    assert!(line.iter().all(|s| s.style.bg == Some(Color::Themed(Role::Selection))));
    assert!(line.iter().any(|s| s.content == "Fix the header" && s.style.bold));
}

#[test]
fn a_nested_row_hangs_under_its_parent_and_a_long_title_is_cut() {
    let mut sub = issue();
    sub.title = "A title far too long for the little room this row has".into();
    let line = issue_line(&sub, RowState { depth: 2, selected: false }, 6, 50, ALL);
    let t = text(&line);
    assert!(t.starts_with("   \u{2570} \u{2587}"), "{t}");
    assert_eq!(t.chars().count(), 50, "{t}");
    assert!(t.contains('\u{2026}'), "{t}");
}
