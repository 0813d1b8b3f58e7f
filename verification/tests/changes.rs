use linear_tui::changes::{describe_changes, update_report, Change, Edit, Value};
use linear_tui::entity::{Cycle, Issue, IssueRef, Label, Priority, Project, User};

fn label(id: &str, name: &str) -> Label {
    Label {
        id: id.to_string(),
        name: name.to_string(),
        color: None,
    }
}

fn ada() -> User {
    User {
        id: "u2".to_string(),
        name: "ada".to_string(),
        email: Some("ada@example.com".to_string()),
        display_name: None,
    }
}

fn issue() -> Issue {
    Issue {
        id: "i7".to_string(),
        identifier: "WEB-7".to_string(),
        title: "Fix the header".to_string(),
        priority: Priority::High,
        priority_label: None,
        state: None,
        assignee: None,
        labels: Some(vec![label("l-ui", "UI")]),
        description: Some("Old text".to_string()),
        created_at: None,
        updated_at: None,
        comments: None,
        project: None,
        project_milestone: None,
        cycle: None,
        creator: None,
        estimate: Some("3".to_string()),
        due_date: None,
        parent: None,
        children: None,
        url: None,
        branch_name: None,
        team: None,
    }
}

fn project(name: &str) -> Project {
    Project {
        id: "p1".to_string(),
        name: name.to_string(),
        state: None,
        color: None,
        health: None,
        description: None,
        start_date: None,
        target_date: None,
        lead: None,
        url: None,
    }
}

fn lines(changes: &[Change]) -> Vec<String> {
    changes.iter().map(|c| c.line()).collect()
}

#[test]
fn an_update_says_what_changed_field_by_field() {
    let edit = Edit {
        priority: Some(Priority::Low),
        assignee: Some(Some(ada())),
        add_labels: vec![label("l-bug", "Bug")],
        remove_labels: vec![label("l-ui", "UI")],
        ..Edit::default()
    };
    let changes = describe_changes(&issue(), &edit);
    assert_eq!(
        update_report("WEB-7", &changes),
        "WEB-7: priority High \u{2192} Low\nWEB-7: assignee \u{2014} \u{2192} ada\nWEB-7: labels UI \u{2192} Bug"
    );
}

#[test]
fn the_fields_come_in_the_order_issue_show_lists_them() {
    let edit = Edit {
        title: Some("Fix the footer".to_string()),
        description: Some("New text".to_string()),
        priority: Some(Priority::Urgent),
        estimate: Some(Some(5)),
        project: Some(Some(project("Web"))),
        cycle: Some(Some(Cycle {
            id: "c4".to_string(),
            name: None,
            number: Some(4),
            starts_at: None,
            ends_at: None,
        })),
        parent: Some(Some(IssueRef {
            id: "i1".to_string(),
            identifier: "WEB-1".to_string(),
            title: "Epic".to_string(),
            state: None,
        })),
        ..Edit::default()
    };
    let changes = describe_changes(&issue(), &edit);
    let fields: Vec<&str> = changes.iter().map(|c| c.field).collect();
    assert_eq!(
        fields,
        ["title", "priority", "project", "cycle", "estimate", "parent", "description"]
    );
    assert_eq!(
        lines(&changes),
        [
            "title Fix the header \u{2192} Fix the footer",
            "priority High \u{2192} Urgent",
            "project \u{2014} \u{2192} Web",
            "cycle \u{2014} \u{2192} Cycle 4",
            "estimate 3.0 \u{2192} 5",
            "parent \u{2014} \u{2192} WEB-1",
            "description rewritten",
        ]
    );
    assert_eq!(changes[6].from, Value::Text("Old text".to_string()));
    assert_eq!(changes[6].to, Value::Text("New text".to_string()));
}

#[test]
fn emptying_a_field_shows_a_dash() {
    let mut before = issue();
    before.estimate = Some("0.5".to_string());
    before.assignee = Some(ada());
    let edit = Edit {
        assignee: Some(None),
        estimate: Some(None),
        ..Edit::default()
    };
    let changes = describe_changes(&before, &edit);
    assert_eq!(
        lines(&changes),
        ["assignee ada \u{2192} \u{2014}", "estimate 0.5 \u{2192} \u{2014}"]
    );
    assert_eq!(changes[1].to, Value::Null);
}

#[test]
fn a_label_already_there_is_not_added_twice_and_removing_the_last_leaves_a_dash() {
    let edit = Edit {
        add_labels: vec![label("l-ui", "UI"), label("l-bug", "Bug"), label("l-bug", "Bug")],
        ..Edit::default()
    };
    let changes = describe_changes(&issue(), &edit);
    assert_eq!(
        changes[0].to,
        Value::Names(vec!["UI".to_string(), "Bug".to_string()])
    );
    let edit = Edit {
        remove_labels: vec![label("l-ui", "UI")],
        ..Edit::default()
    };
    let changes = describe_changes(&issue(), &edit);
    assert_eq!(lines(&changes), ["labels UI \u{2192} \u{2014}"]);
}

#[test]
fn an_edit_that_touches_nothing_reports_nothing() {
    let changes = describe_changes(&issue(), &Edit::default());
    assert!(changes.is_empty());
    assert_eq!(update_report("WEB-7", &changes), "");
}
