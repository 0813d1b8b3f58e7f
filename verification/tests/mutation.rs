use linear_tui::entity::Priority;
use linear_tui::mutation::{create_input, update_input, Changes, Draft, Field};

#[test]
fn a_draft_sends_only_what_it_sets() {
    let draft = Draft {
        title: "T".into(),
        estimate: Some(2),
        ..Draft::default()
    };
    let input = create_input("t", &draft);
    assert_eq!(
        input,
        vec![
            ("teamId", Field::Text("t".into())),
            ("title", Field::Text("T".into())),
            ("priority", Field::Number(0)),
            ("estimate", Field::Number(2)),
        ]
    );
}

#[test]
fn an_update_sends_only_what_it_changes_and_nulls_what_it_empties() {
    let changes = Changes {
        title: Some("New".into()),
        priority: Some(Priority::Low),
        project_id: Some(None),
        added_label_ids: vec!["l1".into()],
        ..Changes::default()
    };
    let input = update_input(&changes);
    assert_eq!(
        input,
        vec![
            ("title", Field::Text("New".into())),
            ("priority", Field::Number(4)),
            ("addedLabelIds", Field::Texts(vec!["l1".into()])),
            ("projectId", Field::Null),
        ]
    );
    assert!(update_input(&Changes::default()).is_empty());
}

#[test]
fn a_full_draft_sends_every_field() {
    let draft = Draft {
        title: "T".into(),
        description: Some("d".into()),
        priority: Priority::High,
        assignee_id: Some("u".into()),
        estimate: None,
        label_ids: vec!["a".into(), "b".into()],
        project_id: Some("p".into()),
        cycle_id: Some("c".into()),
        parent_id: Some("i".into()),
    };
    let names: Vec<&str> = create_input("t", &draft).iter().map(|(n, _)| *n).collect();
    assert_eq!(
        names,
        ["teamId", "title", "priority", "description", "assigneeId", "labelIds", "projectId", "cycleId", "parentId"]
    );
    let changes = Changes {
        assignee_id: Some(Some("u".into())),
        estimate: Some(None),
        removed_label_ids: vec!["x".into()],
        ..Changes::default()
    };
    assert_eq!(
        update_input(&changes),
        vec![
            ("assigneeId", Field::Text("u".into())),
            ("estimate", Field::Null),
            ("removedLabelIds", Field::Texts(vec!["x".into()])),
        ]
    );
}
