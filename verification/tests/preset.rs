use linear_tui::entity::{CategoryClause, Issue, Preset, Priority, StateType, WorkflowState};

fn in_state(kind: &str) -> Issue {
    Issue {
        id: "1".into(),
        identifier: "X-1".into(),
        title: "t".into(),
        priority: Priority::Unset,
        priority_label: None,
        state: Some(WorkflowState {
            id: "s".into(),
            name: kind.into(),
            color: None,
            state_type: Some(StateType::from_name(kind)),
            position: Some(1000),
        }),
        assignee: None,
        labels: None,
        description: None,
        created_at: None,
        updated_at: None,
        comments: None,
        project: None,
        project_milestone: None,
        cycle: None,
        creator: None,
        due_date: None,
        parent: None,
        children: None,
        url: None,
        branch_name: None,
        estimate: None,
        team: None,
    }
}

#[test]
fn preset_active_admits_started_and_unstarted_only() {
    assert!(Preset::Active.admits(&in_state("started")));
    assert!(Preset::Active.admits(&in_state("unstarted")));
    assert!(!Preset::Active.admits(&in_state("completed")));
    assert!(!Preset::Active.admits(&in_state("backlog")));
}

#[test]
fn preset_backlog_admits_backlog_and_triage() {
    assert!(Preset::Backlog.admits(&in_state("backlog")));
    assert!(Preset::Backlog.admits(&in_state("triage")));
    assert!(!Preset::Backlog.admits(&in_state("started")));
}

/// A category added to Linear after this client shipped must not make
/// issues disappear from the default view.
#[test]
fn preset_an_unknown_category_stays_visible_under_active() {
    let odd = in_state("inventedIn2027");
    assert!(Preset::Active.admits(&odd));
    assert!(Preset::All.admits(&odd));
}

#[test]
fn preset_only_all_is_unfiltered_on_the_server() {
    assert!(Preset::All.state_filter().is_none());
    assert!(Preset::Active.state_filter().is_some());
    assert!(Preset::Backlog.state_filter().is_some());
}

#[test]
fn preset_an_issue_without_a_state_stays_visible_under_active() {
    let mut issue = in_state("started");
    issue.state = None;
    assert!(Preset::Active.admits(&issue));
}

#[test]
fn the_server_clauses_name_the_categories() {
    assert_eq!(
        Preset::Active.state_filter(),
        Some(CategoryClause::NotIn(vec![
            "backlog", "triage", "completed", "canceled", "duplicate"
        ]))
    );
    assert_eq!(
        Preset::Backlog.state_filter(),
        Some(CategoryClause::In(vec!["backlog", "triage"]))
    );
    assert_eq!(Preset::all(), [Preset::Active, Preset::Backlog, Preset::All]);
    assert_eq!(Preset::All.label(), "All issues");
}
