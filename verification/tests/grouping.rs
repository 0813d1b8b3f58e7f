use linear_tui::entity::{
    Issue, IssueRef, Preset, Priority, Project, StateType, User, WorkflowState,
};
use linear_tui::grouping::{group, GroupBy};
use linear_tui::look::{Color, Role};

fn base(id: &str, identifier: &str) -> Issue {
    Issue {
        id: id.into(),
        identifier: identifier.into(),
        title: "t".into(),
        priority: Priority::Unset,
        priority_label: None,
        state: None,
        assignee: None,
        labels: None,
        description: None,
        created_at: None,
        updated_at: None,
        comments: None,
        project: None,
        project_milestone: None,
        cycle: None,
        creator: None,
        due_date: None,
        parent: None,
        children: None,
        url: None,
        branch_name: None,
        estimate: None,
        team: None,
    }
}

fn state(state_id: &str, name: &str, kind: &str, position: i64) -> WorkflowState {
    WorkflowState {
        id: state_id.into(),
        name: name.into(),
        color: None,
        state_type: Some(StateType::from_name(kind)),
        position: Some(position),
    }
}

/// An issue in a state; `position` is the state's place in thousandths.
fn with_state(id: &str, state_id: &str, name: &str, kind: &str, position: i64) -> Issue {
    let mut issue = base(id, &format!("X-{id}"));
    issue.state = Some(state(state_id, name, kind, position));
    issue
}

fn assigned(id: &str, user_id: &str, name: &str) -> Issue {
    let mut issue = base(id, &format!("X-{id}"));
    issue.assignee = Some(User {
        id: user_id.into(),
        name: name.into(),
        email: None,
        display_name: None,
    });
    issue
}

fn child(id: &str, parent: &str) -> Issue {
    let mut issue = base(id, &format!("X-{id}"));
    issue.parent = Some(IssueRef {
        id: parent.into(),
        identifier: format!("X-{parent}"),
        title: "p".into(),
        state: None,
    });
    issue
}

fn project(id: &str, name: &str) -> Project {
    Project {
        id: id.into(),
        name: name.into(),
        state: None,
        color: None,
        health: None,
        description: None,
        start_date: None,
        target_date: None,
        lead: None,
        url: None,
    }
}

fn labels(issues: &[Issue], by: GroupBy) -> Vec<String> {
    group(issues, by, &[]).into_iter().map(|s| s.label).collect()
}

#[test]
fn status_groups_follow_the_workflow_order() {
    let issues = vec![
        with_state("1", "s-done", "Done", "completed", 3000),
        with_state("2", "s-prog", "In Progress", "started", 1000),
        with_state("3", "s-todo", "Todo", "unstarted", 2000),
    ];
    assert_eq!(labels(&issues, GroupBy::Status), ["In Progress", "Todo", "Done"]);
}

/// Two states in the same category order by workflow position — the one
/// further along first, as Linear lists them — not by whichever issue the
/// API happened to return first.
#[test]
fn states_in_one_category_list_the_furthest_along_first() {
    let issues = vec![
        with_state("1", "s-a", "In Progress", "started", 1000),
        with_state("2", "s-b", "In Review", "started", 2000),
    ];
    assert_eq!(labels(&issues, GroupBy::Status), ["In Review", "In Progress"]);
}

#[test]
fn an_issue_without_a_state_lands_in_its_own_last_group() {
    let issues = vec![base("1", "X-1"), with_state("2", "s", "Todo", "unstarted", 1000)];
    let sections = group(&issues, GroupBy::Status, &[]);
    assert_eq!(sections.last().unwrap().label, "No status");
}

#[test]
fn collapsing_marks_the_section_without_dropping_it() {
    let issues = vec![with_state("1", "s", "Todo", "unstarted", 1000)];
    let collapsed = ["status:s".to_string()];
    let sections = group(&issues, GroupBy::Status, &collapsed);
    assert_eq!(sections.len(), 1);
    assert!(sections[0].collapsed);
    assert_eq!(sections[0].issues.len(), 1, "the count still reads right");
}

#[test]
fn grouping_by_none_yields_a_single_unlabelled_section() {
    let issues = vec![
        with_state("1", "a", "Todo", "unstarted", 1000),
        with_state("2", "b", "Done", "completed", 2000),
    ];
    let sections = group(&issues, GroupBy::Ungrouped, &[]);
    assert_eq!(sections.len(), 1);
    assert_eq!(sections[0].issues.len(), 2);
    assert_eq!(sections[0].label, "");
}

#[test]
fn priority_groups_run_urgent_to_none() {
    let mut low = base("1", "X-1");
    low.priority = Priority::Low;
    let mut urgent = base("2", "X-2");
    urgent.priority = Priority::Urgent;
    let none = base("3", "X-3");
    let issues = vec![low, urgent, none];
    assert_eq!(labels(&issues, GroupBy::Priority), ["Urgent", "Low", "None"]);
}

#[test]
fn a_sub_issue_sits_under_its_parent() {
    let parent = with_state("p", "s", "Todo", "unstarted", 1000);
    let other = with_state("o", "s", "Todo", "unstarted", 1000);
    let mut child = child("c", "p");
    child.state = Some(state("s", "Todo", "unstarted", 1000));
    // The child arrives last, as a newer update time would put it.
    let issues = vec![parent, other, child];
    let sections = group(&issues, GroupBy::Status, &[]);
    let order: Vec<(&str, u8)> = sections[0]
        .issues
        .iter()
        .map(|&(i, depth)| (issues[i].id.as_str(), depth))
        .collect();
    assert_eq!(order, [("p", 0), ("c", 1), ("o", 0)]);
}

#[test]
fn grouping_active_admits_started_and_unstarted_only() {
    assert!(Preset::Active.admits(&with_state("1", "s", "Doing", "started", 1000)));
    assert!(Preset::Active.admits(&with_state("2", "s", "Todo", "unstarted", 1000)));
    assert!(!Preset::Active.admits(&with_state("3", "s", "Done", "completed", 1000)));
    assert!(!Preset::Active.admits(&with_state("4", "s", "Later", "backlog", 1000)));
}

#[test]
fn grouping_backlog_admits_backlog_and_triage() {
    assert!(Preset::Backlog.admits(&with_state("1", "s", "Backlog", "backlog", 1000)));
    assert!(Preset::Backlog.admits(&with_state("2", "s", "Triage", "triage", 1000)));
    assert!(!Preset::Backlog.admits(&with_state("3", "s", "Doing", "started", 1000)));
}

/// A category added to Linear after this client shipped must not make
/// issues disappear from the default view.
#[test]
fn grouping_an_unknown_category_stays_visible_under_active() {
    let odd = with_state("1", "s", "Something", "inventedIn2027", 1000);
    assert!(Preset::Active.admits(&odd));
    assert!(Preset::All.admits(&odd));
}

#[test]
fn grouping_only_all_is_unfiltered_on_the_server() {
    assert!(Preset::All.state_filter().is_none());
    assert!(Preset::Active.state_filter().is_some());
    assert!(Preset::Backlog.state_filter().is_some());
}

#[test]
fn grouping_an_issue_without_a_state_stays_visible_under_active() {
    assert!(Preset::Active.admits(&base("1", "X-1")));
}

/// Regression: assignee groups were keyed by display name, so two people
/// who share one were merged into a single group.
#[test]
fn namesakes_get_a_group_each() {
    let issues = [
        assigned("1", "u1", "Alex"),
        assigned("2", "u2", "Alex"),
        assigned("3", "u1", "Alex"),
    ];
    let sections = group(&issues, GroupBy::Assignee, &[]);
    assert_eq!(sections.len(), 2);
    assert_eq!(sections.iter().map(|s| s.issues.len()).sum::<usize>(), 3);
    assert!(sections.iter().all(|s| s.label == "Alex"));
}

#[test]
fn a_folded_assignee_group_is_remembered_by_user() {
    let issues = [assigned("1", "u1", "Alex")];
    let collapsed = ["assignee:u1".to_string()];
    let sections = group(&issues, GroupBy::Assignee, &collapsed);
    assert!(sections[0].collapsed);
}

#[test]
fn a_grandchild_is_kept_and_indented() {
    let issues = [child("3", "2"), base("1", "X-1"), child("2", "1")];
    let sections = group(&issues, GroupBy::Ungrouped, &[]);
    let rows: Vec<(&str, u8)> = sections[0]
        .issues
        .iter()
        .map(|&(i, depth)| (issues[i].id.as_str(), depth))
        .collect();
    assert_eq!(rows, [("1", 0), ("2", 1), ("3", 1)]);
}

#[test]
fn issues_group_by_project_with_the_projectless_last() {
    let mut in_project = base("1", "X-1");
    in_project.project = Some(project("p1", "Launch"));
    let issues = [base("2", "X-2"), in_project];
    assert_eq!(labels(&issues, GroupBy::Project), ["Launch", "No project"]);
}

#[test]
fn sections_are_keyed_headed_and_coloured() {
    let mut urgent = base("1", "X-1");
    urgent.priority = Priority::Urgent;
    let mut coloured = with_state("2", "s2", "Review", "started", 5000);
    coloured.state.as_mut().unwrap().color = Some("#ff8000".into());
    let by_priority = group(&[urgent], GroupBy::Priority, &[]);
    assert_eq!(by_priority[0].key, "priority:1");
    assert_eq!(by_priority[0].glyph, "!");
    assert_eq!(by_priority[0].color, Color::Themed(Role::PriUrgent));
    let by_status = group(&[coloured], GroupBy::Status, &[]);
    assert_eq!(by_status[0].key, "status:s2");
    assert_eq!(by_status[0].color, Color::Rgb(255, 128, 0));
    assert_eq!(by_status[0].glyph, "\u{25d0}");
    let unassigned = group(&[base("3", "X-3")], GroupBy::Assignee, &[]);
    assert_eq!(unassigned[0].key, "assignee:none");
    assert_eq!(unassigned[0].label, "Unassigned");
    assert_eq!(unassigned[0].glyph, "\u{25c7}");
}

#[test]
fn every_issue_lands_in_exactly_one_section() {
    let issues = vec![
        with_state("1", "a", "Todo", "unstarted", 1000),
        child("2", "1"),
        with_state("3", "b", "Done", "completed", 2000),
        child("4", "9"),
        with_state("5", "a", "Todo", "unstarted", 1000),
    ];
    let sections = group(&issues, GroupBy::Status, &[]);
    let mut seen: Vec<usize> = sections
        .iter()
        .flat_map(|s| s.issues.iter().map(|&(i, _)| i))
        .collect();
    seen.sort();
    assert_eq!(seen, [0, 1, 2, 3, 4]);
}

#[test]
fn the_grouping_toggle_walks_every_grouping() {
    let mut by = GroupBy::Status;
    let mut seen = vec![by];
    for _ in 0..4 {
        by = by.next();
        seen.push(by);
    }
    assert_eq!(seen, GroupBy::all());
    assert_eq!(by.next(), GroupBy::Status);
    assert_eq!(GroupBy::Ungrouped.label(), "None");
}

#[test]
fn assignee_groups_sort_by_name_ignoring_case() {
    let issues = vec![assigned("1", "u-zed", "Zed"), assigned("2", "u-amy", "amy")];
    assert_eq!(labels(&issues, GroupBy::Assignee), ["amy", "Zed"]);
}
