use linear_tui::entity::{
    Comment, Cycle, Issue, IssueRef, Label, Priority, Ref, StateType, User, WorkflowState,
};
use linear_tui::edits::{description_edit, pickable_comments, CommentAction, DescriptionEdit};
use linear_tui::grouping::{GroupBy, GroupByName};
use linear_tui::show::{render_issue, resolve_state, threaded, written_order_of};

fn state(id: &str, name: &str, t: StateType) -> WorkflowState {
    WorkflowState {
        id: id.to_string(),
        name: name.to_string(),
        color: None,
        state_type: Some(t),
        position: None,
    }
}

fn user(name: &str, display: Option<&str>) -> User {
    User {
        id: format!("u-{name}"),
        name: name.to_string(),
        email: None,
        display_name: display.map(str::to_string),
    }
}

fn comment(id: &str, at: Option<&str>, parent: Option<&str>, body: &str) -> Comment {
    Comment {
        id: id.to_string(),
        body: body.to_string(),
        created_at: at.map(str::to_string),
        edited_at: None,
        user: Some(user("Me", None)),
        parent: parent.map(|p| Ref { id: p.to_string() }),
    }
}

fn bare(identifier: &str, title: &str) -> Issue {
    Issue {
        id: "i1".to_string(),
        identifier: identifier.to_string(),
        title: title.to_string(),
        priority: Priority::Unset,
        priority_label: None,
        state: None,
        assignee: None,
        labels: None,
        description: None,
        created_at: None,
        updated_at: None,
        comments: None,
        project: None,
        project_milestone: None,
        cycle: None,
        creator: None,
        estimate: None,
        due_date: None,
        parent: None,
        children: None,
        url: None,
        branch_name: None,
        team: None,
    }
}

#[test]
fn a_state_is_found_by_name_in_any_case_or_the_choices_are_listed() {
    let states = vec![
        state("s1", "Todo", StateType::Unstarted),
        state("s2", "In Review", StateType::Started),
    ];
    assert_eq!(resolve_state(&states, "in review").unwrap().id, "s2");
    let err = resolve_state(&states, "Doing").unwrap_err();
    assert_eq!(
        err,
        "no state Doing in this issue's team (states: Todo, In Review)"
    );
}

#[test]
fn a_state_name_is_trimmed_and_the_first_match_wins() {
    let states = vec![
        state("s1", "Done", StateType::Completed),
        state("s2", "DONE", StateType::Completed),
    ];
    assert_eq!(resolve_state(&states, "  done ").unwrap().id, "s1");
    assert_eq!(
        resolve_state(&[], "x").unwrap_err(),
        "no state x in this issue's team (states: )"
    );
}

#[test]
fn a_bare_issue_says_it_has_no_description() {
    assert_eq!(
        render_issue(&bare("ENG-1", "Fix it")),
        "# ENG-1 Fix it\n\n\n## Description\n\n(none)\n"
    );
}

#[test]
fn the_markdown_lists_each_field_that_has_a_value() {
    let mut issue = bare("ENG-157", "Merge the dashboard and the report");
    issue.state = Some(state("s", "In Progress", StateType::Started));
    issue.priority = Priority::High;
    issue.assignee = Some(user("Ada Lovelace", Some("ada")));
    issue.creator = Some(user("Grace", None));
    issue.labels = Some(vec![
        Label { id: "l1".into(), name: "Bug".into(), color: None },
        Label { id: "l2".into(), name: "UI".into(), color: None },
    ]);
    issue.cycle = Some(Cycle {
        id: "c".into(),
        name: None,
        number: Some(12),
        starts_at: None,
        ends_at: None,
    });
    issue.estimate = Some("3".into());
    issue.due_date = Some(String::new());
    issue.parent = Some(IssueRef {
        id: "p".into(),
        identifier: "ENG-1".into(),
        title: "Parent".into(),
        state: None,
    });
    issue.description = Some("  Both show revenue.\n\n".into());
    issue.children = Some(vec![IssueRef {
        id: "k".into(),
        identifier: "ENG-158".into(),
        title: "Child".into(),
        state: Some(state("t", "Todo", StateType::Unstarted)),
    }]);
    let text = render_issue(&issue);
    assert_eq!(
        text,
        "# ENG-157 Merge the dashboard and the report\n\n\
         - State: In Progress\n\
         - Priority: High\n\
         - Assignee: ada\n\
         - Creator: Grace\n\
         - Labels: Bug, UI\n\
         - Cycle: Cycle 12\n\
         - Estimate: 3\n\
         - Parent: ENG-1 Parent\n\
         \n## Description\n\nBoth show revenue.\n\
         \n## Sub-issues\n\n- ENG-158 Child (Todo)\n"
    );
}

#[test]
fn replies_follow_the_comment_they_answer() {
    let comments = vec![
        comment("c3", Some("2024-01-03"), None, "third"),
        comment("c2", Some("2024-01-04"), Some("c1"), "a reply"),
        comment("c1", Some("2024-01-01"), None, "first"),
        comment("c4", Some("2024-01-02"), Some("gone"), "an orphan"),
    ];
    assert_eq!(written_order_of(&comments), vec![2, 3, 0, 1]);
    assert_eq!(
        threaded(&comments),
        vec![(2, false), (1, true), (0, false), (3, true)]
    );
}

#[test]
fn comments_without_a_time_come_first_and_ties_keep_their_order() {
    let comments = vec![
        comment("a", Some("2024"), None, ""),
        comment("b", None, None, ""),
        comment("c", Some("2024"), None, ""),
        comment("d", None, None, ""),
    ];
    assert_eq!(written_order_of(&comments), vec![1, 3, 0, 2]);
}

#[test]
fn each_comment_carries_its_id() {
    let mut issue = bare("ENG-2", "T");
    issue.comments = Some(vec![
        comment("comment-1", Some("2024-01-01"), None, " hello "),
        comment("comment-2", Some("2024-01-02"), Some("comment-1"), "yes"),
    ]);
    let text = render_issue(&issue);
    assert!(text.contains("- Id: comment-"), "{text}");
    assert!(
        text.ends_with(
            "\n## Comments (2)\n\
             \n### Me \u{2014} 2024-01-01\n\n- Id: comment-1\n\nhello\n\
             \n#### \u{21b3} Me \u{2014} 2024-01-02\n\n- Id: comment-2\n\nyes\n"
        ),
        "{text}"
    );
}

#[test]
fn a_comment_by_nobody_known_is_by_someone() {
    let mut issue = bare("ENG-3", "T");
    let mut c = comment("x", None, None, "b");
    c.user = None;
    issue.comments = Some(vec![c]);
    assert!(render_issue(&issue).ends_with("\n### someone \u{2014} \n\n- Id: x\n\nb\n"));
}

fn team(key: &str, name: &str) -> linear_tui::entity::Team {
    linear_tui::entity::Team {
        id: format!("t-{key}"),
        name: name.to_string(),
        key: key.to_string(),
        color: None,
        cycles_enabled: true,
    }
}

#[test]
fn a_team_is_found_by_key_or_name_in_any_case() {
    let teams = vec![team("ENG", "Engineering"), team("WEB", "Web")];
    assert_eq!(linear_tui::show::find_team(&teams, "eng").unwrap().id, "t-ENG");
    assert_eq!(linear_tui::show::find_team(&teams, "web").unwrap().id, "t-WEB");
    assert_eq!(linear_tui::show::find_team(&teams, "ENGINEERING").unwrap().id, "t-ENG");
    assert_eq!(
        linear_tui::show::find_team(&teams, "ops").unwrap_err(),
        "no team ops (teams: ENG, WEB)"
    );
}

#[test]
fn rows_name_what_a_reader_needs() {
    let mut issue = bare("ENG-9", "Nine");
    issue.priority = Priority::Urgent;
    issue.assignee = Some(user("Ada Lovelace", Some("ada")));
    issue.url = Some("https://linear.app/x/issue/ENG-9".into());
    let row = linear_tui::snapshot::issue_row(&issue);
    assert_eq!(row.kind, linear_tui::snapshot::RowKind::Issue);
    assert_eq!(row.identifier.as_deref(), Some("ENG-9"));
    assert_eq!(row.assignee.as_deref(), Some("ada"));
    assert_eq!(row.priority.as_deref(), Some("Urgent"));
    assert_eq!(row.state, None);
    let plain = linear_tui::snapshot::issue_row(&bare("ENG-10", "Ten"));
    assert_eq!(plain.priority, None);
    let cycle = Cycle {
        id: "c7".into(),
        name: None,
        number: Some(7),
        starts_at: None,
        ends_at: None,
    };
    let row = linear_tui::snapshot::cycle_row(&cycle);
    assert_eq!(row.title, "Cycle 7");
    assert_eq!(row.id, "c7");
}

#[test]
fn a_team_project_and_issue_are_named_for_the_record() {
    let t = linear_tui::snapshot::team_ref(&team("ENG", "Engineering"));
    assert_eq!((t.id.as_str(), t.key.as_str(), t.name.as_str()), ("t-ENG", "ENG", "Engineering"));
    let i = linear_tui::snapshot::issue_ref(&bare("ENG-4", "Four"));
    assert_eq!((i.id.as_str(), i.identifier.as_str(), i.title.as_str()), ("i1", "ENG-4", "Four"));
    let project = linear_tui::entity::Project {
        id: "p1".into(),
        name: "Checkout".into(),
        state: Some("started".into()),
        color: None,
        health: None,
        description: None,
        start_date: None,
        target_date: None,
        lead: Some(user("Grace Hopper", None)),
        url: None,
    };
    let row = linear_tui::snapshot::project_row(&project);
    assert_eq!(row.kind, linear_tui::snapshot::RowKind::Project);
    assert_eq!(row.title, "Checkout");
    assert_eq!(row.state.as_deref(), Some("started"));
    assert_eq!(row.assignee.as_deref(), Some("Grace Hopper"));
    assert_eq!(row.identifier, None);
    assert_eq!(row.priority, None);
}

#[test]
fn linear_numbers_name_priorities_and_other_numbers_none() {
    assert_eq!(Priority::from_number(1), Priority::Urgent);
    assert_eq!(Priority::from_number(4), Priority::Low);
    assert_eq!(Priority::from_number(0), Priority::Unset);
    assert_eq!(Priority::from_number(9), Priority::Unset);
}

#[test]
fn a_configured_grouping_is_the_grouping() {
    assert_eq!(GroupBy::from_config(GroupByName::Assignee), GroupBy::Assignee);
    assert_eq!(GroupBy::from_config(GroupByName::Ungrouped), GroupBy::Ungrouped);
    assert_eq!(GroupBy::from_config(GroupByName::default()), GroupBy::Status);
}

#[test]
fn only_my_comments_are_offered_to_edit_but_all_to_reply_to() {
    let mut theirs = comment("c1", Some("2024-01-01"), None, "hers");
    theirs.user = Some(user("Ada", None));
    let mine = comment("c2", Some("2023-12-31"), None, "mine");
    let mut nobody = comment("c3", Some("2024-01-02"), None, "?");
    nobody.user = None;
    let comments = vec![theirs, mine, nobody];
    assert_eq!(pickable_comments(&comments, Some("u-Me"), CommentAction::Reply), vec![1, 0, 2]);
    assert_eq!(pickable_comments(&comments, Some("u-Me"), CommentAction::Edit), vec![1]);
    assert_eq!(pickable_comments(&comments, Some("u-Me"), CommentAction::Delete), vec![1]);
    assert_eq!(pickable_comments(&comments, None, CommentAction::Delete), vec![1, 0, 2]);
    assert!(pickable_comments(&[], Some("u-Me"), CommentAction::Reply).is_empty());
}

#[test]
fn an_unchanged_description_is_not_sent() {
    assert_eq!(description_edit(Some("text"), None), DescriptionEdit::LeftAsItWas);
    assert_eq!(description_edit(Some("text\n"), Some("text  \n\n".into())), DescriptionEdit::Unchanged);
    assert_eq!(description_edit(None, Some("\n".into())), DescriptionEdit::Unchanged);
    assert_eq!(
        description_edit(Some("text"), Some(" text".into())),
        DescriptionEdit::Save(" text".into())
    );
    assert_eq!(description_edit(None, Some("new".into())), DescriptionEdit::Save("new".into()));
}

#[test]
fn the_priority_field_cycles_round_the_menu() {
    assert_eq!(Priority::Unset.cycled(1), Priority::Urgent);
    assert_eq!(Priority::Low.cycled(1), Priority::Unset);
    assert_eq!(Priority::Unset.cycled(-1), Priority::Low);
    assert_eq!(Priority::High.cycled(5), Priority::High);
    assert_eq!(Priority::Medium.cycled(-13), Priority::Unset);
    assert_eq!(Priority::Urgent.cycled(isize::MIN), Priority::from_index(((1i128 + isize::MIN as i128).rem_euclid(5)) as usize));
}

#[test]
fn a_saved_view_is_recorded_by_its_name() {
    let view = linear_tui::entity::CustomView {
        id: "v1".into(),
        name: "Bugs this week".into(),
        description: None,
        color: None,
        shared: true,
        owner: None,
    };
    let row = linear_tui::snapshot::view_row(&view);
    assert_eq!(row.kind, linear_tui::snapshot::RowKind::View);
    assert_eq!((row.id.as_str(), row.title.as_str()), ("v1", "Bugs this week"));
    assert!(row.identifier.is_none() && row.state.is_none() && row.url.is_none());
}

#[test]
fn a_reply_to_a_reply_follows_the_reply_it_answers() {
    let comments = vec![
        comment("c", Some("2024-01-03"), Some("b"), "third"),
        comment("a", Some("2024-01-01"), None, "first"),
        comment("d", Some("2024-01-04"), None, "fourth"),
        comment("b", Some("2024-01-02"), Some("a"), "second"),
        comment("e", Some("2024-01-05"), Some("gone"), "stray"),
        comment("f", Some("2024-01-06"), Some("e"), "answers the stray"),
    ];
    assert_eq!(
        threaded(&comments),
        vec![(1, false), (3, true), (0, true), (2, false), (4, true), (5, true)]
    );
}
