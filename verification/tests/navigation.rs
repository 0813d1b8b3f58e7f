use linear_tui::navigation::nav_by;

#[test]
fn nav_by_clamps_to_the_list() {
    let mut i = 0;
    nav_by(5, &mut i, 3);
    assert_eq!(i, 3);
    nav_by(5, &mut i, 10);
    assert_eq!(i, 4);
    nav_by(5, &mut i, -100);
    assert_eq!(i, 0);
}

/// `select_first`/`select_last` pass extreme deltas; they must not overflow.
#[test]
fn nav_by_survives_sentinel_deltas() {
    let mut i = 2;
    nav_by(5, &mut i, isize::MAX / 2);
    assert_eq!(i, 4);
    nav_by(5, &mut i, isize::MIN / 2);
    assert_eq!(i, 0);
}

#[test]
fn nav_by_on_an_empty_list_stays_at_zero() {
    let mut i = 7;
    nav_by(0, &mut i, 1);
    assert_eq!(i, 0);
}

#[test]
fn nav_by_takes_the_largest_deltas_and_a_cursor_past_the_end() {
    let mut i = 9;
    nav_by(3, &mut i, 0);
    assert_eq!(i, 2);
    nav_by(3, &mut i, isize::MIN);
    assert_eq!(i, 0);
    nav_by(3, &mut i, isize::MAX);
    assert_eq!(i, 2);
    let mut j = usize::MAX;
    nav_by(usize::MAX, &mut j, isize::MAX);
    assert_eq!(j, usize::MAX - 1);
}

fn issue_with_id(id: &str) -> linear_tui::entity::Issue {
    linear_tui::entity::Issue {
        id: id.to_string(),
        identifier: id.to_uppercase(),
        title: String::new(),
        priority: linear_tui::entity::Priority::Unset,
        priority_label: None,
        state: None,
        assignee: None,
        labels: None,
        description: None,
        created_at: None,
        updated_at: None,
        comments: None,
        project: None,
        project_milestone: None,
        cycle: None,
        creator: None,
        estimate: None,
        due_date: None,
        parent: None,
        children: None,
        url: None,
        branch_name: None,
        team: None,
    }
}

#[test]
fn a_refetch_keeps_the_cursor_on_the_same_issue() {
    let issues = vec![issue_with_id("b"), issue_with_id("c"), issue_with_id("a")];
    assert_eq!(linear_tui::navigation::reselect(&issues, Some("a")), 2);
    assert_eq!(linear_tui::navigation::reselect(&issues, Some("gone")), 0);
    assert_eq!(linear_tui::navigation::reselect(&issues, None), 0);
}

#[test]
fn a_refetch_of_the_views_keeps_the_open_view() {
    let view = |id: &str| linear_tui::entity::CustomView { id: id.into(), name: id.into(), description: None, color: None, shared: false, owner: None };
    let open = view("v2");
    assert_eq!(linear_tui::navigation::reopened_view(&open, &[view("v9"), view("v2")]), Some(1));
    assert_eq!(linear_tui::navigation::reopened_view(&open, &[view("v9")]), None);
}
