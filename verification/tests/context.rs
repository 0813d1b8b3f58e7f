use linear_tui::context::{ago, render};
use linear_tui::entity::Preset;
use linear_tui::grouping::GroupBy;
use linear_tui::snapshot::{
    Destination, Instance, InstanceId, IssueRef, ListSettings, OrganizationRef, Row, RowKind,
    Screen, Section, Source, TeamRef, ViewSnapshot, VERSION,
};
use linear_tui::timestamp::parse_timestamp;

fn row(id: &str, identifier: &str, title: &str, state: &str, assignee: Option<&str>) -> Row {
    Row {
        kind: RowKind::Issue,
        id: id.into(),
        identifier: Some(identifier.into()),
        title: title.into(),
        state: Some(state.into()),
        assignee: assignee.map(Into::into),
        priority: Some("High".into()),
        url: None,
    }
}

fn fixture() -> ViewSnapshot {
    ViewSnapshot {
        version: VERSION,
        workspace: "/work/shop".into(),
        cwd: "/work/shop".into(),
        pid: 48213,
        updated_at: "2026-09-25T06:01:02Z".into(),
        closed_at: None,
        herdr_pane: None,
        organization: Some(OrganizationRef {
            id: "b41d…org".into(),
            name: "Shop".into(),
            url_key: "shop".into(),
        }),
        team: Some(TeamRef { id: "t".into(), key: "ENG".into(), name: "Engineering".into() }),
        destination: Destination::Team {
            team: TeamRef { id: "t".into(), key: "ENG".into(), name: "Engineering".into() },
            section: Section::Issues,
        },
        screen: Screen::IssueDetail,
        project: None,
        cycle: None,
        issue: Some(IssueRef {
            id: "i42".into(),
            identifier: "ENG-42".into(),
            title: "Checkout fails on empty cart".into(),
        }),
        search: None,
        group_by: GroupBy::Status,
        lists: vec![ListSettings {
            source: Source::Team,
            preset: Preset::Active,
            status: None,
            priority: Some("High".into()),
            selected: None,
        }],
        rows: vec![
            row("i40", "ENG-40", "Retry payment webhooks", "In Progress", Some("me")),
            row("i42", "ENG-42", "Checkout fails on empty cart", "Todo", None),
        ],
        rows_total: 2,
        selected_row: Some(1),
    }
}

#[test]
fn a_worktree_issue_alone_is_still_context() {
    let text = render(None, Some("ENG-7"), 0);
    assert!(text.contains("**ENG-7**"), "{text}");
    assert!(text.contains("No linear-tui view is recorded"), "{text}");
}

#[test]
fn the_markdown_says_what_is_open_and_marks_the_cursor() {
    let snapshot = fixture();
    // Two minutes after the snapshot was written.
    let now = parse_timestamp(&snapshot.updated_at).unwrap() + 120;
    let text = render(Some(&(snapshot, true)), Some("ENG-42"), now);
    assert!(text.contains("This worktree is for **ENG-42**"), "{text}");
    assert!(text.contains("- Showing: Engineering › Issues › ENG-42\n"), "{text}");
    assert!(text.contains("2 minutes ago"), "{text}");
    assert!(text.contains("- Linear workspace: Shop (shop)\n"), "{text}");
    assert!(text.contains("linear-tui is open (pid 48213)"), "{text}");
    assert!(text.contains("## The list it was opened from (2)"), "{text}");
    assert!(text.contains("Preset: Active · Priority: High"), "{text}");
    assert!(
        text.contains("1. ENG-40 Retry payment webhooks — In Progress · me · High\n"),
        "{text}"
    );
    assert!(
        text.contains("2. ENG-42 Checkout fails on empty cart — Todo · High  ← cursor\n"),
        "{text}"
    );
}

#[test]
fn a_closed_instance_is_flagged_as_stale() {
    let snapshot = fixture();
    let now = parse_timestamp(&snapshot.updated_at).unwrap() + 7200;
    let text = render(Some(&(snapshot, false)), None, now);
    assert!(text.contains("may be stale"), "{text}");
    assert!(text.contains("2 hours ago"), "{text}");
    assert!(!text.contains("This worktree"), "{text}");
}

#[test]
fn the_report_reads_in_order() {
    let mut snapshot = fixture();
    snapshot.issue = None;
    snapshot.screen = Screen::IssueList;
    snapshot.rows_total = 40;
    snapshot.selected_row = None;
    snapshot.search = Some("checkout".into());
    let now = parse_timestamp(&snapshot.updated_at).unwrap() + 30;
    let text = render(Some(&(snapshot, true)), None, now);
    assert_eq!(
        text,
        "# linear-tui context\n\n\
         - Showing: Engineering › Issues\n\
         - Linear workspace: Shop (shop)\n\
         - Search results for: checkout\n\
         - Updated: just now (2026-09-25T06:01:02Z); linear-tui is open (pid 48213)\n\
         \n## List (first 2 of 40)\n\n\
         Preset: Active · Priority: High\n\n\
         1. ENG-40 Retry payment webhooks — In Progress · me · High\n\
         2. ENG-42 Checkout fails on empty cart — Todo · High\n\
         \nAct on these with `linear-tui issue show|comment|status <ID>` and \
         `linear-tui issue create --team <key> --title <text>`.\n"
    );
}

#[test]
fn ago_counts_in_the_largest_whole_unit() {
    let at = "2026-09-25T06:01:02Z";
    let then = parse_timestamp(at).unwrap();
    assert_eq!(ago(at, then + 59).as_deref(), Some("just now"));
    assert_eq!(ago(at, then + 60).as_deref(), Some("1 minute ago"));
    assert_eq!(ago(at, then + 3600).as_deref(), Some("1 hour ago"));
    assert_eq!(ago(at, then + 3 * 86400).as_deref(), Some("3 days ago"));
    assert_eq!(ago(at, then - 10).as_deref(), Some("just now"));
    assert_eq!(ago("yesterday", then), None);
}

#[test]
fn an_instance_that_quit_normally_is_closed() {
    let mut view = fixture();
    let running = Instance {
        id: InstanceId { workspace: "/work/shop".into(), pid: 1 },
        view: view.clone(),
        running: true,
    };
    assert!(!running.closed());
    view.closed_at = Some("2026-09-25T09:30:00Z".into());
    let gone = Instance {
        id: InstanceId { workspace: "/work/shop".into(), pid: 2 },
        view,
        running: false,
    };
    assert!(gone.closed());
}

#[test]
fn the_selected_row_is_the_one_under_the_cursor() {
    let snapshot = fixture();
    assert_eq!(
        snapshot.selected().and_then(|r| r.identifier.as_deref()),
        Some("ENG-42")
    );
    let mut none = fixture();
    none.selected_row = Some(9);
    assert!(none.selected().is_none());
}

fn org(id: &str, name: &str, key: &str) -> linear_tui::snapshot::OrganizationRef {
    linear_tui::snapshot::OrganizationRef { id: id.into(), name: name.into(), url_key: key.into() }
}

#[test]
fn a_view_of_another_workspace_is_flagged() {
    let shown = org("o1", "Acme", "acme");
    let acting = org("o2", "Other", "other");
    assert_eq!(
        linear_tui::context::other_workspace(Some(&shown), Some(&acting)).unwrap(),
        "**This view is of Acme (acme), but `linear-tui issue \u{2026}` acts in Other (other).** \
         `linear-tui auth switch acme` first to act on what is shown."
    );
    assert_eq!(linear_tui::context::other_workspace(Some(&shown), Some(&shown)), None);
    assert_eq!(linear_tui::context::other_workspace(None, Some(&acting)), None);
    assert_eq!(linear_tui::context::other_workspace(Some(&shown), None), None);
}

#[test]
fn only_a_linked_worktree_names_an_issue() {
    assert!(linear_tui::context::is_linked_worktree(b"/r/.git/worktrees/x\n/r/.git\n"));
    assert!(!linear_tui::context::is_linked_worktree(b"/r/.git\n/r/.git\n"));
    assert!(!linear_tui::context::is_linked_worktree(b"/r/.git\n"));
    assert_eq!(linear_tui::context::branch_issue(b"me/eng-42-checkout\n").as_deref(), Some("ENG-42"));
    assert_eq!(linear_tui::context::branch_issue(b"main\n"), None);
}
