use linear_tui::body::body_lines;
use linear_tui::entity::{Comment, Issue, IssueRef, Priority, Ref, StateType, User, WorkflowState};
use linear_tui::markdown::Span;
use linear_tui::memo::Memo;

fn text(line: &[Span]) -> String {
    line.iter().map(|s| s.content.as_str()).collect()
}

fn done() -> WorkflowState {
    WorkflowState { id: "d".into(), name: "Done".into(), color: None, state_type: Some(StateType::Completed), position: None }
}

fn issue() -> Issue {
    Issue {
        id: "i1".into(),
        identifier: "ENG-7".into(),
        title: "Fix the header".into(),
        priority: Priority::High,
        priority_label: None,
        state: None,
        assignee: None,
        labels: None,
        description: None,
        created_at: None,
        updated_at: None,
        comments: None,
        project: None,
        project_milestone: None,
        cycle: None,
        creator: None,
        estimate: None,
        due_date: None,
        parent: None,
        children: None,
        url: None,
        branch_name: None,
        team: None,
    }
}

fn comment(id: &str, body: &str, at: &str, parent: Option<&str>) -> Comment {
    Comment {
        id: id.into(),
        body: body.into(),
        created_at: Some(at.into()),
        edited_at: None,
        user: Some(User { id: "u".into(), name: "ada".into(), email: None, display_name: None }),
        parent: parent.map(|p| Ref { id: p.into() }),
    }
}

fn all_lines(issue: &Issue, width: u16, inline: bool) -> Vec<String> {
    let mut memo = Memo::new();
    let body = body_lines(issue, width, inline, &mut memo, 0);
    body.window(&memo, 0, usize::MAX).iter().map(|l| text(l)).collect()
}

#[test]
fn a_bare_issue_invites_a_description_and_waits_for_comments() {
    let lines = all_lines(&issue(), 30, false);
    assert_eq!(lines.len(), 9, "{lines:?}");
    assert_eq!(lines[0], "");
    assert_eq!(lines[1], "Fix the header");
    assert_eq!(lines[2], "");
    assert_eq!(lines[3], "Add description\u{2026}");
    assert_eq!(lines[4], "");
    assert_eq!(lines[5], "");
    assert!(lines[6].starts_with("Activity  \u{2500}"), "{}", lines[6]);
    assert_eq!(lines[7], "Loading comments\u{2026}");
    assert_eq!(lines[8], "");
}

#[test]
fn sub_issues_are_counted_and_listed() {
    let mut i = issue();
    i.children = Some(vec![
        IssueRef { id: "c1".into(), identifier: "ENG-8".into(), title: "First".into(), state: Some(done()) },
        IssueRef { id: "c2".into(), identifier: "ENG-9".into(), title: "Second".into(), state: None },
    ]);
    let lines = all_lines(&i, 40, false);
    let at = lines.iter().position(|l| l.starts_with("Sub-issues ")).expect("heading");
    assert!(lines[at].starts_with("Sub-issues  1/2 \u{2500}"), "{}", lines[at]);
    assert!(lines[at + 1].contains("ENG-8     First"), "{}", lines[at + 1]);
    assert!(lines[at + 2].contains("ENG-9     Second"), "{}", lines[at + 2]);
    assert_eq!(lines[at + 3], "");
}

#[test]
fn a_reply_sits_in_its_thread_card() {
    let mut i = issue();
    i.comments = Some(vec![
        comment("c2", "Thanks", "2026-03-02T00:00:00.000Z", Some("c1")),
        comment("c1", "Looks good", "2026-03-01T00:00:00.000Z", None),
    ]);
    let lines = all_lines(&i, 30, false);
    let at = lines.iter().position(|l| l.starts_with("Activity  2 comments")).expect("heading");
    assert_eq!(lines[at + 1], "");
    assert!(lines[at + 2].starts_with("\u{256d}\u{2500}"), "{}", lines[at + 2]);
    assert!(lines[at + 3].starts_with("\u{2502} a ada"), "{}", lines[at + 3]);
    assert!(lines[at + 3].ends_with("\u{2502}"), "{}", lines[at + 3]);
    let first = lines.iter().position(|l| l.contains("Looks good")).expect("first body");
    let divider = lines.iter().position(|l| l.starts_with("\u{2502} \u{2508}")).expect("divider");
    let reply = lines.iter().position(|l| l.starts_with("\u{2502}   a ada")).expect("reply header");
    let second = lines.iter().position(|l| l.contains("Thanks")).expect("reply body");
    assert!(first < divider && divider < reply && reply < second);
    let bottom = lines.iter().position(|l| l.starts_with("\u{2570}")).expect("bottom edge");
    assert!(second < bottom);
    assert_eq!(lines[bottom + 1], "");
    assert_eq!(lines[bottom + 2], "  m  Leave a comment\u{2026}");
    for l in &lines[at + 2..=bottom] {
        assert_eq!(l.chars().count(), 30, "{l}");
    }
}

#[test]
fn narrow_terminals_fold_the_properties_in() {
    let lines = all_lines(&issue(), 60, true);
    assert!(lines[3].contains("No status"), "{}", lines[3]);
    assert!(lines[3].contains("High"), "{}", lines[3]);
    assert!(lines[3].ends_with("Unassigned"), "{}", lines[3]);
    assert!(lines[4].starts_with("Created by unknown"), "{}", lines[4]);
}

#[test]
fn a_window_is_a_slice_of_the_body() {
    let mut memo = Memo::new();
    let mut i = issue();
    i.description = Some("Some **text** here".into());
    let body = body_lines(&i, 30, false, &mut memo, 0);
    let all: Vec<String> = body.window(&memo, 0, usize::MAX).iter().map(|l| text(l)).collect();
    let part: Vec<String> = body.window(&memo, 2, 3).iter().map(|l| text(l)).collect();
    assert_eq!(part, all[2..5].to_vec());
    assert!(all[3].contains("Some text here"), "{}", all[3]);
    assert!(body.window(&memo, 1000, 5).is_empty());
}
