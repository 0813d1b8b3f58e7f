use linear_tui::entity::{Preset, Priority};
use linear_tui::message::{failure, same, Outbox, Page, PageInfo, Request};

fn issues(after: Option<&str>) -> Request {
    Request::Issues {
        team_id: "t".into(),
        after: after.map(Into::into),
        preset: Preset::Active,
    }
}

#[test]
fn identical_requests_are_not_queued_twice() {
    let mut outbox = Outbox::default();
    outbox.push(issues(None));
    outbox.push(issues(None));
    outbox.push(issues(Some("c1")));
    outbox.push(Request::Teams);
    outbox.push(Request::Teams);
    assert_eq!(outbox.requests.len(), 3);
    assert_eq!(outbox.requests[0], issues(None));
    assert_eq!(outbox.requests[2], Request::Teams);
    assert_eq!(outbox.inflight, 0);
}

#[test]
fn requests_differing_in_any_field_are_different() {
    assert!(same(&issues(None), &issues(None)));
    assert!(!same(&issues(None), &issues(Some("c1"))));
    let all = Request::Issues { team_id: "t".into(), after: None, preset: Preset::All };
    assert!(!same(&issues(None), &all));
    assert!(!same(&Request::Teams, &Request::Viewer));
    assert!(same(&Request::OpenUrl("u".into()), &Request::OpenUrl("u".into())));
}

#[test]
fn a_next_page_fetch_names_its_cursor() {
    assert_eq!(issues(Some("c1")).cursor(), Some("c1"));
    assert_eq!(issues(None).cursor(), None);
    assert_eq!(Request::Teams.cursor(), None);
    let cycles = Request::Cycles { team_id: "t".into(), after: Some("c9".into()) };
    assert_eq!(cycles.cursor(), Some("c9"));
}

#[test]
fn only_optimistic_changes_name_the_issue_they_patched() {
    let priority = Request::UpdatePriority { issue_id: "i1".into(), priority: Priority::High };
    assert_eq!(priority.patched_issue().map(String::as_str), Some("i1"));
    let comment = Request::CreateComment { issue_id: "i1".into(), body: "hi".into() };
    assert_eq!(comment.patched_issue(), None);
}

#[test]
fn each_failure_is_phrased_for_the_popup() {
    assert_eq!(Request::Teams.failure(), "Failed to load teams");
    assert_eq!(failure(&issues(None)), "Failed to load issues");
    assert_eq!(
        Request::PaletteSearch { term: "x".into(), seq: 3 }.failure(),
        "Search failed"
    );
    assert_eq!(Request::OpenUrl("u".into()).failure(), "Failed to open browser");
}

#[test]
fn a_page_keeps_what_it_was_given() {
    let page = Page::new(
        vec![1, 2],
        PageInfo { has_next_page: true, end_cursor: Some("c1".into()) },
        true,
    );
    assert_eq!(page.items, [1, 2]);
    assert!(page.page_info.has_next_page);
    assert!(page.append);
}
