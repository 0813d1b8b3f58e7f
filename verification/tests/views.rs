use linear_tui::entity::{CustomView, User};
use linear_tui::markdown::Span;
use linear_tui::views::{view_list_frame, ViewKind};

fn text(line: &[Span]) -> String {
    line.iter().map(|s| s.content.as_str()).collect()
}

fn view(id: &str, shared: bool, description: Option<&str>) -> CustomView {
    CustomView {
        id: id.into(),
        name: format!("View {id}"),
        description: description.map(str::to_string),
        color: None,
        shared,
        owner: Some(User { id: "u".into(), name: "ada".into(), email: None, display_name: None }),
    }
}

#[test]
fn personal_views_come_under_their_caption_then_the_shared_ones() {
    let views = vec![view("a", false, Some("mine")), view("b", true, None)];
    let f = view_list_frame(&views, true, ViewKind::Issues, "Engineering", true, 1, 0, 10, 40);
    let lines: Vec<String> = f.lines.iter().map(|l| text(l)).collect();
    assert_eq!(f.targets, [None, Some(0), None, None, Some(1)]);
    assert_eq!(lines[0].trim_end(), " Personal views \u{00b7} Only visible to you");
    assert_eq!(lines[1], format!("  \u{2261} View a  mine{}ada ", " ".repeat(40 - 20)));
    assert_eq!(lines[2], "");
    assert_eq!(lines[3].trim_end(), " Engineering \u{00b7} Shared with the team");
    assert!(lines[4].starts_with("\u{258c} \u{2261} View b"), "{}", lines[4]);
    assert_eq!(lines[0].chars().count(), 40);
}

#[test]
fn the_cursor_is_scrolled_into_view() {
    let views: Vec<CustomView> = (0..6).map(|i| view(&i.to_string(), false, None)).collect();
    let f = view_list_frame(&views, true, ViewKind::Projects, "Workspace", false, 5, 0, 3, 40);
    assert_eq!(f.offset, 4);
    assert_eq!(f.targets, [Some(3), Some(4), Some(5)]);
    assert!(text(&f.lines[2]).starts_with("\u{258c} \u{25a3} View 5"));
}

#[test]
fn an_empty_page_says_why() {
    let m = |loaded, kind| view_list_frame(&[], loaded, kind, "W", false, 0, 0, 5, 40).message.unwrap();
    assert_eq!(m(false, ViewKind::Issues), "Loading views\u{2026}");
    assert_eq!(m(true, ViewKind::Issues), "No issue views here \u{2014} Shift+Tab shows project views");
    assert_eq!(m(true, ViewKind::Projects), "No project views here \u{2014} Shift+Tab shows issue views");
}
