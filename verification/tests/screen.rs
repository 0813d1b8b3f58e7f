use linear_tui::edits::{CommentAction, CommentTarget, EditorJob};
use linear_tui::handoff::Handoff;
use linear_tui::screen::{CommandEntry, KeyHint, ScreenReport};

fn report() -> ScreenReport {
    ScreenReport {
        showing: "Engineering › Issues".into(),
        lines: vec!["│ ENG-42 │".into()],
        width: 80,
        height: 24,
        focus: "issue_list".into(),
        overlay: None,
        issue: Some("ENG-42 Checkout fails".into()),
        status: None,
        error: None,
        loading: false,
        notes: 0,
        keys: vec![KeyHint { keys: "Enter".into(), does: "open".into() }],
        commands: vec![
            CommandEntry { title: "Change status\u{2026}".into(), keys: Some("s".into()) },
            CommandEntry { title: "Copy issue URL".into(), keys: None },
        ],
        held: vec!["opened https://x".into()],
    }
}

#[test]
fn the_markdown_carries_the_frame_and_the_commands() {
    let text = report().markdown();
    assert!(text.starts_with("# linear-tui screen\n\n- Showing: Engineering › Issues\n"));
    assert!(text.contains("```text\n│ ENG-42 │\n```"));
    assert!(text.contains("- Held: opened https://x"));
    assert!(text.contains("## Commands here"));
    assert!(text.contains("- Change status\u{2026} (`s`)"));
}

#[test]
fn the_markdown_reads_in_order() {
    let mut r = report();
    r.error = Some("Could not\nload".into());
    r.loading = true;
    r.notes = 2;
    r.keys.push(KeyHint { keys: "?".into(), does: "help".into() });
    r.lines.push("second".into());
    assert_eq!(
        r.markdown(),
        "# linear-tui screen\n\n\
         - Showing: Engineering › Issues\n\
         - Focus: issue_list\n\
         - Issue: ENG-42 Checkout fails\n\
         - Error: Could not load\n\
         - Loading: Linear has not answered everything yet\n\
         - Notes: 2 waiting to be sent\n\
         - Held: opened https://x\n\
         \n```text\n│ ENG-42 │\nsecond\n```\n\
         \nKeys here: `Enter` open · `?` help\n\
         \n## Commands here\n\n\
         - Change status\u{2026} (`s`)\n\
         - Copy issue URL\n\
         \nPress keys with `linear-tui tui press <keys>`, type with `linear-tui tui type <text>`, \
         run a command with `linear-tui tui run <title>`.\n"
    );
}

#[test]
fn an_empty_screen_has_no_keys_or_commands_section() {
    let mut r = report();
    r.keys.clear();
    r.commands.clear();
    r.held.clear();
    r.issue = None;
    let text = r.markdown();
    assert!(!text.contains("Keys here"));
    assert!(!text.contains("Commands here"));
    assert!(!text.contains("- Issue:"));
}

#[test]
fn pickers_and_hand_offs_say_what_they_do() {
    assert_eq!(CommentAction::Reply.title(), "Reply to comment");
    assert_eq!(CommentAction::Edit.title(), "Edit comment");
    assert_eq!(CommentAction::Delete.title(), "Delete comment");
    assert_eq!(CommentTarget::default(), CommentTarget::New);
    let job = EditorJob { issue_id: "i1".into(), text: "body".into() };
    assert_eq!(job.clone(), job);
    let handoff = Handoff::Prompt {
        text: "t".into(),
        notes: "n".into(),
        view: "v".into(),
        hint: "h".into(),
    };
    assert_eq!(handoff.done(), "Notes handed to herdr for your agent");
}

#[test]
fn a_screen_name_reads_in_snake_case() {
    assert_eq!(linear_tui::screen::snake("IssueList"), "issue_list");
    assert_eq!(linear_tui::screen::snake("GoTo"), "go_to");
    assert_eq!(linear_tui::screen::snake("sidebar"), "sidebar");
    assert_eq!(linear_tui::screen::snake(""), "");
}

fn place(spot: linear_tui::screen::Spot, screen: linear_tui::snapshot::Screen) -> linear_tui::screen::Place {
    linear_tui::screen::Place {
        spot,
        screen,
        detail_return: linear_tui::snapshot::Screen::IssueList,
        project: Some("Checkout".into()),
        cycle: Some("Cycle 3".into()),
        issue: Some("ENG-42".into()),
    }
}

#[test]
fn where_the_user_is_reads_from_the_sidebar_down() {
    let team = linear_tui::screen::Spot::Team(Some("Engineering".into()), linear_tui::snapshot::Section::Issues);
    let open = place(team.clone(), linear_tui::snapshot::Screen::IssueDetail);
    assert_eq!(linear_tui::screen::view_label(&open), "Engineering \u{203a} Issues \u{203a} ENG-42");
    let list = place(team, linear_tui::snapshot::Screen::IssueList);
    assert_eq!(linear_tui::screen::view_label(&list), "Engineering \u{203a} Issues");
    let mut project = place(
        linear_tui::screen::Spot::Team(None, linear_tui::snapshot::Section::Projects),
        linear_tui::snapshot::Screen::IssueDetail,
    );
    project.detail_return = linear_tui::snapshot::Screen::ProjectDetail;
    assert_eq!(
        linear_tui::screen::view_label(&project),
        "Team \u{203a} Projects \u{203a} Checkout \u{203a} ENG-42"
    );
    let cycle = place(linear_tui::screen::Spot::MyIssues, linear_tui::snapshot::Screen::CycleDetail);
    assert_eq!(linear_tui::screen::view_label(&cycle), "My Issues \u{203a} Cycle 3");
    let view = place(linear_tui::screen::Spot::View(Some("Bugs".into())), linear_tui::snapshot::Screen::IssueList);
    assert_eq!(linear_tui::screen::view_label(&view), "view \u{201c}Bugs\u{201d}");
    let unnamed = place(linear_tui::screen::Spot::View(None), linear_tui::snapshot::Screen::ViewList);
    assert_eq!(linear_tui::screen::view_label(&unnamed), "View");
    let fav = place(linear_tui::screen::Spot::Favorite, linear_tui::snapshot::Screen::ProjectList);
    assert_eq!(linear_tui::screen::view_label(&fav), "Favorites");
}

#[test]
fn every_pushed_note_waits_in_the_order_written() {
    let mut notes = linear_tui::entity::Notes::new();
    assert!(notes.is_empty());
    for k in 0..3 {
        notes.push(linear_tui::entity::Note { about: None, body: format!("note {k}") });
    }
    assert_eq!(notes.len(), 3);
    assert_eq!(notes.iter().len(), notes.len());
    assert_eq!(notes.iter()[2].body, "note 2");
    notes.clear();
    assert!(notes.is_empty());
}
