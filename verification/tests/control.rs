use linear_tui::control::{command, editor_command, headless_mode, Command, Mode, HEADLESS_USAGE};

fn words(text: &str) -> Vec<String> {
    text.split_whitespace().map(String::from).collect()
}

#[test]
fn each_verb_makes_its_command() {
    assert_eq!(command(&words("screen")).unwrap(), Command::Screen);
    assert_eq!(
        command(&words("press g m")).unwrap(),
        Command::Press { keys: "g m".into() }
    );
    assert_eq!(
        command(&["type".into(), "In Review".into()]).unwrap(),
        Command::Type {
            text: "In Review".into()
        }
    );
    assert_eq!(
        command(&words("run Change status")).unwrap(),
        Command::Run {
            title: "Change status".into()
        }
    );
    assert_eq!(
        command(&words("open ENG-42")).unwrap(),
        Command::Open {
            issue: "ENG-42".into()
        }
    );
    assert_eq!(command(&words("quit")).unwrap(), Command::Quit);
}

#[test]
fn a_verb_without_what_it_needs_shows_the_usage() {
    for bad in ["", "press", "run", "open", "type", "fly"] {
        let error = command(&words(bad)).unwrap_err();
        assert!(error.starts_with("Usage:"), "{bad}: {error}");
    }
}

#[test]
fn a_verb_with_too_much_shows_the_usage_too() {
    for bad in ["screen now", "quit please", "open ENG-1 ENG-2", "type a b"] {
        assert!(command(&words(bad)).is_err(), "{bad}");
    }
}

#[test]
fn visual_wins_then_editor_then_vi() {
    assert_eq!(editor_command(Some("nvim"), Some("nano")), ["nvim"]);
    assert_eq!(
        editor_command(Some(" "), Some("code --wait")),
        ["code", "--wait"]
    );
    assert_eq!(editor_command(None, None), ["vi"]);
}

#[test]
fn an_empty_setting_is_skipped() {
    assert_eq!(editor_command(None, Some("  emacs\t-nw ")), ["emacs", "-nw"]);
    assert_eq!(editor_command(Some(""), Some("")), ["vi"]);
}

fn strings(list: &[&str]) -> Vec<String> {
    list.iter().map(|s| s.to_string()).collect()
}

#[test]
fn headless_runs_at_the_default_size_or_the_one_asked_for() {
    assert_eq!(headless_mode(&[]), Ok(Mode::Headless { width: 120, height: 40 }));
    assert_eq!(
        headless_mode(&strings(&["--size", "200x50"])),
        Ok(Mode::Headless { width: 200, height: 50 })
    );
    for bad in [
        vec!["--size"],
        vec!["--size", "200"],
        vec!["--size", "200x"],
        vec!["--size", "70000x50"],
        vec!["--size", "20x5x"],
        vec!["--width", "200x50"],
        vec!["--size", "200x50", "x"],
    ] {
        assert_eq!(headless_mode(&strings(&bad)), Err(HEADLESS_USAGE.to_string()), "{bad:?}");
    }
}

#[test]
fn what_the_editor_saved_loses_only_its_closing_line_breaks() {
    assert_eq!(linear_tui::control::saved_text("new\n"), "new");
    assert_eq!(linear_tui::control::saved_text("a\n\nb\n\n\n"), "a\n\nb");
    assert_eq!(linear_tui::control::saved_text("keep  "), "keep  ");
    assert_eq!(linear_tui::control::saved_text("\n"), "");
}
