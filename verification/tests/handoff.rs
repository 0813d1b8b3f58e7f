use linear_tui::handoff::{agents_file, available, outbox_dir, DELIVER};

#[test]
fn herdr_is_there_only_when_it_names_its_binary() {
    assert!(available(Some("/usr/bin/herdr")));
    assert!(!available(Some("")));
    assert!(!available(None));
}

#[test]
fn the_plugin_files_sit_in_the_state_directory() {
    assert_eq!(outbox_dir("/home/me/.local/state/linear-tui"), "/home/me/.local/state/linear-tui/herdr/outbox");
    assert_eq!(outbox_dir("/state/"), "/state/herdr/outbox");
    assert_eq!(agents_file("/state"), "/state/herdr/agents.json");
    assert_eq!(agents_file(""), "herdr/agents.json");
    assert_eq!(DELIVER, "k1-c.linear-tui.deliver");
}

#[test]
fn a_request_is_named_by_when_and_who_wrote_it() {
    assert_eq!(linear_tui::handoff::outbox_file_name(1700000000123, 4242), "1700000000123-4242.json");
    assert_eq!(linear_tui::handoff::outbox_file_name(0, 0), "0-0.json");
}

#[test]
fn a_failed_plugin_says_why_in_its_own_words() {
    assert_eq!(
        linear_tui::handoff::plugin_failure(b"  no such action\n", b"ignored"),
        "the linear-tui herdr plugin did not run: no such action"
    );
    assert_eq!(
        linear_tui::handoff::plugin_failure(b" \n", b"\tusage: herdr ...\n"),
        "the linear-tui herdr plugin did not run: usage: herdr ..."
    );
    assert_eq!(
        linear_tui::handoff::plugin_failure(b"", b""),
        "the linear-tui herdr plugin did not run: "
    );
}
