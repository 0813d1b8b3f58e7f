use linear_tui::identifier::{identifier_in_branch, is_identifier, issue_key};

#[test]
fn an_issue_is_named_by_identifier_url_or_uuid() {
    assert_eq!(issue_key("eng-42").unwrap(), "ENG-42");
    assert_eq!(
        issue_key("https://linear.app/shop/issue/ENG-42/checkout-fails").unwrap(),
        "ENG-42"
    );
    assert_eq!(
        issue_key("9a0e1c2d-0000-4000-8000-00000000abcd").unwrap(),
        "9a0e1c2d-0000-4000-8000-00000000abcd"
    );
    assert!(issue_key("https://linear.app/shop/project/x").is_err());
    assert!(issue_key("fix the bug").is_err());
}

#[test]
fn a_branch_names_its_issue() {
    assert_eq!(
        identifier_in_branch("me/eng-42-checkout-fails").as_deref(),
        Some("ENG-42")
    );
    assert_eq!(
        identifier_in_branch("ENG-42/fix").as_deref(),
        Some("ENG-42")
    );
    assert_eq!(identifier_in_branch("feat/view-snapshot"), None);
    assert_eq!(identifier_in_branch("main"), None);
}

#[test]
fn an_identifier_is_a_key_a_dash_and_a_number() {
    assert!(is_identifier("ENG-42"));
    assert!(is_identifier("a1-7"));
    assert!(!is_identifier("1A-7"));
    assert!(!is_identifier("ENG-"));
    assert!(!is_identifier("-42"));
    assert!(!is_identifier("ENG-4-2"));
    assert!(!is_identifier("ENG42"));
}

#[test]
fn an_issue_key_is_trimmed_and_its_errors_say_what_was_given() {
    assert_eq!(issue_key("  eng-7 \n").unwrap(), "ENG-7");
    assert_eq!(
        issue_key("http://linear.app/shop/issue/ops-3").unwrap(),
        "OPS-3"
    );
    assert_eq!(
        issue_key("https://linear.app/shop/issue").unwrap_err(),
        "not an issue URL: https://linear.app/shop/issue"
    );
    assert_eq!(
        issue_key(" fix it ").unwrap_err(),
        "not an issue identifier: fix it (expected something like ENG-123)"
    );
    assert!(issue_key("").is_err());
}
