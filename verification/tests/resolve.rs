use linear_tui::entity::{Cycle, Label, Priority, Project, User};
use linear_tui::resolve::{
    choose_cycle, current_cycle, estimate, is_me, is_none, me_among, pick, pick_cycle, pick_label,
    pick_member, pick_project, priority,
};
use linear_tui::timestamp::parse_timestamp;

fn label_names() -> (Vec<Vec<String>>, Vec<String>) {
    let labels = ["Bug", "bug", "Feature"];
    (
        labels.iter().map(|l| vec![l.to_string()]).collect(),
        labels.iter().map(|l| l.to_string()).collect(),
    )
}

fn cycle(id: &str, number: u64, starts_at: &str, ends_at: &str) -> Cycle {
    Cycle {
        id: id.into(),
        name: None,
        number: Some(number),
        starts_at: Some(starts_at.into()),
        ends_at: Some(ends_at.into()),
    }
}

#[test]
fn a_name_matches_in_any_case() {
    let (names, labels) = label_names();
    let found = pick("label", "feature", &names, &labels).unwrap();
    assert_eq!(found, 2);
}

#[test]
fn an_unknown_name_lists_the_choices() {
    let (names, labels) = label_names();
    let err = pick("label", "Chore", &names, &labels).unwrap_err();
    assert_eq!(err, "no label Chore (choices: Bug, bug, Feature)");
}

#[test]
fn an_ambiguous_name_lists_the_candidates() {
    let (names, labels) = label_names();
    let err = pick("label", "BUG", &names, &labels).unwrap_err();
    assert_eq!(err, "label BUG is ambiguous: it could be Bug, bug");
}

#[test]
fn nothing_to_pick_from_says_so() {
    let err = pick("project", " Launch ", &[], &[]).unwrap_err();
    assert_eq!(err, "no project Launch: this team has none");
    let names = vec![vec!["A".to_string()], vec!["A".to_string()], vec!["B".to_string()]];
    let labels = vec!["A".to_string(), "A".to_string(), "B".to_string()];
    assert_eq!(
        pick("label", "c", &names, &labels).unwrap_err(),
        "no label c (choices: A, B)"
    );
}

#[test]
fn priorities_and_estimates_parse_or_say_what_is_valid() {
    assert_eq!(priority("LOW").unwrap(), Priority::Low);
    assert!(priority("huge").unwrap_err().contains("urgent, high"));
    assert_eq!(estimate("3").unwrap(), Some(3));
    assert_eq!(estimate("none").unwrap(), None);
    assert!(estimate("two").is_err());
}

#[test]
fn priority_none_and_estimate_edges() {
    assert_eq!(priority(" none ").unwrap(), Priority::Unset);
    assert_eq!(
        priority("huge").unwrap_err(),
        "no priority huge (choices: urgent, high, medium, low, none)"
    );
    assert_eq!(estimate(" +8 ").unwrap(), Some(8));
    assert_eq!(estimate("4294967295").unwrap(), Some(u32::MAX));
    assert!(estimate("4294967296").is_err());
    assert!(estimate("-1").is_err());
    assert!(estimate("+").is_err());
    assert_eq!(
        estimate("two").unwrap_err(),
        "not an estimate: two (a whole number, or none)"
    );
    assert!(is_none(" NoNe "));
    assert!(!is_none("nothing"));
}

#[test]
fn the_current_cycle_is_the_one_under_way() {
    let cycles = vec![
        cycle("c1", 1, "2026-09-01T00:00:00.000Z", "2026-09-15T00:00:00.000Z"),
        cycle("c2", 2, "2026-09-15T00:00:00.000Z", "2026-09-29T00:00:00.000Z"),
    ];
    let now = parse_timestamp("2026-09-26T12:00:00Z").unwrap();
    assert_eq!(current_cycle(&cycles, now).unwrap().id, "c2");
    let later = parse_timestamp("2026-10-26T12:00:00Z").unwrap();
    assert!(current_cycle(&cycles, later).is_none());
    let picked = pick_cycle("cycle 1", &cycles).unwrap();
    assert_eq!(cycles[picked].id, "c1");
}

fn member(id: &str, name: &str, display: Option<&str>, email: Option<&str>) -> User {
    User {
        id: id.into(),
        name: name.into(),
        email: email.map(str::to_string),
        display_name: display.map(str::to_string),
    }
}

fn members() -> Vec<User> {
    vec![
        member("u1", "Me", None, Some("me@example.com")),
        member("u2", "ada", None, Some("ada@example.com")),
        member("u3", "grace", Some("Grace H"), None),
    ]
}

#[test]
fn a_member_is_found_by_name_display_name_or_email() {
    let members = members();
    assert_eq!(pick_member("ADA@example.com", &members), Ok(1));
    assert_eq!(pick_member(" grace h ", &members), Ok(2));
    assert_eq!(pick_member("grace", &members), Ok(2));
    assert_eq!(
        pick_member("bob", &members).unwrap_err(),
        "no member bob (choices: Me <me@example.com>, ada <ada@example.com>, Grace H)"
    );
}

#[test]
fn me_is_the_signed_in_member_or_a_stand_in() {
    let members = members();
    assert!(is_me(" ME "));
    assert!(!is_me("meg"));
    let me = me_among(&members, "u2");
    assert_eq!((me.id.as_str(), me.name.as_str()), ("u2", "ada"));
    assert_eq!(me.email.as_deref(), Some("ada@example.com"));
    let stranger = me_among(&members, "u9");
    assert_eq!((stranger.id.as_str(), stranger.name.as_str()), ("u9", "me"));
    assert!(stranger.email.is_none() && stranger.display_name.is_none());
}

#[test]
fn labels_and_projects_are_found_by_name() {
    let labels: Vec<Label> = ["Bug", "bug", "Feature"]
        .iter()
        .enumerate()
        .map(|(i, n)| Label { id: format!("l{i}"), name: n.to_string(), color: None })
        .collect();
    assert_eq!(pick_label("feature", &labels), Ok(2));
    assert_eq!(
        pick_label("BUG", &labels).unwrap_err(),
        "label BUG is ambiguous: it could be Bug, bug"
    );
    let projects: Vec<Project> = ["Checkout", "Search"]
        .iter()
        .map(|n| Project {
            id: format!("p-{n}"),
            name: n.to_string(),
            state: None,
            color: None,
            health: None,
            description: None,
            start_date: None,
            target_date: None,
            lead: None,
            url: None,
        })
        .collect();
    assert_eq!(pick_project("search", &projects), Ok(1));
    assert_eq!(
        pick_project("Billing", &projects).unwrap_err(),
        "no project Billing (choices: Checkout, Search)"
    );
}

#[test]
fn a_cycle_is_current_or_named_by_name_or_number() {
    let mut cycles = vec![
        cycle("c1", 1, "2026-09-01T00:00:00.000Z", "2026-09-15T00:00:00.000Z"),
        cycle("c2", 2, "2026-09-15T00:00:00.000Z", "2026-09-29T00:00:00.000Z"),
    ];
    cycles[1].name = Some("Autumn".into());
    let now = parse_timestamp("2026-09-26T12:00:00Z").unwrap();
    assert_eq!(choose_cycle("Current", &cycles, now).unwrap().id, "c2");
    assert_eq!(choose_cycle("2", &cycles, now).unwrap().id, "c2");
    assert_eq!(choose_cycle("autumn", &cycles, now).unwrap().id, "c2");
    assert_eq!(choose_cycle("Cycle 1", &cycles, now).unwrap().id, "c1");
    let later = parse_timestamp("2026-10-26T12:00:00Z").unwrap();
    assert_eq!(
        choose_cycle("current", &cycles, later).unwrap_err(),
        "the team has no cycle under way"
    );
    assert_eq!(
        choose_cycle("7", &cycles, now).unwrap_err(),
        "no cycle 7 (choices: Cycle 1, Autumn)"
    );
}
