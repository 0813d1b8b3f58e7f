use linear_tui::cycles::{is_current, phase, phase_mark, Phase};
use linear_tui::entity::Cycle;

fn cycle(start: Option<&str>, end: Option<&str>) -> Cycle {
    Cycle {
        id: "c".into(),
        name: None,
        number: Some(4),
        starts_at: start.map(str::to_string),
        ends_at: end.map(str::to_string),
    }
}

#[test]
fn the_cycle_now_falls_in_is_current() {
    let c = cycle(Some("2024-05-01T00:00:00.000Z"), Some("2024-05-15T00:00:00.000Z"));
    assert!(is_current(&c, "2024-05-01T00:00:00.000Z"));
    assert!(is_current(&c, "2024-05-10T12:00:00.000Z"));
    assert!(!is_current(&c, "2024-05-15T00:00:00.000Z"));
    assert!(!is_current(&c, "2024-04-30T23:59:59.000Z"));
    assert!(!is_current(&cycle(None, Some("2030")), "2024"));
    assert_eq!(phase(&c, "2024-05-10T00:00:00.000Z"), Phase::Current);
    assert_eq!(phase(&c, "2024-05-15T00:00:00.000Z"), Phase::Past);
    assert_eq!(phase(&c, "2024-04-01T00:00:00.000Z"), Phase::Upcoming);
    assert_eq!(phase(&cycle(Some("2024"), None), "2025"), Phase::Upcoming);
    assert_eq!(phase_mark(Phase::Current).0, "\u{25d4}");
    assert_eq!(phase_mark(Phase::Past).0, "\u{25cf}");
    assert_eq!(phase_mark(Phase::Upcoming).0, "\u{25cb}");
}
