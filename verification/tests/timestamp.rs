use linear_tui::timestamp::{format_timestamp, now_iso, parse_iso, parse_timestamp};

#[test]
fn timestamps_are_rfc3339_utc_to_the_second() {
    assert_eq!(format_timestamp(0), "1970-01-01T00:00:00Z");
    assert_eq!(format_timestamp(951_782_400), "2000-02-29T00:00:00Z");
    assert_eq!(format_timestamp(1_790_316_062), "2026-09-25T06:01:02Z");
    assert_eq!(format_timestamp(4_102_444_799), "2099-12-31T23:59:59Z");
}

#[test]
fn now_is_a_well_formed_timestamp() {
    let now = now_iso();
    assert_eq!(now.len(), 24);
    assert!(parse_iso(&now).is_some());
}

#[test]
fn now_is_written_as_a_snapshot_stamp_that_reads_back() {
    let now = linear_tui::timestamp::timestamp_now();
    assert!(parse_timestamp(&now).is_some(), "{now}");
}
