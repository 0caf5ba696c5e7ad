//! Time and frame parsing, rendering, and bracket interval lists.

use otr::interval::{parse_frame, parse_time, render_time, intervals_from_str, Boundary, Frame, Time};

#[test]
fn time_parse_round_trip() {
    // 0:05:30 is 330 seconds, 330 000 000 microseconds.
    assert_eq!(parse_time(b"0:05:30"), Some(330_000_000));
    assert_eq!(render_time(330_000_000), b"330.000000".to_vec());
}

#[test]
fn time_parse_accepts_bounds() {
    assert_eq!(parse_time(b"0:00:00.000000"), Some(0));
    assert_eq!(parse_time(b"23:59:59.999999"), Some(86_399_999_999));
}

#[test]
fn time_parse_rejects_out_of_range_fields() {
    assert_eq!(parse_time(b"24:00:00"), None);
    assert_eq!(parse_time(b"1:60:00"), None);
    assert_eq!(parse_time(b"1:00:60"), None);
}

#[test]
fn time_parse_rejects_malformed() {
    assert_eq!(parse_time(b""), None);
    assert_eq!(parse_time(b"1:00"), None);
    assert_eq!(parse_time(b"1:2:3"), None);
    assert_eq!(parse_time(b"1:00:00.1234567"), None);
    assert_eq!(parse_time(b"x:00:00"), None);
}

#[test]
fn time_parse_short_fraction() {
    // 0:20:59.45 is 1259.45 seconds.
    assert_eq!(parse_time(b"0:20:59.45"), Some(1_259_450_000));
}

#[test]
fn frame_parse_forms() {
    assert_eq!(parse_frame(b"250"), Some(250));
    assert_eq!(parse_frame(b"250.0"), Some(250));
    assert_eq!(parse_frame(b"-7"), Some(7));
    assert_eq!(parse_frame(b""), None);
    assert_eq!(parse_frame(b"a1"), None);
}

#[test]
fn interval_normalizes_order() {
    let ivs = intervals_from_str::<Frame>(b"[5,3]").unwrap();
    assert_eq!(ivs.len(), 1);
    assert_eq!(ivs[0].from().value(), 3);
    assert_eq!(ivs[0].to().value(), 5);
}

#[test]
fn interval_list_drops_zero_length() {
    // Zero-length intervals are dropped during parsing, not persisted.
    let ivs = intervals_from_str::<Frame>(b"[5,5][1,3]").unwrap();
    assert_eq!(ivs.len(), 1);
    assert_eq!(ivs[0].from().value(), 1);
    assert_eq!(ivs[0].to().value(), 3);
}

#[test]
fn interval_list_rejects_malformed() {
    assert!(intervals_from_str::<Frame>(b"").is_err());
    assert!(intervals_from_str::<Frame>(b"[1,2").is_err());
    assert!(intervals_from_str::<Frame>(b"[1;2]").is_err());
    assert!(intervals_from_str::<Frame>(b"[1,2]x[3,4]").is_err());
    assert!(intervals_from_str::<Time>(b"[1,2]").is_err());
}

#[test]
fn time_interval_list() {
    let ivs = intervals_from_str::<Time>(b"[0:00:01,0:00:02][0:00:03,0:00:04]").unwrap();
    assert_eq!(ivs.len(), 2);
    assert_eq!(ivs[0].from().value(), 1_000_000);
    assert_eq!(ivs[1].to().value(), 4_000_000);
    assert_eq!(ivs[0].len(), 1_000_000);
    assert!(!ivs[0].is_empty());
}
