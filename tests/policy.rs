use aranet4_logger::models::decode;
use aranet4_logger::policy::{is_same_measurement, should_store, should_store_reading};

const T: i64 = 1_704_067_200_000; // 2024-01-01T00:00:00Z

#[test]
fn reading_thirty_seconds_later_is_a_duplicate() {
    assert!(!should_store(T + 30_000, Some(T)));
}

#[test]
fn reading_ninety_seconds_later_is_stored() {
    assert!(should_store(T + 90_000, Some(T)));
}

#[test]
fn window_is_strict_and_symmetric() {
    assert!(is_same_measurement(T + 59_999, T));
    assert!(!is_same_measurement(T + 60_000, T));
    assert!(is_same_measurement(T - 30_000, T));
    assert!(!is_same_measurement(T - 60_000, T));
    assert!(!is_same_measurement(i64::MAX, i64::MIN));
}

#[test]
fn empty_store_always_stores() {
    assert!(should_store(T, None));
}

#[test]
fn dedup_against_stored_text() {
    let stored = "2024-01-01T00:00:00+00:00";
    let fields = [0x10, 0x20, 0x30, 0x40, 0x50, 0x60, 0x70, 0x80];
    let near = decode(&fields, T + 30_000).unwrap();
    let far = decode(&fields, T + 90_000).unwrap();
    assert!(!should_store_reading(&near, Some(stored)));
    assert!(should_store_reading(&far, Some(stored)));
    let offset = "2024-01-01T01:00:20+01:00";
    assert!(!should_store_reading(&near, Some(offset)));
}

#[test]
fn unparseable_stored_text_fails_open() {
    let r = decode(&[0; 8], T).unwrap();
    assert!(should_store_reading(&r, Some("yesterday")));
    assert!(should_store_reading(&r, None));
}
