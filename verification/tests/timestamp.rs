use flinderax::timestamp::{parse_timestamp, timestamp_from, Timestamp};

#[test]
fn rfc3339_text_is_read() {
    assert_eq!(
        parse_timestamp("2023-11-14T22:13:20Z"),
        Timestamp { seconds: 1_700_000_000, nanos: 0 }
    );
    assert_eq!(parse_timestamp("1970-01-01T00:00:00Z"), Timestamp { seconds: 0, nanos: 0 });
}

#[test]
fn rfc3339_offsets_and_fractions_are_honoured() {
    assert_eq!(
        parse_timestamp("2023-11-14T23:13:20+01:00"),
        Timestamp { seconds: 1_700_000_000, nanos: 0 }
    );
    assert_eq!(
        parse_timestamp("2023-11-14T22:13:20.5Z"),
        Timestamp { seconds: 1_700_000_000, nanos: 500_000_000 }
    );
    assert_eq!(
        parse_timestamp("1969-12-31T23:59:59Z"),
        Timestamp { seconds: -1, nanos: 0 }
    );
}

#[test]
fn the_plain_form_is_the_fallback_and_is_taken_as_utc() {
    assert_eq!(
        parse_timestamp("2023-11-14 22:13:20"),
        Timestamp { seconds: 1_700_000_000, nanos: 0 }
    );
    assert_eq!(parse_timestamp("1970-01-01 00:00:01"), Timestamp { seconds: 1, nanos: 0 });
}

#[test]
fn unreadable_text_degrades_to_the_epoch() {
    for text in ["", "yesterday", "2023-11-14", "2023-13-40 99:99:99", "2023-11-14 22:13"] {
        assert_eq!(parse_timestamp(text), Timestamp { seconds: 0, nanos: 0 });
    }
}

#[test]
fn the_rfc3339_reading_wins_over_the_plain_one() {
    assert_eq!(
        timestamp_from(Some((5, 6)), Some((7, 8))),
        Timestamp { seconds: 5, nanos: 6 }
    );
    assert_eq!(timestamp_from(Some((5, 6)), None), Timestamp { seconds: 5, nanos: 6 });
    assert_eq!(timestamp_from(None, Some((7, 8))), Timestamp { seconds: 7, nanos: 8 });
    assert_eq!(timestamp_from(None, None), Timestamp { seconds: 0, nanos: 0 });
}

#[test]
fn instants_are_ordered_by_seconds_then_nanoseconds() {
    let early = Timestamp { seconds: 1, nanos: 900 };
    let late = Timestamp { seconds: 2, nanos: 0 };
    let later = Timestamp { seconds: 2, nanos: 1 };
    assert!(late.is_not_before(&early));
    assert!(!early.is_not_before(&late));
    assert!(later.is_not_before(&late));
    assert!(!late.is_not_before(&later));
    assert!(late.is_not_before(&late));
}
