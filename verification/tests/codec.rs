use clamendar::codec::{decode, event_to_record, timestamp_from_iso, end_time, start_time};
use clamendar::error::Error;
use clamendar::timestamp::Timestamp;
use clamendar::{Event, Interval};

fn cs(s: &str) -> Vec<char> {
    s.chars().collect()
}

fn ts(year: u16, month: u8, day: u8, hour: u8, minute: u8, second: u8) -> Timestamp {
    Timestamp { year, month, day, hour, minute, second }
}

#[test]
fn decode_recurring_counted() {
    let e = decode(&cs("R3/2024-01-01T09:00/2024-01-01T10:00\tstand-up")).unwrap();
    assert_eq!(e.start, Some(ts(2024, 1, 1, 9, 0, 0)));
    assert_eq!(
        e.interval,
        Interval::RecurringCounted { occurrences: 3, end: ts(2024, 1, 1, 10, 0, 0) }
    );
    assert_eq!(e.description, cs("stand-up"));
}

#[test]
fn decode_recurring_indefinite() {
    let e = decode(&cs("R/2024-03-05/2024-03-06\tweekly")).unwrap();
    assert_eq!(e.start, Some(ts(2024, 3, 5, 0, 0, 0)));
    assert_eq!(e.interval, Interval::RecurringIndefinite(ts(2024, 3, 6, 0, 0, 0)));
}

#[test]
fn decode_fixed_span() {
    let e = decode(&cs("2024-01-02T08:30/2024-01-02T09:45\tmeeting")).unwrap();
    assert_eq!(e.start, Some(ts(2024, 1, 2, 8, 30, 0)));
    assert_eq!(e.interval, Interval::FixedSpan(ts(2024, 1, 2, 9, 45, 0)));
}

#[test]
fn decode_plain_time_with_seconds() {
    let e = decode(&cs("2024-06-30T23:59:58\tcountdown")).unwrap();
    assert_eq!(e.start, Some(ts(2024, 6, 30, 23, 59, 58)));
    assert_eq!(e.interval, Interval::NoInterval);
}

#[test]
fn decode_undated() {
    let e = decode(&cs("\tbuy milk")).unwrap();
    assert_eq!(e.start, None);
    assert_eq!(e.interval, Interval::NoInterval);
    assert_eq!(e.description, cs("buy milk"));
}

#[test]
fn decode_trims_description() {
    let e = decode(&cs("\t  spaced out  ")).unwrap();
    assert_eq!(e.description, cs("spaced out"));
}

#[test]
fn decode_without_tab_is_invalid_record() {
    assert_eq!(decode(&cs("notabuffer")), Err(Error::InvalidRecord));
    assert_eq!(decode(&cs("")), Err(Error::InvalidRecord));
}

#[test]
fn decode_lone_tab_is_no_information() {
    assert_eq!(decode(&cs("\t")), Err(Error::NoInformation));
    assert_eq!(decode(&cs("\t   ")), Err(Error::NoInformation));
}

#[test]
fn decode_bad_month_is_invalid_timestamp() {
    assert_eq!(decode(&cs("2024-13-01\tbad month")), Err(Error::InvalidTimestamp));
}

#[test]
fn decode_rejects_impossible_days() {
    assert_eq!(decode(&cs("2023-02-29\tno leap")), Err(Error::InvalidTimestamp));
    assert!(decode(&cs("2024-02-29\tleap")).is_ok());
    assert_eq!(decode(&cs("2024-04-31\tshort month")), Err(Error::InvalidTimestamp));
}

#[test]
fn decode_rejects_bad_recurrence_counts() {
    assert_eq!(
        decode(&cs("R3x/2024-01-01/2024-01-02\tjunk count")),
        Err(Error::InvalidInterval)
    );
    assert_eq!(decode(&cs("X/2024-01-01/2024-01-02\tno prefix")), Err(Error::InvalidInterval));
    assert_eq!(
        decode(&cs("R+3/2024-01-01/2024-01-02\tsigned count")),
        Err(Error::InvalidInterval)
    );
}

#[test]
fn decode_rejects_extra_tokens() {
    assert_eq!(
        decode(&cs("R3/2024-01-01/2024-01-02/junk\tfour parts")),
        Err(Error::InvalidInterval)
    );
}

#[test]
fn decode_rejects_non_numeric_fields() {
    assert_eq!(decode(&cs("2024-aa-01\tletters")), Err(Error::InvalidInterval));
    assert_eq!(decode(&cs("2024-01\ttoo short")), Err(Error::InvalidInterval));
    assert_eq!(decode(&cs("99999999999999999999-01-01\thuge year")), Err(Error::InvalidInterval));
}

#[test]
fn decode_rejects_years_beyond_range() {
    assert_eq!(decode(&cs("10000-01-01\tfar off")), Err(Error::InvalidTimestamp));
}

#[test]
fn timestamp_token_defaults_missing_fields_to_zero() {
    let t = timestamp_from_iso(&cs("2024-05-06T07")).unwrap();
    assert_eq!(t, ts(2024, 5, 6, 7, 0, 0));
    let t = timestamp_from_iso(&cs("2024-5-6")).unwrap();
    assert_eq!(t, ts(2024, 5, 6, 0, 0, 0));
}

#[test]
fn encode_recurring_counted() {
    let e = Event {
        start: Some(ts(2024, 1, 1, 9, 0, 0)),
        interval: Interval::RecurringCounted { occurrences: 3, end: ts(2024, 1, 1, 10, 0, 0) },
        description: cs("stand-up"),
    };
    assert_eq!(event_to_record(&e), cs("R3/2024-01-01T09:00/2024-01-01T10:00\tstand-up"));
}

#[test]
fn encode_undated() {
    let e = Event { start: None, interval: Interval::NoInterval, description: cs("note") };
    assert_eq!(event_to_record(&e), cs("\tnote"));
}

#[test]
fn encode_pads_fields() {
    let e = Event {
        start: Some(ts(33, 2, 3, 4, 5, 0)),
        interval: Interval::NoInterval,
        description: cs("early"),
    };
    assert_eq!(event_to_record(&e), cs("0033-02-03T04:05\tearly"));
}

#[test]
fn round_trip_truncates_to_minutes() {
    let e = Event {
        start: Some(ts(2024, 1, 1, 9, 30, 45)),
        interval: Interval::FixedSpan(ts(2024, 1, 1, 10, 15, 59)),
        description: cs("span"),
    };
    let back = decode(&event_to_record(&e)).unwrap();
    assert_eq!(back.start, Some(ts(2024, 1, 1, 9, 30, 0)));
    assert_eq!(back.interval, Interval::FixedSpan(ts(2024, 1, 1, 10, 15, 0)));
    assert_eq!(back.description, cs("span"));
}

#[test]
fn round_trip_all_shapes() {
    let shapes = vec![
        Event { start: None, interval: Interval::NoInterval, description: cs("undated") },
        Event {
            start: Some(ts(2024, 7, 8, 0, 0, 0)),
            interval: Interval::NoInterval,
            description: cs("timed"),
        },
        Event {
            start: Some(ts(2024, 7, 8, 1, 2, 0)),
            interval: Interval::FixedSpan(ts(2024, 7, 9, 3, 4, 0)),
            description: cs("span"),
        },
        Event {
            start: Some(ts(2024, 7, 8, 1, 2, 0)),
            interval: Interval::RecurringIndefinite(ts(2024, 7, 9, 3, 4, 0)),
            description: cs("forever"),
        },
        Event {
            start: Some(ts(2024, 7, 8, 1, 2, 0)),
            interval: Interval::RecurringCounted { occurrences: 12, end: ts(2024, 7, 9, 3, 4, 0) },
            description: cs("a dozen"),
        },
    ];
    for e in shapes {
        let back = decode(&event_to_record(&e)).unwrap();
        assert_eq!(back, e);
    }
}

#[test]
fn time_labels_follow_midnight_rule() {
    let dated = Event {
        start: Some(ts(2024, 3, 4, 0, 0, 0)),
        interval: Interval::FixedSpan(ts(2024, 3, 5, 16, 30, 0)),
        description: cs("x"),
    };
    assert_eq!(start_time(&dated), Some(cs("03-04")));
    assert_eq!(end_time(&dated), Some(cs("03-05 16:30")));
    let undated = Event { start: None, interval: Interval::NoInterval, description: cs("y") };
    assert_eq!(start_time(&undated), None);
    assert_eq!(end_time(&undated), None);
}

#[test]
fn decode_ignores_fields_past_the_sixth() {
    let e = decode(&cs("2024-01-01T09:00:00:99\textra field")).unwrap();
    assert_eq!(e.start, Some(ts(2024, 1, 1, 9, 0, 0)));
}

#[test]
fn decode_rejects_recurrence_counts_beyond_range() {
    assert_eq!(
        decode(&cs("R99999999999999999999999/2024-01-01/2024-01-02\ttoo many")),
        Err(Error::InvalidInterval)
    );
}

#[test]
fn decode_accepts_leading_zeros() {
    let e = decode(&cs("002024-0001-01\tzero padded")).unwrap();
    assert_eq!(e.start, Some(ts(2024, 1, 1, 0, 0, 0)));
}

#[test]
fn encode_recurring_indefinite() {
    let e = Event {
        start: Some(ts(2024, 1, 1, 9, 0, 0)),
        interval: Interval::RecurringIndefinite(ts(2024, 1, 1, 10, 0, 0)),
        description: cs("forever"),
    };
    assert_eq!(event_to_record(&e), cs("R/2024-01-01T09:00/2024-01-01T10:00\tforever"));
}

#[test]
fn decode_rejects_time_out_of_range() {
    assert_eq!(decode(&cs("2024-01-01T24:00\tlate")), Err(Error::InvalidTimestamp));
    assert_eq!(decode(&cs("2024-01-01T10:60\tlate")), Err(Error::InvalidTimestamp));
    assert_eq!(decode(&cs("2024-01-01T10:00:60\tlate")), Err(Error::InvalidTimestamp));
    assert_eq!(decode(&cs("2024-00-01\tmonth zero")), Err(Error::InvalidTimestamp));
    assert_eq!(decode(&cs("2024-01-00\tday zero")), Err(Error::InvalidTimestamp));
}

#[test]
fn decode_trims_unicode_whitespace() {
    let e = decode(&cs("\t\u{a0}\u{2003}padded\u{a0}")).unwrap();
    assert_eq!(e.description, cs("padded"));
    // Whitespace inside the description stays.
    let e = decode(&cs("\ta\u{2003}b")).unwrap();
    assert_eq!(e.description, cs("a\u{2003}b"));
}
