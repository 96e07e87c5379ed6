use clamendar::timestamp::Timestamp;
use clamendar::{Event, Interval};
use core::cmp::Ordering;

fn cs(s: &str) -> Vec<char> {
    s.chars().collect()
}

fn ts(year: u16, month: u8, day: u8, hour: u8, minute: u8, second: u8) -> Timestamp {
    Timestamp { year, month, day, hour, minute, second }
}

fn timed(y: u16, mo: u8, d: u8, h: u8, mi: u8, desc: &str) -> Event {
    Event { start: Some(ts(y, mo, d, h, mi, 0)), interval: Interval::NoInterval, description: cs(desc) }
}

fn undated(desc: &str) -> Event {
    Event { start: None, interval: Interval::NoInterval, description: cs(desc) }
}

#[test]
fn compare_orders_chronologically() {
    let a = timed(2024, 1, 1, 9, 0, "later alphabet zzz");
    let b = timed(2024, 1, 2, 9, 0, "aaa");
    assert_eq!(Event::compare(&a, &b), Ordering::Less);
    assert_eq!(Event::compare(&b, &a), Ordering::Greater);
}

#[test]
fn compare_breaks_ties_by_description() {
    let a = timed(2024, 1, 1, 9, 0, "apple");
    let b = timed(2024, 1, 1, 9, 0, "banana");
    assert_eq!(Event::compare(&a, &b), Ordering::Less);
    assert_eq!(Event::compare(&b, &a), Ordering::Greater);
    assert_eq!(Event::compare(&a, &a), Ordering::Equal);
}

#[test]
fn compare_puts_undated_last() {
    let a = timed(9999, 12, 31, 23, 59, "very late");
    let b = undated("whenever");
    assert_eq!(Event::compare(&a, &b), Ordering::Less);
    assert_eq!(Event::compare(&b, &a), Ordering::Greater);
}

#[test]
fn compare_uses_interval_end_as_effective_time() {
    // A span that ends after a plain time sorts after it, whatever starts say.
    let plain = timed(2024, 1, 1, 12, 0, "noon");
    let span = Event {
        start: Some(ts(2024, 1, 1, 8, 0, 0)),
        interval: Interval::FixedSpan(ts(2024, 1, 1, 13, 0, 0)),
        description: cs("long morning"),
    };
    assert_eq!(Event::compare(&plain, &span), Ordering::Less);
    let counted = Event {
        start: Some(ts(2024, 1, 1, 8, 0, 0)),
        interval: Interval::RecurringCounted { occurrences: 5, end: ts(2024, 1, 1, 11, 0, 0) },
        description: cs("reps"),
    };
    assert_eq!(Event::compare(&counted, &plain), Ordering::Less);
}

#[test]
fn compare_is_transitive_on_a_sample() {
    let a = timed(2024, 1, 1, 9, 0, "a");
    let b = timed(2024, 1, 1, 9, 0, "b");
    let c = timed(2024, 1, 2, 9, 0, "a");
    assert_eq!(Event::compare(&a, &b), Ordering::Less);
    assert_eq!(Event::compare(&b, &c), Ordering::Less);
    assert_eq!(Event::compare(&a, &c), Ordering::Less);
}

#[test]
fn undated_is_always_upcoming() {
    for interval in [
        Interval::NoInterval,
        Interval::FixedSpan(ts(2000, 1, 1, 0, 0, 0)),
        Interval::RecurringIndefinite(ts(2000, 1, 1, 0, 0, 0)),
        Interval::RecurringCounted { occurrences: 0, end: ts(2000, 1, 1, 0, 0, 0) },
    ] {
        let e = Event { start: None, interval, description: cs("free") };
        assert!(e.is_upcoming());
    }
}

#[test]
fn upcoming_looks_at_the_start_only() {
    let far_future = timed(9999, 1, 1, 0, 0, "later");
    assert!(far_future.is_upcoming());
    let long_past = timed(2000, 1, 1, 0, 0, "earlier");
    assert!(!long_past.is_upcoming());
    // A span that began in the past is not upcoming, even with a far end.
    let begun = Event {
        start: Some(ts(2000, 1, 1, 0, 0, 0)),
        interval: Interval::FixedSpan(ts(9999, 1, 1, 0, 0, 0)),
        description: cs("running"),
    };
    assert!(!begun.is_upcoming());
}

#[test]
fn advance_shifts_one_period() {
    let s = ts(2024, 1, 1, 9, 0, 0);
    let t = ts(2024, 1, 1, 10, 0, 0);
    let mut e = Event {
        start: Some(s),
        interval: Interval::RecurringCounted { occurrences: 3, end: t },
        description: cs("stand-up"),
    };
    e.advance();
    assert_eq!(e.start, Some(t));
    assert_eq!(
        e.interval,
        Interval::RecurringCounted { occurrences: 2, end: ts(2024, 1, 1, 11, 0, 0) }
    );
    assert_eq!(e.description, cs("stand-up"));
}

#[test]
fn advance_crosses_calendar_boundaries() {
    let mut e = Event {
        start: Some(ts(2024, 2, 28, 12, 0, 0)),
        interval: Interval::RecurringIndefinite(ts(2024, 2, 29, 12, 0, 0)),
        description: cs("leap step"),
    };
    e.advance();
    assert_eq!(e.start, Some(ts(2024, 2, 29, 12, 0, 0)));
    assert_eq!(e.interval, Interval::RecurringIndefinite(ts(2024, 3, 1, 12, 0, 0)));
}

#[test]
fn advance_at_zero_is_exhausted() {
    let original = Event {
        start: Some(ts(2024, 1, 1, 9, 0, 0)),
        interval: Interval::RecurringCounted { occurrences: 0, end: ts(2024, 1, 1, 10, 0, 0) },
        description: cs("done"),
    };
    let mut e = original.clone();
    e.advance();
    assert_eq!(e, original);
}

#[test]
fn advance_leaves_one_shot_entries_alone() {
    let span = Event {
        start: Some(ts(2024, 1, 1, 9, 0, 0)),
        interval: Interval::FixedSpan(ts(2024, 1, 1, 10, 0, 0)),
        description: cs("once"),
    };
    let mut e = span.clone();
    e.advance();
    assert_eq!(e, span);
    let note = undated("note");
    let mut e = note.clone();
    e.advance();
    assert_eq!(e, note);
}
