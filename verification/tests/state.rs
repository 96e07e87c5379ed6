use clamendar::error::Error;
use clamendar::state::{Action, Confirm, Focus, State};
use clamendar::timestamp::Timestamp;
use clamendar::{Event, Interval};

fn cs(s: &str) -> Vec<char> {
    s.chars().collect()
}

fn ts(year: u16, month: u8, day: u8, hour: u8, minute: u8, second: u8) -> Timestamp {
    Timestamp { year, month, day, hour, minute, second }
}

fn timed(y: u16, mo: u8, d: u8, h: u8, mi: u8, desc: &str) -> Event {
    Event { start: Some(ts(y, mo, d, h, mi, 0)), interval: Interval::NoInterval, description: cs(desc) }
}

fn loaded() -> State {
    let mut s = State::default();
    s.insert_event(timed(2024, 1, 3, 9, 0, "third"));
    s.insert_event(timed(2024, 1, 1, 9, 0, "first"));
    s.insert_event(timed(2024, 1, 2, 9, 0, "second"));
    s
}

#[test]
fn default_state_is_empty_and_unfocused() {
    let s = State::default();
    assert!(s.buffer.is_empty());
    assert_eq!(s.cursor_offset, 0);
    assert_eq!(s.focus, Focus::Unfocused);
    assert!(s.intervals.is_empty() && s.timed.is_empty() && s.untimed.is_empty());
    assert_eq!(s.pending, Confirm::Inactive);
    assert_eq!(s.last_error, None);
    assert_eq!(s.status_label(), None);
}

#[test]
fn insert_event_classifies_and_sorts() {
    let mut s = State::default();
    s.insert_event(timed(2024, 1, 2, 9, 0, "b"));
    s.insert_event(Event {
        start: Some(ts(2024, 1, 1, 8, 0, 0)),
        interval: Interval::FixedSpan(ts(2024, 1, 1, 9, 0, 0)),
        description: cs("span"),
    });
    s.insert_event(Event { start: None, interval: Interval::NoInterval, description: cs("note") });
    s.insert_event(Event {
        start: Some(ts(2024, 1, 1, 7, 0, 0)),
        interval: Interval::RecurringCounted { occurrences: 2, end: ts(2024, 1, 1, 8, 0, 0) },
        description: cs("reps"),
    });
    // Spans go to the intervals pane; recurring kinds stay with plain times.
    assert_eq!(s.intervals.len(), 1);
    assert_eq!(s.timed.len(), 2);
    assert_eq!(s.untimed.len(), 1);
    // The timed pane is ordered by effective time: the recurrence ends at
    // 08:00, before the 09:00 entry.
    assert_eq!(s.timed[0].description, cs("reps"));
    assert_eq!(s.timed[1].description, cs("b"));
}

#[test]
fn focus_clamps_the_remembered_offset() {
    let mut s = loaded();
    s.timed_offset = 10;
    s.focus(Focus::Timed);
    assert_eq!(s.timed_selected, Some(2));
    s.focus(Focus::Unfocused);
    assert_eq!(s.timed_selected, None);
    assert_eq!(s.timed_offset, 10);
}

#[test]
fn focus_on_empty_pane_selects_nothing() {
    let mut s = State::default();
    s.focus(Focus::Untimed);
    assert_eq!(s.untimed_selected, None);
    assert_eq!(s.focus, Focus::Untimed);
}

#[test]
fn scrolling_stays_inside_the_pane() {
    let mut s = loaded();
    s.focus(Focus::Timed);
    assert_eq!(s.timed_selected, Some(0));
    s.scroll_up();
    assert_eq!(s.timed_selected, Some(0));
    s.scroll_down();
    s.scroll_down();
    assert_eq!(s.timed_selected, Some(2));
    s.scroll_down();
    assert_eq!(s.timed_selected, Some(2));
    assert_eq!(s.timed_offset, 2);
    s.scroll_up();
    assert_eq!(s.timed_selected, Some(1));
}

#[test]
fn scrolling_an_empty_pane_is_a_no_op() {
    let mut s = State::default();
    s.focus(Focus::Intervals);
    s.scroll_down();
    s.scroll_up();
    assert_eq!(s.intervals_selected, None);
    assert!(s.intervals.is_empty());
}

#[test]
fn delete_needs_two_requests() {
    let mut s = loaded();
    s.focus(Focus::Timed);
    s.scroll_down();
    assert_eq!(s.timed_selected, Some(1));
    s.delete_selected();
    assert_eq!(s.timed.len(), 3);
    assert_eq!(s.pending, Confirm::Delete);
    assert_eq!(s.status_label(), Some("delete-confirmation-pending"));
    s.delete_selected();
    assert_eq!(s.timed.len(), 2);
    assert_eq!(s.pending, Confirm::Inactive);
    assert_eq!(s.status_label(), None);
    assert_eq!(s.timed[0].description, cs("first"));
    assert_eq!(s.timed[1].description, cs("third"));
    assert_eq!(s.timed_selected, Some(1));
}

#[test]
fn escape_cancels_a_pending_delete() {
    let mut s = loaded();
    s.focus(Focus::Timed);
    s.delete_selected();
    assert_eq!(s.pending, Confirm::Delete);
    assert!(s.handle(Action::Escape));
    assert_eq!(s.pending, Confirm::Inactive);
    assert_eq!(s.timed.len(), 3);
    assert_eq!(s.focus, Focus::Timed);
    assert_eq!(s.timed_selected, Some(0));
}

#[test]
fn deleting_the_last_entry_clamps_the_selection() {
    let mut s = loaded();
    s.focus(Focus::Timed);
    s.scroll_down();
    s.scroll_down();
    assert_eq!(s.timed_selected, Some(2));
    s.delete_selected();
    s.delete_selected();
    assert_eq!(s.timed.len(), 2);
    assert_eq!(s.timed_selected, Some(1));
    s.delete_selected();
    s.delete_selected();
    s.delete_selected();
    s.delete_selected();
    assert_eq!(s.timed.len(), 0);
    assert_eq!(s.timed_selected, None);
}

#[test]
fn yank_moves_the_entry_into_the_buffer() {
    let mut s = loaded();
    s.focus(Focus::Timed);
    s.yank_selected();
    assert_eq!(s.pending, Confirm::Yank);
    assert_eq!(s.status_label(), Some("yank-confirmation-pending"));
    assert_eq!(s.timed.len(), 3);
    s.yank_selected();
    assert_eq!(s.timed.len(), 2);
    assert_eq!(s.buffer, cs("2024-01-01T09:00\tfirst"));
    assert_eq!(s.focus, Focus::InputAdd);
    assert_eq!(s.cursor_offset, s.buffer.len());
    assert_eq!(s.pending, Confirm::Inactive);
}

#[test]
fn delete_request_replaces_a_pending_yank() {
    let mut s = loaded();
    s.focus(Focus::Timed);
    s.yank_selected();
    s.delete_selected();
    assert_eq!(s.pending, Confirm::Delete);
    assert_eq!(s.timed.len(), 3);
}

#[test]
fn submit_recurring_entry_lands_in_the_timed_pane() {
    let mut s = State::default();
    s.focus(Focus::InputAdd);
    for c in "R3/2024-01-01T09:00/2024-01-01T10:00\tstand-up".chars() {
        assert!(s.handle(Action::Char(c)));
    }
    assert!(s.handle(Action::Enter));
    assert_eq!(s.last_error, None);
    assert_eq!(s.focus, Focus::Unfocused);
    assert!(s.buffer.is_empty());
    assert_eq!(s.intervals.len(), 0);
    assert_eq!(s.untimed.len(), 0);
    assert_eq!(s.timed.len(), 1);
    let e = &s.timed[0];
    assert_eq!(e.start, Some(ts(2024, 1, 1, 9, 0, 0)));
    assert_eq!(
        e.interval,
        Interval::RecurringCounted { occurrences: 3, end: ts(2024, 1, 1, 10, 0, 0) }
    );
    assert_eq!(e.description, cs("stand-up"));
}

#[test]
fn submit_failures_keep_the_buffer_and_report() {
    let mut s = State::default();
    s.focus(Focus::InputAdd);
    for c in "notabuffer".chars() {
        s.handle(Action::Char(c));
    }
    s.handle(Action::Enter);
    assert_eq!(s.last_error, Some(Error::InvalidRecord));
    assert_eq!(s.status_label(), Some("malformed-record-(missing-separator)"));
    assert_eq!(s.focus, Focus::Unfocused);
    assert_eq!(s.buffer, cs("notabuffer"));

    let mut s = State::default();
    s.focus(Focus::InputAdd);
    s.handle(Action::Char('\t'));
    s.handle(Action::Enter);
    assert_eq!(s.last_error, Some(Error::NoInformation));
    assert_eq!(s.status_label(), Some("nothing-to-add"));

    let mut s = State::default();
    s.focus(Focus::InputAdd);
    for c in "2024-13-01\tbad month".chars() {
        s.handle(Action::Char(c));
    }
    s.handle(Action::Enter);
    assert_eq!(s.last_error, Some(Error::InvalidTimestamp));
    assert_eq!(s.status_label(), Some("invalid-or-underspecified-timestamp"));
    assert_eq!(s.timed.len(), 0);
}

#[test]
fn editing_moves_the_cursor_and_text() {
    let mut s = State::default();
    s.focus(Focus::InputAdd);
    for c in "abd".chars() {
        s.handle(Action::Char(c));
    }
    s.handle(Action::CursorLeft);
    s.handle(Action::Char('c'));
    assert_eq!(s.buffer, cs("abcd"));
    s.handle(Action::CursorHome);
    s.handle(Action::DeleteForward);
    assert_eq!(s.buffer, cs("bcd"));
    s.handle(Action::CursorEnd);
    s.handle(Action::Backspace);
    assert_eq!(s.buffer, cs("bc"));
    assert_eq!(s.cursor_offset, 2);
}

#[test]
fn buffer_survives_a_failed_submission_and_reentry() {
    let mut s = State::default();
    s.focus(Focus::InputAdd);
    for c in "broken".chars() {
        s.handle(Action::Char(c));
    }
    s.handle(Action::Enter);
    assert_eq!(s.buffer, cs("broken"));
    s.handle(Action::Focus(Focus::InputAdd));
    assert_eq!(s.cursor_offset, 6);
    assert_eq!(s.buffer, cs("broken"));
}

#[test]
fn quit_changes_nothing_and_stops() {
    let mut s = loaded();
    s.focus(Focus::Timed);
    assert!(!s.handle(Action::Quit));
    assert_eq!(s.timed.len(), 3);
    assert_eq!(s.focus, Focus::Timed);
}

#[test]
fn take_all_flattens_in_pane_order() {
    let mut s = State::default();
    s.insert_event(timed(2024, 1, 2, 9, 0, "t"));
    s.insert_event(Event {
        start: Some(ts(2024, 1, 1, 8, 0, 0)),
        interval: Interval::FixedSpan(ts(2024, 1, 1, 9, 0, 0)),
        description: cs("i"),
    });
    s.insert_event(Event { start: None, interval: Interval::NoInterval, description: cs("u") });
    let all = s.take_all();
    assert_eq!(all.len(), 3);
    assert_eq!(all[0].description, cs("i"));
    assert_eq!(all[1].description, cs("t"));
    assert_eq!(all[2].description, cs("u"));
    assert!(s.intervals.is_empty() && s.timed.is_empty() && s.untimed.is_empty());
}

#[test]
fn yanked_entry_round_trips_through_submission() {
    let mut s = State::default();
    s.insert_event(timed(2024, 5, 6, 7, 30, "movable"));
    s.focus(Focus::Timed);
    s.yank_selected();
    s.yank_selected();
    assert_eq!(s.timed.len(), 0);
    assert_eq!(s.focus, Focus::InputAdd);
    s.handle(Action::Enter);
    assert_eq!(s.last_error, None);
    assert_eq!(s.timed.len(), 1);
    assert_eq!(s.timed[0], timed(2024, 5, 6, 7, 30, "movable"));
}

#[test]
fn submit_undated_entry_always_succeeds() {
    let mut s = State::default();
    s.focus(Focus::InputAdd);
    for c in "\tbuy milk".chars() {
        s.handle(Action::Char(c));
    }
    assert!(s.handle(Action::Enter));
    assert_eq!(s.last_error, None);
    assert!(s.buffer.is_empty());
    assert_eq!(s.untimed.len(), 1);
    assert_eq!(s.intervals.len(), 0);
    assert_eq!(s.timed.len(), 0);
    let e = &s.untimed[0];
    assert_eq!(e.start, None);
    assert_eq!(e.interval, Interval::NoInterval);
    assert_eq!(e.description, cs("buy milk"));
}
