use crate::error::Error;
use crate::{
    lemma_compare_antisymmetric, lemma_compare_transitive, spec_compare, Event, EventV, Interval,
};
use core::cmp::Ordering;
use vstd::prelude::*;

verus! {

/// Which part of the interface the next input goes to.
#[derive(Clone, Copy, Debug, PartialEq, Eq, Structural)]
pub enum Focus {
    /// The single-line edit buffer.
    InputAdd,
    /// The pane of one-shot spans.
    Intervals,
    /// The pane of plainly timed and recurring entries.
    Timed,
    /// The pane of undated entries.
    Untimed,
    /// No part is focused.
    Unfocused,
}

/// The two-step confirmation marker for destructive actions.
#[derive(Clone, Copy, Debug, PartialEq, Eq, Structural)]
pub enum Confirm {
    /// Nothing awaits confirmation.
    Inactive,
    /// A repeated delete request will remove the selected entry.
    Delete,
    /// A repeated yank request will move the selected entry into the buffer.
    Yank,
}

/// One decoded logical input.
#[derive(Clone, Copy, Debug, PartialEq, Eq, Structural)]
pub enum Action {
    /// Type one character into the buffer.
    Char(char),
    /// Delete the character before the cursor.
    Backspace,
    /// Delete the character at the cursor.
    DeleteForward,
    /// Move the cursor one place left.
    CursorLeft,
    /// Move the cursor one place right.
    CursorRight,
    /// Jump the cursor to the start of the buffer.
    CursorHome,
    /// Jump the cursor to the end of the buffer.
    CursorEnd,
    /// Submit the buffer.
    Enter,
    /// Cancel a pending confirmation, or step out of the focused part.
    Escape,
    /// Move the pane selection up.
    ScrollUp,
    /// Move the pane selection down.
    ScrollDown,
    /// Give focus to a pane, the buffer, or nothing.
    Focus(Focus),
    /// Ask to delete the selected entry (twice to confirm).
    DeleteRequest,
    /// Ask to yank the selected entry into the buffer (twice to confirm).
    YankRequest,
    /// End the session.
    Quit,
}

/// The whole navigation and editing state: the three panes with their
/// selections and remembered offsets, the edit buffer with its cursor, the
/// confirmation marker, and the failure to display.
pub struct State {
    pub buffer: Vec<char>,
    pub cursor_offset: usize,
    pub focus: Focus,
    pub intervals: Vec<Event>,
    pub intervals_offset: usize,
    pub intervals_selected: Option<usize>,
    pub last_error: Option<Error>,
    pub pending: Confirm,
    pub timed: Vec<Event>,
    pub timed_offset: usize,
    pub timed_selected: Option<usize>,
    pub untimed: Vec<Event>,
    pub untimed_offset: usize,
    pub untimed_selected: Option<usize>,
}

/// The mathematical value of a `State`.
#[verifier::ext_equal]
pub ghost struct StateV {
    pub buffer: Seq<char>,
    pub cursor: int,
    pub focus: Focus,
    pub intervals: Seq<EventV>,
    pub intervals_offset: int,
    pub intervals_selected: Option<int>,
    pub last_error: Option<Error>,
    pub pending: Confirm,
    pub timed: Seq<EventV>,
    pub timed_offset: int,
    pub timed_selected: Option<int>,
    pub untimed: Seq<EventV>,
    pub untimed_offset: int,
    pub untimed_selected: Option<int>,
}

/// The view of a pane's entries.
pub open spec fn spec_pane_view(v: &Vec<Event>) -> Seq<EventV> {
    v@.map_values(|e: Event| e@)
}

impl View for State {
    type V = StateV;

    open spec fn view(&self) -> StateV {
        StateV {
            buffer: self.buffer@,
            cursor: self.cursor_offset as int,
            focus: self.focus,
            intervals: spec_pane_view(&self.intervals),
            intervals_offset: self.intervals_offset as int,
            intervals_selected: match self.intervals_selected {
                None => None,
                Some(i) => Some(i as int),
            },
            last_error: self.last_error,
            pending: self.pending,
            timed: spec_pane_view(&self.timed),
            timed_offset: self.timed_offset as int,
            timed_selected: match self.timed_selected {
                None => None,
                Some(i) => Some(i as int),
            },
            untimed: spec_pane_view(&self.untimed),
            untimed_offset: self.untimed_offset as int,
            untimed_selected: match self.untimed_selected {
                None => None,
                Some(i) => Some(i as int),
            },
        }
    }
}

// ---------------------------------------------------------------------------
// Order and well-formedness of panes
// ---------------------------------------------------------------------------

/// The entries stand in the total order, earlier ones never after later
/// ones.
pub open spec fn spec_sorted(s: Seq<EventV>) -> bool {
    forall|i: int, j: int|
        0 <= i < j < s.len() ==> spec_compare(s[i], s[j]) != Ordering::Greater
}

/// Every entry of the pane carries valid timestamps.
pub open spec fn spec_events_wf(s: Seq<EventV>) -> bool {
    forall|i: int| 0 <= i < s.len() ==> s[i].wf()
}

/// The selection a pane may carry: only while focused, only on a nonempty
/// pane, and always in range.
pub open spec fn spec_sel_wf(focused: bool, sel: Option<int>, len: int) -> bool {
    if focused {
        &&& (sel is Some <==> len > 0)
        &&& (sel matches Some(i) ==> 0 <= i < len)
    } else {
        sel is None
    }
}

impl StateV {
    /// The state's invariant: cursor inside the buffer, panes sorted and
    /// valid, selections lawful for the current focus.
    pub open spec fn wf(self) -> bool {
        &&& 0 <= self.cursor <= self.buffer.len()
        &&& spec_sorted(self.intervals) && spec_events_wf(self.intervals)
        &&& spec_sorted(self.timed) && spec_events_wf(self.timed)
        &&& spec_sorted(self.untimed) && spec_events_wf(self.untimed)
        &&& spec_sel_wf(
            self.focus == Focus::Intervals,
            self.intervals_selected,
            self.intervals.len() as int,
        )
        &&& spec_sel_wf(self.focus == Focus::Timed, self.timed_selected, self.timed.len() as int)
        &&& spec_sel_wf(
            self.focus == Focus::Untimed,
            self.untimed_selected,
            self.untimed.len() as int,
        )
        &&& 0 <= self.intervals_offset
        &&& 0 <= self.timed_offset
        &&& 0 <= self.untimed_offset
    }
}

// ---------------------------------------------------------------------------
// Sorted insertion
// ---------------------------------------------------------------------------

/// Where a new entry goes: after every entry not ordered after it, so equal
/// ranks keep their insertion order.
pub open spec fn spec_insert_pos(s: Seq<EventV>, e: EventV) -> int
    decreases s.len(),
{
    if s.len() == 0 {
        0
    } else if spec_compare(s[0], e) == Ordering::Greater {
        0
    } else {
        1 + spec_insert_pos(s.drop_first(), e)
    }
}

/// The pane with a new entry at its ordered position.
pub open spec fn spec_insert_sorted(s: Seq<EventV>, e: EventV) -> Seq<EventV> {
    s.insert(spec_insert_pos(s, e), e)
}

/// The insertion position is the first place held by a strictly later
/// entry.
pub proof fn lemma_insert_pos_props(s: Seq<EventV>, e: EventV)
    ensures
        0 <= spec_insert_pos(s, e) <= s.len(),
        forall|j: int|
            0 <= j < spec_insert_pos(s, e) ==> spec_compare(s[j], e) != Ordering::Greater,
        spec_insert_pos(s, e) < s.len() ==> spec_compare(s[spec_insert_pos(s, e)], e)
            == Ordering::Greater,
    decreases s.len(),
{
    if s.len() > 0 && spec_compare(s[0], e) != Ordering::Greater {
        lemma_insert_pos_props(s.drop_first(), e);
        let p = spec_insert_pos(s, e);
        assert forall|j: int| 0 <= j < p implies spec_compare(s[j], e) != Ordering::Greater by {
            if j > 0 {
                assert(s.drop_first()[j - 1] == s[j]);
            }
        }
        if p < s.len() {
            assert(s.drop_first()[p - 1] == s[p]);
        }
    }
}

/// Inserting at the ordered position keeps a sorted, valid pane sorted and
/// valid, and adds exactly the new entry.
pub proof fn lemma_insert_sorted(s: Seq<EventV>, e: EventV)
    requires
        spec_sorted(s),
        spec_events_wf(s),
        e.wf(),
    ensures
        spec_sorted(spec_insert_sorted(s, e)),
        spec_events_wf(spec_insert_sorted(s, e)),
        spec_insert_sorted(s, e).len() == s.len() + 1,
{
    let p = spec_insert_pos(s, e);
    let t = spec_insert_sorted(s, e);
    lemma_insert_pos_props(s, e);
    assert forall|i: int, j: int|
        0 <= i < j < t.len() implies spec_compare(t[i], t[j]) != Ordering::Greater by {
        if i < p && j < p {
            assert(t[i] == s[i] && t[j] == s[j]);
        } else if i < p && j == p {
            assert(t[i] == s[i] && t[j] == e);
        } else if i < p && j > p {
            assert(t[i] == s[i] && t[j] == s[j - 1]);
        } else if i == p && j > p {
            assert(t[i] == e && t[j] == s[j - 1]);
            if p < s.len() {
                lemma_compare_antisymmetric(s[p], e);
                if j - 1 > p {
                    lemma_compare_transitive(e, s[p], s[j - 1]);
                }
            }
        } else {
            assert(t[i] == s[i - 1] && t[j] == s[j - 1]);
        }
    }
    assert forall|i: int| 0 <= i < t.len() implies t[i].wf() by {
        if i < p {
            assert(t[i] == s[i]);
        } else if i == p {
            assert(t[i] == e);
        } else {
            assert(t[i] == s[i - 1]);
        }
    }
}

/// Inserts an entry into a pane at its ordered position.
fn insert_sorted(v: &mut Vec<Event>, e: Event)
    requires
        spec_sorted(spec_pane_view(old(v))),
        spec_events_wf(spec_pane_view(old(v))),
        e@.wf(),
    ensures
        spec_pane_view(final(v)) == spec_insert_sorted(spec_pane_view(old(v)), e@),
        spec_sorted(spec_pane_view(final(v))),
        spec_events_wf(spec_pane_view(final(v))),
        final(v)@.len() == old(v)@.len() + 1,
{
    let ghost s = spec_pane_view(v);
    let ghost pos = spec_insert_pos(s, e@);
    proof {
        lemma_insert_pos_props(s, e@);
        lemma_insert_sorted(s, e@);
        assert(s.len() == v@.len());
    }
    let idx = find_insert_pos(v, &e);
    v.insert(idx, e);
    proof {
        assert(spec_pane_view(v) =~= s.insert(pos, e@));
    }
}

/// Finds the ordered position for a new entry.
fn find_insert_pos(v: &Vec<Event>, e: &Event) -> (r: usize)
    requires
        spec_events_wf(spec_pane_view(v)),
        e@.wf(),
    ensures
        r == spec_insert_pos(spec_pane_view(v), e@),
{
    let ghost s = spec_pane_view(v);
    let ghost pos = spec_insert_pos(s, e@);
    proof {
        lemma_insert_pos_props(s, e@);
    }
    let mut idx: usize = 0;
    while idx < v.len()
        invariant
            0 <= idx <= v@.len(),
            s == spec_pane_view(v),
            pos == spec_insert_pos(s, e@),
            spec_events_wf(s),
            e@.wf(),
            idx <= pos,
            forall|j: int| 0 <= j < idx ==> spec_compare(s[j], e@) != Ordering::Greater,
        decreases v@.len() - idx,
    {
        proof {
            lemma_insert_pos_props(s, e@);
            assert(s[idx as int] == v@[idx as int]@);
            assert(s[idx as int].wf());
        }
        let c = Event::compare(&v[idx], e);
        let stop = match c {
            Ordering::Greater => true,
            _ => false,
        };
        if stop {
            proof {
                if (idx as int) < pos {
                    assert(spec_compare(s[idx as int], e@) != Ordering::Greater);
                }
            }
            return idx;
        }
        proof {
            if (idx as int) == pos {
                assert(pos < s.len() ==> spec_compare(s[pos], e@) == Ordering::Greater);
            }
        }
        idx = idx + 1;
    }
    proof {
        if pos < s.len() {
            assert(spec_compare(s[pos], e@) != Ordering::Greater);
            assert(spec_compare(s[pos], e@) == Ordering::Greater);
        }
    }
    idx
}

// ---------------------------------------------------------------------------
// The transitions, as mathematical functions
// ---------------------------------------------------------------------------

/// The pane a new entry belongs to: undated entries to the undated pane,
/// one-shot spans to the intervals pane, and everything else — plain times
/// and both recurring kinds — to the timed pane.
pub open spec fn spec_classify(e: EventV) -> Focus {
    if e.start is None {
        Focus::Untimed
    } else if e.interval is FixedSpan {
        Focus::Intervals
    } else {
        Focus::Timed
    }
}

/// The selection a pane receives on gaining focus: the remembered offset,
/// clamped into range, or none for an empty pane.
pub open spec fn spec_clamped_sel(offset: int, len: int) -> Option<int> {
    if len == 0 {
        None
    } else if offset < len {
        Some(offset)
    } else {
        Some(len - 1)
    }
}

impl StateV {
    /// The state with no pane selection anywhere.
    pub open spec fn with_cleared_selections(self) -> StateV {
        StateV {
            intervals_selected: None,
            timed_selected: None,
            untimed_selected: None,
            ..self
        }
    }
}

/// Giving focus to `target`: the old selection goes away; a pane gains the
/// clamped remembered offset as its selection; the buffer gains the cursor
/// at its end.
pub open spec fn spec_enter_focus(v: StateV, target: Focus) -> StateV {
    let c = v.with_cleared_selections();
    match target {
        Focus::InputAdd => StateV { focus: target, cursor: c.buffer.len() as int, ..c },
        Focus::Intervals => StateV {
            focus: target,
            intervals_selected: spec_clamped_sel(c.intervals_offset, c.intervals.len() as int),
            ..c
        },
        Focus::Timed => StateV {
            focus: target,
            timed_selected: spec_clamped_sel(c.timed_offset, c.timed.len() as int),
            ..c
        },
        Focus::Untimed => StateV {
            focus: target,
            untimed_selected: spec_clamped_sel(c.untimed_offset, c.untimed.len() as int),
            ..c
        },
        Focus::Unfocused => StateV { focus: target, ..c },
    }
}

/// Scrolling down: the focused pane's selection moves one entry later,
/// never past the end, and the remembered offset follows it.
pub open spec fn spec_scroll_down(v: StateV) -> StateV {
    match v.focus {
        Focus::Intervals => match v.intervals_selected {
            Some(i) => if i + 1 < v.intervals.len() {
                StateV { intervals_selected: Some(i + 1), intervals_offset: i + 1, ..v }
            } else {
                v
            },
            None => v,
        },
        Focus::Timed => match v.timed_selected {
            Some(i) => if i + 1 < v.timed.len() {
                StateV { timed_selected: Some(i + 1), timed_offset: i + 1, ..v }
            } else {
                v
            },
            None => v,
        },
        Focus::Untimed => match v.untimed_selected {
            Some(i) => if i + 1 < v.untimed.len() {
                StateV { untimed_selected: Some(i + 1), untimed_offset: i + 1, ..v }
            } else {
                v
            },
            None => v,
        },
        _ => v,
    }
}

/// Scrolling up: the focused pane's selection moves one entry earlier,
/// never before the first, and the remembered offset follows it.
pub open spec fn spec_scroll_up(v: StateV) -> StateV {
    match v.focus {
        Focus::Intervals => match v.intervals_selected {
            Some(i) => if i > 0 {
                StateV { intervals_selected: Some(i - 1), intervals_offset: i - 1, ..v }
            } else {
                v
            },
            None => v,
        },
        Focus::Timed => match v.timed_selected {
            Some(i) => if i > 0 {
                StateV { timed_selected: Some(i - 1), timed_offset: i - 1, ..v }
            } else {
                v
            },
            None => v,
        },
        Focus::Untimed => match v.untimed_selected {
            Some(i) => if i > 0 {
                StateV { untimed_selected: Some(i - 1), untimed_offset: i - 1, ..v }
            } else {
                v
            },
            None => v,
        },
        _ => v,
    }
}

/// The selection after the entry at `i` left a pane now `len` long: the
/// same place, clamped to the shrunken pane.
pub open spec fn spec_sel_after_remove(i: int, len: int) -> Option<int> {
    if len == 0 {
        None
    } else if i < len {
        Some(i)
    } else {
        Some(len - 1)
    }
}

/// A delete request: the first sets the marker and changes nothing else; a
/// second removes exactly the selected entry and clears the marker. With
/// the marker set but no pane focused, only the marker is cleared.
pub open spec fn spec_delete(v: StateV) -> StateV {
    if v.pending == Confirm::Delete {
        let v2 = StateV { pending: Confirm::Inactive, ..v };
        match v.focus {
            Focus::Intervals => match v.intervals_selected {
                Some(i) => if 0 <= i < v.intervals.len() {
                    let p = v.intervals.remove(i);
                    StateV {
                        intervals: p,
                        intervals_selected: spec_sel_after_remove(i, p.len() as int),
                        pending: Confirm::Inactive,
                        ..v
                    }
                } else {
                    v2
                },
                None => v2,
            },
            Focus::Timed => match v.timed_selected {
                Some(i) => if 0 <= i < v.timed.len() {
                    let p = v.timed.remove(i);
                    StateV {
                        timed: p,
                        timed_selected: spec_sel_after_remove(i, p.len() as int),
                        pending: Confirm::Inactive,
                        ..v
                    }
                } else {
                    v2
                },
                None => v2,
            },
            Focus::Untimed => match v.untimed_selected {
                Some(i) => if 0 <= i < v.untimed.len() {
                    let p = v.untimed.remove(i);
                    StateV {
                        untimed: p,
                        untimed_selected: spec_sel_after_remove(i, p.len() as int),
                        pending: Confirm::Inactive,
                        ..v
                    }
                } else {
                    v2
                },
                None => v2,
            },
            _ => v2,
        }
    } else {
        match v.focus {
            Focus::Intervals | Focus::Timed | Focus::Untimed => StateV {
                pending: Confirm::Delete,
                ..v
            },
            _ => v,
        }
    }
}

/// A yank request: the first sets the marker; a second removes the selected
/// entry, loads its rendering into the buffer, and switches to editing.
/// With the marker set but no pane focused, only the marker is cleared.
pub open spec fn spec_yank(v: StateV) -> StateV {
    if v.pending == Confirm::Yank {
        let v2 = StateV { pending: Confirm::Inactive, ..v };
        match v.focus {
            Focus::Intervals => match v.intervals_selected {
                Some(i) => if 0 <= i < v.intervals.len() {
                    let v3 = StateV {
                        intervals: v.intervals.remove(i),
                        buffer: crate::codec::spec_encode(v.intervals[i]),
                        pending: Confirm::Inactive,
                        ..v
                    };
                    spec_enter_focus(v3, Focus::InputAdd)
                } else {
                    v2
                },
                None => v2,
            },
            Focus::Timed => match v.timed_selected {
                Some(i) => if 0 <= i < v.timed.len() {
                    let v3 = StateV {
                        timed: v.timed.remove(i),
                        buffer: crate::codec::spec_encode(v.timed[i]),
                        pending: Confirm::Inactive,
                        ..v
                    };
                    spec_enter_focus(v3, Focus::InputAdd)
                } else {
                    v2
                },
                None => v2,
            },
            Focus::Untimed => match v.untimed_selected {
                Some(i) => if 0 <= i < v.untimed.len() {
                    let v3 = StateV {
                        untimed: v.untimed.remove(i),
                        buffer: crate::codec::spec_encode(v.untimed[i]),
                        pending: Confirm::Inactive,
                        ..v
                    };
                    spec_enter_focus(v3, Focus::InputAdd)
                } else {
                    v2
                },
                None => v2,
            },
            _ => v2,
        }
    } else {
        match v.focus {
            Focus::Intervals | Focus::Timed | Focus::Untimed => StateV {
                pending: Confirm::Yank,
                ..v
            },
            _ => v,
        }
    }
}

/// Typing one character at the cursor.
pub open spec fn spec_insert_char(v: StateV, c: char) -> StateV {
    StateV { buffer: v.buffer.insert(v.cursor, c), cursor: v.cursor + 1, ..v }
}

/// Deleting the character before the cursor; at the start, nothing.
pub open spec fn spec_backspace(v: StateV) -> StateV {
    if v.cursor > 0 {
        StateV { buffer: v.buffer.remove(v.cursor - 1), cursor: v.cursor - 1, ..v }
    } else {
        v
    }
}

/// Deleting the character at the cursor; at the end, nothing.
pub open spec fn spec_delete_forward(v: StateV) -> StateV {
    if v.cursor < v.buffer.len() {
        StateV { buffer: v.buffer.remove(v.cursor), ..v }
    } else {
        v
    }
}

/// The cursor at the start of the buffer.
pub open spec fn spec_cursor_home(v: StateV) -> StateV {
    StateV { cursor: 0, ..v }
}

/// The cursor at the end of the buffer.
pub open spec fn spec_cursor_end(v: StateV) -> StateV {
    StateV { cursor: v.buffer.len() as int, ..v }
}

/// The cursor one place left, clamped.
pub open spec fn spec_cursor_left(v: StateV) -> StateV {
    if v.cursor > 0 {
        StateV { cursor: v.cursor - 1, ..v }
    } else {
        v
    }
}

/// The cursor one place right, clamped.
pub open spec fn spec_cursor_right(v: StateV) -> StateV {
    if v.cursor < v.buffer.len() {
        StateV { cursor: v.cursor + 1, ..v }
    } else {
        v
    }
}

/// Escape: a set confirmation marker is cleared and nothing else moves;
/// otherwise a focused part is left, and with nothing focused the display
/// label is cleared.
pub open spec fn spec_escape(v: StateV) -> StateV {
    if v.pending != Confirm::Inactive {
        StateV { pending: Confirm::Inactive, ..v }
    } else if v.focus == Focus::Unfocused {
        StateV { last_error: None, ..v }
    } else {
        spec_enter_focus(v, Focus::Unfocused)
    }
}

/// A new entry in its pane, at its ordered position.
pub open spec fn spec_insert_event(v: StateV, ev: EventV) -> StateV {
    match spec_classify(ev) {
        Focus::Intervals => StateV { intervals: spec_insert_sorted(v.intervals, ev), ..v },
        Focus::Untimed => StateV { untimed: spec_insert_sorted(v.untimed, ev), ..v },
        _ => StateV { timed: spec_insert_sorted(v.timed, ev), ..v },
    }
}

/// A successful submission: the entry joins its pane and the buffer is
/// cleared.
pub open spec fn spec_commit(v: StateV, ev: EventV) -> StateV {
    let v2 = spec_insert_event(v, ev);
    StateV { buffer: Seq::empty(), cursor: 0, ..v2 }
}

/// What one non-submit input does to the state.
pub open spec fn spec_step(v: StateV, a: Action) -> StateV {
    match a {
        Action::Char(c) => if v.focus == Focus::InputAdd {
            spec_insert_char(v, c)
        } else {
            v
        },
        Action::Backspace => if v.focus == Focus::InputAdd {
            spec_backspace(v)
        } else {
            v
        },
        Action::DeleteForward => if v.focus == Focus::InputAdd {
            spec_delete_forward(v)
        } else {
            v
        },
        Action::CursorLeft => if v.focus == Focus::InputAdd {
            spec_cursor_left(v)
        } else {
            v
        },
        Action::CursorRight => if v.focus == Focus::InputAdd {
            spec_cursor_right(v)
        } else {
            v
        },
        Action::CursorHome => if v.focus == Focus::InputAdd {
            spec_cursor_home(v)
        } else {
            v
        },
        Action::CursorEnd => if v.focus == Focus::InputAdd {
            spec_cursor_end(v)
        } else {
            v
        },
        Action::Enter => v,
        Action::Escape => spec_escape(v),
        Action::ScrollUp => spec_scroll_up(v),
        Action::ScrollDown => spec_scroll_down(v),
        Action::Focus(t) => spec_enter_focus(v, t),
        Action::DeleteRequest => spec_delete(v),
        Action::YankRequest => spec_yank(v),
        Action::Quit => v,
    }
}

// ---------------------------------------------------------------------------
// The executable state machine
// ---------------------------------------------------------------------------

impl State {
    /// Jumps the cursor to the start of the buffer.
    pub fn cursor_beginning(&mut self)
        ensures
            final(self)@ == spec_cursor_home(old(self)@),
    {
        self.cursor_offset = 0;
    }

    /// Jumps the cursor to the end of the buffer.
    pub fn cursor_end(&mut self)
        ensures
            final(self)@ == spec_cursor_end(old(self)@),
    {
        self.cursor_offset = self.buffer.len();
    }

    /// Moves the cursor one place left, stopping at the start.
    pub fn cursor_left(&mut self)
        ensures
            final(self)@ == spec_cursor_left(old(self)@),
    {
        if self.cursor_offset > 0 {
            self.cursor_offset = self.cursor_offset - 1;
        }
    }

    /// Moves the cursor one place right, stopping at the end.
    pub fn cursor_right(&mut self)
        ensures
            final(self)@ == spec_cursor_right(old(self)@),
    {
        if self.cursor_offset < self.buffer.len() {
            self.cursor_offset = self.cursor_offset + 1;
        }
    }

    /// Types one character at the cursor.
    pub fn insert_char(&mut self, c: char)
        requires
            old(self)@.wf(),
        ensures
            final(self)@ == spec_insert_char(old(self)@, c),
            final(self)@.wf(),
    {
        self.buffer.insert(self.cursor_offset, c);
        let len = self.buffer.len();
        proof {
            assert(self.cursor_offset < len);
        }
        self.cursor_offset = self.cursor_offset + 1;
    }

    /// Deletes the character before the cursor; at the start, nothing.
    pub fn backspace(&mut self)
        requires
            old(self)@.wf(),
        ensures
            final(self)@ == spec_backspace(old(self)@),
            final(self)@.wf(),
    {
        if self.cursor_offset > 0 {
            self.cursor_offset = self.cursor_offset - 1;
            self.buffer.remove(self.cursor_offset);
        }
    }

    /// Deletes the character at the cursor; at the end, nothing.
    pub fn delete_forward(&mut self)
        requires
            old(self)@.wf(),
        ensures
            final(self)@ == spec_delete_forward(old(self)@),
            final(self)@.wf(),
    {
        if self.cursor_offset < self.buffer.len() {
            self.buffer.remove(self.cursor_offset);
        }
    }

    /// Moves focus to `target`, clearing the old pane selection and giving
    /// a newly focused pane its clamped remembered offset.
    pub fn focus(&mut self, target: Focus)
        requires
            old(self)@.wf(),
        ensures
            final(self)@ == spec_enter_focus(old(self)@, target),
            final(self)@.wf(),
    {
        self.intervals_selected = None;
        self.timed_selected = None;
        self.untimed_selected = None;
        match target {
            Focus::InputAdd => {
                self.cursor_offset = self.buffer.len();
            },
            Focus::Intervals => {
                if self.intervals.len() > 0 {
                    let off = if self.intervals_offset < self.intervals.len() {
                        self.intervals_offset
                    } else {
                        self.intervals.len() - 1
                    };
                    self.intervals_selected = Some(off);
                }
            },
            Focus::Timed => {
                if self.timed.len() > 0 {
                    let off = if self.timed_offset < self.timed.len() {
                        self.timed_offset
                    } else {
                        self.timed.len() - 1
                    };
                    self.timed_selected = Some(off);
                }
            },
            Focus::Untimed => {
                if self.untimed.len() > 0 {
                    let off = if self.untimed_offset < self.untimed.len() {
                        self.untimed_offset
                    } else {
                        self.untimed.len() - 1
                    };
                    self.untimed_selected = Some(off);
                }
            },
            Focus::Unfocused => {},
        }
        self.focus = target;
    }

    /// Moves the selection of the focused pane one entry later.
    pub fn scroll_down(&mut self)
        requires
            old(self)@.wf(),
        ensures
            final(self)@ == spec_scroll_down(old(self)@),
            final(self)@.wf(),
    {
        match self.focus {
            Focus::Intervals => match self.intervals_selected {
                Some(selected) => {
                    let len = self.intervals.len();
                    proof {
                        assert(selected < len);
                    }
                    if selected + 1 < len {
                        self.intervals_offset = selected + 1;
                        self.intervals_selected = Some(selected + 1);
                    }
                },
                None => {},
            },
            Focus::Timed => match self.timed_selected {
                Some(selected) => {
                    let len = self.timed.len();
                    proof {
                        assert(selected < len);
                    }
                    if selected + 1 < len {
                        self.timed_offset = selected + 1;
                        self.timed_selected = Some(selected + 1);
                    }
                },
                None => {},
            },
            Focus::Untimed => match self.untimed_selected {
                Some(selected) => {
                    let len = self.untimed.len();
                    proof {
                        assert(selected < len);
                    }
                    if selected + 1 < len {
                        self.untimed_offset = selected + 1;
                        self.untimed_selected = Some(selected + 1);
                    }
                },
                None => {},
            },
            _ => {},
        }
    }

    /// Moves the selection of the focused pane one entry earlier.
    pub fn scroll_up(&mut self)
        requires
            old(self)@.wf(),
        ensures
            final(self)@ == spec_scroll_up(old(self)@),
            final(self)@.wf(),
    {
        match self.focus {
            Focus::Intervals => match self.intervals_selected {
                Some(selected) => if selected > 0 {
                    self.intervals_offset = selected - 1;
                    self.intervals_selected = Some(selected - 1);
                },
                None => {},
            },
            Focus::Timed => match self.timed_selected {
                Some(selected) => if selected > 0 {
                    self.timed_offset = selected - 1;
                    self.timed_selected = Some(selected - 1);
                },
                None => {},
            },
            Focus::Untimed => match self.untimed_selected {
                Some(selected) => if selected > 0 {
                    self.untimed_offset = selected - 1;
                    self.untimed_selected = Some(selected - 1);
                },
                None => {},
            },
            _ => {},
        }
    }
}

/// Removing an entry keeps a pane sorted and valid.
pub proof fn lemma_remove_sorted(s: Seq<EventV>, i: int)
    requires
        spec_sorted(s),
        spec_events_wf(s),
        0 <= i < s.len(),
    ensures
        spec_sorted(s.remove(i)),
        spec_events_wf(s.remove(i)),
{
    let t = s.remove(i);
    assert forall|a: int, b: int|
        0 <= a < b < t.len() implies spec_compare(t[a], t[b]) != Ordering::Greater by {
        let a0 = if a < i {
            a
        } else {
            a + 1
        };
        let b0 = if b < i {
            b
        } else {
            b + 1
        };
        assert(t[a] == s[a0] && t[b] == s[b0]);
    }
    assert forall|a: int| 0 <= a < t.len() implies t[a].wf() by {
        let a0 = if a < i {
            a
        } else {
            a + 1
        };
        assert(t[a] == s[a0]);
    }
}

impl State {
    /// The first delete request arms the two-step confirmation; the second
    /// removes exactly the selected entry, clamping the remaining
    /// selection.
    pub fn delete_selected(&mut self)
        requires
            old(self)@.wf(),
        ensures
            final(self)@ == spec_delete(old(self)@),
            final(self)@.wf(),
    {
        match self.pending {
            Confirm::Delete => {
                match self.focus {
                    Focus::Intervals => match self.intervals_selected {
                        Some(i) => {
                            let len = self.intervals.len();
                            proof {
                                assert(i < len);
                                lemma_remove_sorted(spec_pane_view(&self.intervals), i as int);
                                assert(spec_pane_view(&self.intervals).remove(i as int)
                                    =~= self.intervals@.remove(i as int).map_values(
                                    |e: Event| e@,
                                ));
                            }
                            self.intervals.remove(i);
                            let len2 = self.intervals.len();
                            self.intervals_selected = if len2 == 0 {
                                None
                            } else if i < len2 {
                                Some(i)
                            } else {
                                Some(len2 - 1)
                            };
                        },
                        None => {},
                    },
                    Focus::Timed => match self.timed_selected {
                        Some(i) => {
                            let len = self.timed.len();
                            proof {
                                assert(i < len);
                                lemma_remove_sorted(spec_pane_view(&self.timed), i as int);
                                assert(spec_pane_view(&self.timed).remove(i as int)
                                    =~= self.timed@.remove(i as int).map_values(|e: Event| e@));
                            }
                            self.timed.remove(i);
                            let len2 = self.timed.len();
                            self.timed_selected = if len2 == 0 {
                                None
                            } else if i < len2 {
                                Some(i)
                            } else {
                                Some(len2 - 1)
                            };
                        },
                        None => {},
                    },
                    Focus::Untimed => match self.untimed_selected {
                        Some(i) => {
                            let len = self.untimed.len();
                            proof {
                                assert(i < len);
                                lemma_remove_sorted(spec_pane_view(&self.untimed), i as int);
                                assert(spec_pane_view(&self.untimed).remove(i as int)
                                    =~= self.untimed@.remove(i as int).map_values(|e: Event| e@));
                            }
                            self.untimed.remove(i);
                            let len2 = self.untimed.len();
                            self.untimed_selected = if len2 == 0 {
                                None
                            } else if i < len2 {
                                Some(i)
                            } else {
                                Some(len2 - 1)
                            };
                        },
                        None => {},
                    },
                    _ => {},
                }
                self.pending = Confirm::Inactive;
            },
            _ => {
                match self.focus {
                    Focus::Intervals | Focus::Timed | Focus::Untimed => {
                        self.pending = Confirm::Delete;
                    },
                    _ => {},
                }
            },
        }
        proof {
            assert(self@ =~~= spec_delete(old(self)@));
        }
    }

    /// The first yank request arms the two-step confirmation; the second
    /// removes the selected entry, loads its rendering into the buffer, and
    /// switches to editing.
    pub fn yank_selected(&mut self)
        requires
            old(self)@.wf(),
        ensures
            final(self)@ == spec_yank(old(self)@),
            final(self)@.wf(),
    {
        match self.pending {
            Confirm::Yank => {
                match self.focus {
                    Focus::Intervals => match self.intervals_selected {
                        Some(i) => {
                            let len = self.intervals.len();
                            proof {
                                assert(i < len);
                                lemma_remove_sorted(spec_pane_view(&self.intervals), i as int);
                                assert(spec_pane_view(&self.intervals).remove(i as int)
                                    =~= self.intervals@.remove(i as int).map_values(
                                    |e: Event| e@,
                                ));
                                assert(spec_pane_view(&self.intervals)[i as int]
                                    == self.intervals@[i as int]@);
                            }
                            let ev = self.intervals.remove(i);
                            self.buffer = crate::codec::event_to_record(&ev);
                        },
                        None => {},
                    },
                    Focus::Timed => match self.timed_selected {
                        Some(i) => {
                            let len = self.timed.len();
                            proof {
                                assert(i < len);
                                lemma_remove_sorted(spec_pane_view(&self.timed), i as int);
                                assert(spec_pane_view(&self.timed).remove(i as int)
                                    =~= self.timed@.remove(i as int).map_values(|e: Event| e@));
                                assert(spec_pane_view(&self.timed)[i as int]
                                    == self.timed@[i as int]@);
                            }
                            let ev = self.timed.remove(i);
                            self.buffer = crate::codec::event_to_record(&ev);
                        },
                        None => {},
                    },
                    Focus::Untimed => match self.untimed_selected {
                        Some(i) => {
                            let len = self.untimed.len();
                            proof {
                                assert(i < len);
                                lemma_remove_sorted(spec_pane_view(&self.untimed), i as int);
                                assert(spec_pane_view(&self.untimed).remove(i as int)
                                    =~= self.untimed@.remove(i as int).map_values(|e: Event| e@));
                                assert(spec_pane_view(&self.untimed)[i as int]
                                    == self.untimed@[i as int]@);
                            }
                            let ev = self.untimed.remove(i);
                            self.buffer = crate::codec::event_to_record(&ev);
                        },
                        None => {},
                    },
                    _ => {},
                }
                self.pending = Confirm::Inactive;
                let moved = match self.focus {
                    Focus::Intervals | Focus::Timed | Focus::Untimed => match (
                        self.intervals_selected,
                        self.timed_selected,
                        self.untimed_selected,
                    ) {
                        (None, None, None) => false,
                        _ => true,
                    },
                    _ => false,
                };
                if moved {
                    self.intervals_selected = None;
                    self.timed_selected = None;
                    self.untimed_selected = None;
                    self.cursor_offset = self.buffer.len();
                    self.focus = Focus::InputAdd;
                }
            },
            _ => {
                match self.focus {
                    Focus::Intervals | Focus::Timed | Focus::Untimed => {
                        self.pending = Confirm::Yank;
                    },
                    _ => {},
                }
            },
        }
        proof {
            assert(self@ =~~= spec_yank(old(self)@));
        }
    }
}

impl State {
    /// Places a loaded entry into its pane, keeping the pane's order. Used
    /// while nothing is focused, at session start.
    pub fn insert_event(&mut self, e: Event)
        requires
            old(self)@.wf(),
            e@.wf(),
            old(self)@.focus == Focus::InputAdd || old(self)@.focus == Focus::Unfocused,
        ensures
            final(self)@ == spec_insert_event(old(self)@, e@),
            final(self)@.wf(),
    {
        proof {
            lemma_insert_sorted(spec_pane_view(&self.untimed), e@);
            lemma_insert_sorted(spec_pane_view(&self.intervals), e@);
            lemma_insert_sorted(spec_pane_view(&self.timed), e@);
        }
        match (&e.start, &e.interval) {
            (None, _) => insert_sorted(&mut self.untimed, e),
            (Some(_), Interval::FixedSpan(_)) => insert_sorted(&mut self.intervals, e),
            (Some(_), _) => insert_sorted(&mut self.timed, e),
        }
        proof {
            assert(self@ =~~= spec_insert_event(old(self)@, e@));
        }
    }

    /// Submits the buffer: on success the decoded entry joins its pane and
    /// the buffer is cleared; on failure nothing changes and the error says
    /// why. A civil reading the grammar refuses is reported as `spec_decode`
    /// says; a time the local zone cannot resolve uniquely comes back as
    /// `InvalidTimestamp`.
    pub fn add_event_from_buffer(&mut self) -> (r: Result<(), Error>)
        requires
            old(self)@.wf(),
            old(self)@.focus == Focus::InputAdd || old(self)@.focus == Focus::Unfocused,
        ensures
            final(self)@.wf(),
            match crate::codec::spec_decode(old(self)@.buffer) {
                Err(e) => r == Err::<(), Error>(e) && final(self)@ == old(self)@,
                Ok(ev) => ((r == Ok::<(), Error>(()) && final(self)@ == spec_commit(
                    old(self)@,
                    ev,
                )) || (r == Err::<(), Error>(Error::InvalidTimestamp) && final(self)@ == old(
                    self,
                )@)) && (ev.start is None ==> r == Ok::<(), Error>(()) && final(self)@
                    == spec_commit(old(self)@, ev)),
            },
    {
        proof {
            crate::codec::lemma_decode_wf(self.buffer@);
        }
        let decoded = crate::codec::decode(self.buffer.as_slice());
        match decoded {
            Err(e) => Err(e),
            Ok(ev) => {
                self.insert_event(ev);
                self.buffer = Vec::new();
                self.cursor_offset = 0;
                proof {
                    assert(self@.buffer =~= Seq::<char>::empty());
                    assert(self@ =~~= spec_commit(
                        old(self)@,
                        crate::codec::spec_decode(old(self)@.buffer)->Ok_0,
                    ));
                }
                Ok(())
            },
        }
    }

    /// Empties the three panes into one sequence — intervals, then timed,
    /// then undated — for persistence at session end.
    pub fn take_all(&mut self) -> (r: Vec<Event>)
        requires
            old(self)@.wf(),
        ensures
            spec_pane_view(&r) == old(self)@.intervals + old(self)@.timed + old(self)@.untimed,
            final(self)@ == (StateV {
                intervals: Seq::empty(),
                timed: Seq::empty(),
                untimed: Seq::empty(),
                intervals_selected: None,
                timed_selected: None,
                untimed_selected: None,
                ..old(self)@
            }),
            final(self)@.wf(),
    {
        let mut vec: Vec<Event> = Vec::new();
        vec.append(&mut self.intervals);
        vec.append(&mut self.timed);
        vec.append(&mut self.untimed);
        self.intervals_selected = None;
        self.timed_selected = None;
        self.untimed_selected = None;
        proof {
            assert(spec_pane_view(&vec) =~= old(self)@.intervals + old(self)@.timed + old(
                self,
            )@.untimed);
            assert(spec_pane_view(&self.intervals) =~= Seq::<EventV>::empty());
            assert(spec_pane_view(&self.timed) =~= Seq::<EventV>::empty());
            assert(spec_pane_view(&self.untimed) =~= Seq::<EventV>::empty());
            assert(self@ =~~= (StateV {
                intervals: Seq::empty(),
                timed: Seq::empty(),
                untimed: Seq::empty(),
                intervals_selected: None,
                timed_selected: None,
                untimed_selected: None,
                ..old(self)@
            }));
        }
        vec
    }

    /// Cancels a pending confirmation; with none pending, steps out of the
    /// focused part, and with nothing focused clears the display label.
    fn escape_step(&mut self)
        requires
            old(self)@.wf(),
        ensures
            final(self)@ == spec_escape(old(self)@),
            final(self)@.wf(),
    {
        let armed = match self.pending {
            Confirm::Inactive => false,
            _ => true,
        };
        if armed {
            self.pending = Confirm::Inactive;
        } else {
            match self.focus {
                Focus::Unfocused => {
                    self.last_error = None;
                },
                _ => {
                    self.focus(Focus::Unfocused);
                },
            }
        }
    }

    /// Feeds one logical input to the state machine. The result is `false`
    /// exactly for the quit input, which changes nothing; every other input
    /// acts as the transition functions say, with `Enter` submitting the
    /// buffer, recording the failure to display, and returning focus to
    /// nothing.
    pub fn handle(&mut self, action: Action) -> (r: bool)
        requires
            old(self)@.wf(),
        ensures
            final(self)@.wf(),
            action != Action::Enter && action != Action::Quit ==> r && final(self)@ == spec_step(
                old(self)@,
                action,
            ),
            action == Action::Quit ==> !r && final(self)@ == old(self)@,
            action == Action::Enter ==> r && (if old(self)@.focus == Focus::InputAdd {
                match crate::codec::spec_decode(old(self)@.buffer) {
                    Err(e) => final(self)@ == spec_enter_focus(
                        StateV { last_error: Some(e), ..old(self)@ },
                        Focus::Unfocused,
                    ),
                    Ok(ev) => (final(self)@ == spec_enter_focus(
                        StateV { last_error: None, ..spec_commit(old(self)@, ev) },
                        Focus::Unfocused,
                    ) || final(self)@ == spec_enter_focus(
                        StateV { last_error: Some(Error::InvalidTimestamp), ..old(self)@ },
                        Focus::Unfocused,
                    )) && (ev.start is None ==> final(self)@ == spec_enter_focus(
                        StateV { last_error: None, ..spec_commit(old(self)@, ev) },
                        Focus::Unfocused,
                    )),
                }
            } else {
                final(self)@ == old(self)@
            }),
    {
        let editing = match self.focus {
            Focus::InputAdd => true,
            _ => false,
        };
        match action {
            Action::Char(c) => {
                if editing {
                    self.insert_char(c);
                }
                true
            },
            Action::Backspace => {
                if editing {
                    self.backspace();
                }
                true
            },
            Action::DeleteForward => {
                if editing {
                    self.delete_forward();
                }
                true
            },
            Action::CursorLeft => {
                if editing {
                    self.cursor_left();
                }
                true
            },
            Action::CursorRight => {
                if editing {
                    self.cursor_right();
                }
                true
            },
            Action::CursorHome => {
                if editing {
                    self.cursor_beginning();
                }
                true
            },
            Action::CursorEnd => {
                if editing {
                    self.cursor_end();
                }
                true
            },
            Action::Enter => {
                if editing {
                    match self.add_event_from_buffer() {
                        Err(e) => {
                            self.last_error = Some(e);
                        },
                        Ok(()) => {
                            self.last_error = None;
                        },
                    }
                    self.focus(Focus::Unfocused);
                }
                true
            },
            Action::Escape => {
                self.escape_step();
                true
            },
            Action::ScrollUp => {
                self.scroll_up();
                true
            },
            Action::ScrollDown => {
                self.scroll_down();
                true
            },
            Action::Focus(t) => {
                self.focus(t);
                true
            },
            Action::DeleteRequest => {
                self.delete_selected();
                true
            },
            Action::YankRequest => {
                self.yank_selected();
                true
            },
            Action::Quit => false,
        }
    }

    /// The stable label to display: a pending confirmation first, else the
    /// recorded failure, else nothing.
    pub fn status_label(&self) -> (r: Option<&'static str>)
        ensures
            self@.pending == Confirm::Delete ==> (r matches Some(l) && l@
                == "delete-confirmation-pending"@),
            self@.pending == Confirm::Yank ==> (r matches Some(l) && l@
                == "yank-confirmation-pending"@),
            self@.pending == Confirm::Inactive ==> match self@.last_error {
                Some(Error::InvalidInterval) => (r matches Some(l) && l@
                    == "malformed-interval-spec"@),
                Some(Error::InvalidTimestamp) => (r matches Some(l) && l@
                    == "invalid-or-underspecified-timestamp"@),
                Some(Error::InvalidRecord) => (r matches Some(l) && l@
                    == "malformed-record-(missing-separator)"@),
                Some(Error::NoInformation) => (r matches Some(l) && l@ == "nothing-to-add"@),
                None => r is None,
            },
    {
        match self.pending {
            Confirm::Delete => Some("delete-confirmation-pending"),
            Confirm::Yank => Some("yank-confirmation-pending"),
            Confirm::Inactive => match &self.last_error {
                Some(e) => Some(e.label()),
                None => None,
            },
        }
    }
}

/// The empty session state.
pub open spec fn spec_initial() -> StateV {
    StateV {
        buffer: Seq::empty(),
        cursor: 0,
        focus: Focus::Unfocused,
        intervals: Seq::empty(),
        intervals_offset: 0,
        intervals_selected: None,
        last_error: None,
        pending: Confirm::Inactive,
        timed: Seq::empty(),
        timed_offset: 0,
        timed_selected: None,
        untimed: Seq::empty(),
        untimed_offset: 0,
        untimed_selected: None,
    }
}

impl Default for State {
    /// A fresh session: everything empty, nothing focused.
    fn default() -> (r: State)
        ensures
            r@ == spec_initial(),
            r@.wf(),
    {
        let r = State {
            buffer: Vec::new(),
            cursor_offset: 0,
            focus: Focus::Unfocused,
            intervals: Vec::new(),
            intervals_offset: 0,
            intervals_selected: None,
            last_error: None,
            pending: Confirm::Inactive,
            timed: Vec::new(),
            timed_offset: 0,
            timed_selected: None,
            untimed: Vec::new(),
            untimed_offset: 0,
            untimed_selected: None,
        };
        proof {
            assert(r@ =~~= spec_initial());
        }
        r
    }
}

// ---------------------------------------------------------------------------
// Laws of the state machine
// ---------------------------------------------------------------------------

/// Scrolling never selects an index outside the pane: the selection of a
/// well-formed state stays within `[0, length-1]` after a scroll in either
/// direction, no pane's contents move, and scrolling a focused empty pane
/// changes nothing and leaves its selection absent.
pub proof fn lemma_scroll_in_bounds(v: StateV)
    requires
        v.wf(),
    ensures
        spec_scroll_down(v).wf(),
        spec_scroll_up(v).wf(),
        spec_scroll_down(v).intervals == v.intervals && spec_scroll_down(v).timed == v.timed
            && spec_scroll_down(v).untimed == v.untimed,
        spec_scroll_up(v).intervals == v.intervals && spec_scroll_up(v).timed == v.timed
            && spec_scroll_up(v).untimed == v.untimed,
        v.focus == Focus::Intervals && v.intervals.len() == 0 ==> spec_scroll_down(v) == v
            && spec_scroll_up(v) == v && v.intervals_selected is None,
        v.focus == Focus::Timed && v.timed.len() == 0 ==> spec_scroll_down(v) == v
            && spec_scroll_up(v) == v && v.timed_selected is None,
        v.focus == Focus::Untimed && v.untimed.len() == 0 ==> spec_scroll_down(v) == v
            && spec_scroll_up(v) == v && v.untimed_selected is None,
{
}

/// Two-step confirmation for deletion: the first request changes no pane
/// and only arms the marker; an escape then disarms it and restores the
/// state exactly; a second request instead removes exactly the selected
/// entry and disarms the marker.
pub proof fn lemma_delete_two_step(v: StateV)
    requires
        v.wf(),
        v.pending == Confirm::Inactive,
        v.focus == Focus::Intervals || v.focus == Focus::Timed || v.focus == Focus::Untimed,
    ensures
        spec_delete(v).intervals == v.intervals && spec_delete(v).timed == v.timed && spec_delete(
            v,
        ).untimed == v.untimed,
        spec_delete(v).pending == Confirm::Delete,
        spec_escape(spec_delete(v)) == v,
        v.focus == Focus::Intervals && v.intervals_selected is Some ==> spec_delete(
            spec_delete(v),
        ).intervals == v.intervals.remove(v.intervals_selected->Some_0) && spec_delete(spec_delete(v)).timed == v.timed
            && spec_delete(spec_delete(v)).untimed == v.untimed && spec_delete(
            spec_delete(v),
        ).pending == Confirm::Inactive,
        v.focus == Focus::Timed && v.timed_selected is Some ==> spec_delete(
            spec_delete(v),
        ).timed == v.timed.remove(v.timed_selected->Some_0) && spec_delete(spec_delete(v)).intervals == v.intervals
            && spec_delete(spec_delete(v)).untimed == v.untimed && spec_delete(
            spec_delete(v),
        ).pending == Confirm::Inactive,
        v.focus == Focus::Untimed && v.untimed_selected is Some ==> spec_delete(
            spec_delete(v),
        ).untimed == v.untimed.remove(v.untimed_selected->Some_0) && spec_delete(spec_delete(v)).intervals == v.intervals
            && spec_delete(spec_delete(v)).timed == v.timed && spec_delete(
            spec_delete(v),
        ).pending == Confirm::Inactive,
{
    let v1 = spec_delete(v);
    assert(spec_escape(v1) =~~= v);
}

// ---------------------------------------------------------------------------
// Sorting as repeated ordered insertion
// ---------------------------------------------------------------------------

/// The sort of a pane: every entry placed by ordered insertion.
pub open spec fn spec_sort(s: Seq<EventV>) -> Seq<EventV>
    decreases s.len(),
{
    if s.len() == 0 {
        Seq::empty()
    } else {
        spec_insert_sorted(spec_sort(s.drop_last()), s.last())
    }
}

/// Sorting yields a sorted pane of the same entries' count.
pub proof fn lemma_sort_props(s: Seq<EventV>)
    requires
        spec_events_wf(s),
    ensures
        spec_sorted(spec_sort(s)),
        spec_events_wf(spec_sort(s)),
        spec_sort(s).len() == s.len(),
    decreases s.len(),
{
    if s.len() > 0 {
        assert(spec_events_wf(s.drop_last()));
        lemma_sort_props(s.drop_last());
        assert(s.last().wf());
        lemma_insert_sorted(spec_sort(s.drop_last()), s.last());
    }
}

/// Sorting an already sorted pane leaves it exactly as it is; with
/// `lemma_sort_props` this makes sorting idempotent.
pub proof fn lemma_sort_sorted_identity(s: Seq<EventV>)
    requires
        spec_sorted(s),
        spec_events_wf(s),
    ensures
        spec_sort(s) == s,
    decreases s.len(),
{
    if s.len() == 0 {
        assert(spec_sort(s) =~= s);
    } else {
        let dl = s.drop_last();
        assert(spec_sorted(dl) && spec_events_wf(dl));
        lemma_sort_sorted_identity(dl);
        lemma_insert_pos_props(dl, s.last());
        let p = spec_insert_pos(dl, s.last());
        if p < dl.len() {
            assert(dl[p] == s[p]);
            assert(spec_compare(s[p], s[s.len() - 1]) != Ordering::Greater);
            assert(false);
        }
        assert(spec_sort(s) =~= s);
    }
}

/// Sorting twice is sorting once.
pub proof fn lemma_sort_idempotent(s: Seq<EventV>)
    requires
        spec_events_wf(s),
    ensures
        spec_sort(spec_sort(s)) == spec_sort(s),
{
    lemma_sort_props(s);
    lemma_sort_sorted_identity(spec_sort(s));
}

} // verus!
