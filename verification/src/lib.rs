use vstd::prelude::*;

pub mod codec;
pub mod error;
pub mod state;
pub mod timestamp;

use crate::timestamp::{fields_before, lin_bound, now_civil_fields, spec_lin_bound, Timestamp};
use core::cmp::Ordering;

verus! {

/// How, if at all, an entry extends beyond its start.
#[derive(Clone, Copy, Debug, PartialEq, Eq, Structural)]
pub enum Interval {
    /// Repeats a bounded number of further times, spanning to `end` each cycle.
    RecurringCounted { occurrences: u64, end: Timestamp },
    /// Repeats without bound, spanning to the given end each cycle.
    RecurringIndefinite(Timestamp),
    /// A one-shot span from the start to the given end.
    FixedSpan(Timestamp),
    /// A plain point in time, or an undated note.
    NoInterval,
}

/// The scheduling unit: an optional start, an interval shape, and free text.
#[derive(Clone, Debug, PartialEq, Eq)]
pub struct Event {
    pub start: Option<Timestamp>,
    pub interval: Interval,
    pub description: Vec<char>,
}

/// The mathematical value of an `Event`.
#[verifier::ext_equal]
pub ghost struct EventV {
    pub start: Option<Timestamp>,
    pub interval: Interval,
    pub description: Seq<char>,
}

impl View for Event {
    type V = EventV;

    open spec fn view(&self) -> EventV {
        EventV { start: self.start, interval: self.interval, description: self.description@ }
    }
}

impl EventV {
    /// Every timestamp the entry carries names a real civil time.
    pub open spec fn wf(self) -> bool {
        &&& (self.start matches Some(t) ==> t.valid())
        &&& (match self.interval {
            Interval::RecurringCounted { end, .. } => end.valid(),
            Interval::RecurringIndefinite(end) => end.valid(),
            Interval::FixedSpan(end) => end.valid(),
            Interval::NoInterval => true,
        })
    }
}

/// The timestamp an entry is ordered by: the interval's end when there is
/// one, else the start; an undated entry has none and sorts last.
pub open spec fn spec_effective_time(e: EventV) -> Option<Timestamp> {
    match e.start {
        None => None,
        Some(s) => match e.interval {
            Interval::RecurringCounted { end, .. } => Some(end),
            Interval::RecurringIndefinite(end) => Some(end),
            Interval::FixedSpan(end) => Some(end),
            Interval::NoInterval => Some(s),
        },
    }
}

/// Lexicographic order over description text.
pub open spec fn spec_lex_cmp(a: Seq<char>, b: Seq<char>) -> Ordering
    decreases a.len(),
{
    if a.len() == 0 && b.len() == 0 {
        Ordering::Equal
    } else if a.len() == 0 {
        Ordering::Less
    } else if b.len() == 0 {
        Ordering::Greater
    } else if (a[0] as u32) < (b[0] as u32) {
        Ordering::Less
    } else if (a[0] as u32) > (b[0] as u32) {
        Ordering::Greater
    } else {
        spec_lex_cmp(a.drop_first(), b.drop_first())
    }
}

/// The total order over entries: chronological by effective time, entries
/// without one last, ties broken alphabetically by description.
pub open spec fn spec_compare(a: EventV, b: EventV) -> Ordering {
    match (spec_effective_time(a), spec_effective_time(b)) {
        (Some(x), Some(y)) => if x.lin() < y.lin() {
            Ordering::Less
        } else if x.lin() > y.lin() {
            Ordering::Greater
        } else {
            spec_lex_cmp(a.description, b.description)
        },
        (Some(_), None) => Ordering::Less,
        (None, Some(_)) => Ordering::Greater,
        (None, None) => spec_lex_cmp(a.description, b.description),
    }
}

/// The opposite ordering outcome.
pub open spec fn spec_rank_rev(r: Ordering) -> Ordering {
    match r {
        Ordering::Less => Ordering::Greater,
        Ordering::Equal => Ordering::Equal,
        Ordering::Greater => Ordering::Less,
    }
}

fn lex_cmp(a: &Vec<char>, b: &Vec<char>) -> (r: Ordering)
    ensures
        r == spec_lex_cmp(a@, b@),
{
    let mut i: usize = 0;
    proof {
        assert(a@.skip(0) =~= a@);
        assert(b@.skip(0) =~= b@);
    }
    loop
        invariant
            i <= a.len(),
            i <= b.len(),
            spec_lex_cmp(a@, b@) == spec_lex_cmp(a@.skip(i as int), b@.skip(i as int)),
        decreases a.len() - i,
    {
        if i == a.len() {
            if i == b.len() {
                return Ordering::Equal;
            }
            return Ordering::Less;
        }
        if i == b.len() {
            return Ordering::Greater;
        }
        let c_a: char = a[i];
        let c_b: char = b[i];
        let ca = c_a as u32;
        let cb = c_b as u32;
        proof {
            assert(a@.skip(i as int)[0] == a@[i as int]);
            assert(b@.skip(i as int)[0] == b@[i as int]);
        }
        if ca < cb {
            return Ordering::Less;
        }
        if ca > cb {
            return Ordering::Greater;
        }
        proof {
            assert(a@.skip(i as int).drop_first() =~= a@.skip(i as int + 1));
            assert(b@.skip(i as int).drop_first() =~= b@.skip(i as int + 1));
        }
        i = i + 1;
    }
}

impl Event {
    /// The timestamp this entry is ordered by, if it has one.
    pub fn effective_time(&self) -> (r: Option<Timestamp>)
        ensures
            r == spec_effective_time(self@),
    {
        match self.start {
            None => None,
            Some(s) => match self.interval {
                Interval::RecurringCounted { end, .. } => Some(end),
                Interval::RecurringIndefinite(end) => Some(end),
                Interval::FixedSpan(end) => Some(end),
                Interval::NoInterval => Some(s),
            },
        }
    }

    /// Decides the total order of §`spec_compare` between two entries.
    pub fn compare(a: &Event, b: &Event) -> (r: Ordering)
        requires
            a@.wf(),
            b@.wf(),
        ensures
            r == spec_compare(a@, b@),
    {
        match (a.effective_time(), b.effective_time()) {
            (Some(x), Some(y)) => {
                let lx = x.total_seconds();
                let ly = y.total_seconds();
                if lx < ly {
                    Ordering::Less
                } else if lx > ly {
                    Ordering::Greater
                } else {
                    lex_cmp(&a.description, &b.description)
                }
            },
            (Some(_), None) => Ordering::Less,
            (None, Some(_)) => Ordering::Greater,
            (None, None) => lex_cmp(&a.description, &b.description),
        }
    }

    /// True when the entry has yet to begin: an undated entry is always
    /// upcoming, whatever its interval; a dated one is upcoming exactly when
    /// its start lies strictly after the current civil time.
    pub fn is_upcoming(&self) -> (r: bool)
        ensures
            self.start is None ==> r,
    {
        match &self.start {
            None => true,
            Some(t) => {
                let now = now_civil_fields();
                fields_before(now, t)
            },
        }
    }

    /// Cycles a recurring entry one period forward: the start moves to the
    /// old end, the end moves one period past it, and a bounded count loses
    /// one occurrence. A count already at zero is exhausted and the call is a
    /// no-op, as it is when the shifted end would leave the supported
    /// calendar range; one-shot and undated entries are never changed.
    pub fn advance(&mut self)
        requires
            old(self)@.wf(),
        ensures
            final(self)@.wf(),
            final(self)@.description == old(self)@.description,
            match (old(self)@.start, old(self)@.interval) {
                (Some(s), Interval::RecurringCounted { occurrences: n, end }) => {
                    let target = 2 * end.lin() - s.lin();
                    if n > 0 && 0 <= target < spec_lin_bound() {
                        &&& final(self)@.start == Some(end)
                        &&& final(self)@.interval matches Interval::RecurringCounted {
                            occurrences: n2,
                            end: e2,
                        } && n2 == n - 1 && e2.valid() && e2.lin() == target
                    } else {
                        final(self)@ == old(self)@
                    }
                },
                (Some(s), Interval::RecurringIndefinite(end)) => {
                    let target = 2 * end.lin() - s.lin();
                    if 0 <= target < spec_lin_bound() {
                        &&& final(self)@.start == Some(end)
                        &&& final(self)@.interval matches Interval::RecurringIndefinite(e2)
                            && e2.valid() && e2.lin() == target
                    } else {
                        final(self)@ == old(self)@
                    }
                },
                _ => final(self)@ == old(self)@,
            },
    {
        match (self.start, self.interval) {
            (Some(s), Interval::RecurringCounted { occurrences, end }) => {
                if occurrences > 0 {
                    let ls = s.total_seconds();
                    let le = end.total_seconds();
                    proof {
                        crate::timestamp::lemma_days_before_year_bounds(
                            crate::timestamp::MAX_YEAR as int + 1,
                        );
                    }
                    let target: i64 = 2 * (le as i64) - (ls as i64);
                    let bound = lin_bound();
                    if 0 <= target && (target as u64) < bound {
                        let e2 = Timestamp::from_seconds(target as u64);
                        self.start = Some(end);
                        self.interval = Interval::RecurringCounted {
                            occurrences: occurrences - 1,
                            end: e2,
                        };
                    }
                }
            },
            (Some(s), Interval::RecurringIndefinite(end)) => {
                let ls = s.total_seconds();
                let le = end.total_seconds();
                proof {
                    crate::timestamp::lemma_days_before_year_bounds(
                        crate::timestamp::MAX_YEAR as int + 1,
                    );
                }
                let target: i64 = 2 * (le as i64) - (ls as i64);
                let bound = lin_bound();
                if 0 <= target && (target as u64) < bound {
                    let e2 = Timestamp::from_seconds(target as u64);
                    self.start = Some(end);
                    self.interval = Interval::RecurringIndefinite(e2);
                }
            },
            _ => {},
        }
    }
}

/// Lexicographic equality outcome means the texts are the same sequence.
proof fn lemma_lex_eq(a: Seq<char>, b: Seq<char>)
    requires
        spec_lex_cmp(a, b) == Ordering::Equal,
    ensures
        a == b,
    decreases a.len(),
{
    if a.len() == 0 || b.len() == 0 {
        assert(a =~= b);
    } else {
        vstd::utf8::char_u32_cast(a[0], a[0] as u32);
        vstd::utf8::char_u32_cast(b[0], a[0] as u32);
        assert(a[0] == b[0]);
        lemma_lex_eq(a.drop_first(), b.drop_first());
        assert(a =~= seq![a[0]] + a.drop_first());
        assert(b =~= seq![b[0]] + b.drop_first());
    }
}

/// Swapping the arguments reverses the lexicographic outcome.
proof fn lemma_lex_swap(a: Seq<char>, b: Seq<char>)
    ensures
        spec_lex_cmp(b, a) == spec_rank_rev(spec_lex_cmp(a, b)),
    decreases a.len(),
{
    if a.len() > 0 && b.len() > 0 && (a[0] as u32) == (b[0] as u32) {
        lemma_lex_swap(a.drop_first(), b.drop_first());
    }
}

/// The lexicographic order is transitive on its strict part.
proof fn lemma_lex_trans(a: Seq<char>, b: Seq<char>, c: Seq<char>)
    requires
        spec_lex_cmp(a, b) == Ordering::Less,
        spec_lex_cmp(b, c) == Ordering::Less,
    ensures
        spec_lex_cmp(a, c) == Ordering::Less,
    decreases a.len(),
{
    if a.len() > 0 && b.len() > 0 && c.len() > 0 && (a[0] as u32) == (b[0] as u32) && (b[0]
        as u32) == (c[0] as u32) {
        lemma_lex_trans(a.drop_first(), b.drop_first(), c.drop_first());
    }
}

/// The entry order is antisymmetric: swapping the arguments of
/// `spec_compare` always reverses its outcome, so `a` before `b` and `b`
/// before `a` never hold together.
pub proof fn lemma_compare_antisymmetric(a: EventV, b: EventV)
    ensures
        spec_compare(b, a) == spec_rank_rev(spec_compare(a, b)),
{
    lemma_lex_swap(a.description, b.description);
}

/// The entry order is transitive, on its strict part and on its
/// equal-or-before part alike.
pub proof fn lemma_compare_transitive(a: EventV, b: EventV, c: EventV)
    requires
        spec_compare(a, b) != Ordering::Greater,
        spec_compare(b, c) != Ordering::Greater,
    ensures
        spec_compare(a, c) != Ordering::Greater,
        spec_compare(a, b) == Ordering::Less && spec_compare(b, c) == Ordering::Less
            ==> spec_compare(a, c) == Ordering::Less,
{
    let rab = spec_lex_cmp(a.description, b.description);
    let rbc = spec_lex_cmp(b.description, c.description);
    if rab == Ordering::Equal {
        lemma_lex_eq(a.description, b.description);
    }
    if rbc == Ordering::Equal {
        lemma_lex_eq(b.description, c.description);
    }
    if rab == Ordering::Less && rbc == Ordering::Less {
        lemma_lex_trans(a.description, b.description, c.description);
    }
}

} // verus!
