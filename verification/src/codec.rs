use crate::error::Error;
use crate::timestamp::{days_in_month, spec_days_in_month, Timestamp, MAX_YEAR};
use crate::{Event, EventV, Interval};
use vstd::prelude::*;

verus! {

// ---------------------------------------------------------------------------
// Characters and digit strings
// ---------------------------------------------------------------------------

/// A decimal digit.
pub open spec fn spec_is_digit(c: char) -> bool {
    48 <= c as u32 <= 57
}

/// Numeric value of one digit.
pub open spec fn spec_digit_val(c: char) -> int {
    c as u32 - 48
}

/// The digit with value `d`.
pub open spec fn spec_digit_char(d: int) -> char {
    if d == 0 {
        '0'
    } else if d == 1 {
        '1'
    } else if d == 2 {
        '2'
    } else if d == 3 {
        '3'
    } else if d == 4 {
        '4'
    } else if d == 5 {
        '5'
    } else if d == 6 {
        '6'
    } else if d == 7 {
        '7'
    } else if d == 8 {
        '8'
    } else {
        '9'
    }
}

/// Every character of the text is a decimal digit.
pub open spec fn spec_all_digits(s: Seq<char>) -> bool {
    forall|i: int| 0 <= i < s.len() ==> spec_is_digit(s[i])
}

/// Value of a digit string read in base ten.
pub open spec fn spec_digits_val(s: Seq<char>) -> int
    decreases s.len(),
{
    if s.len() == 0 {
        0
    } else {
        spec_digits_val(s.drop_last()) * 10 + spec_digit_val(s.last())
    }
}

/// The whitespace stripped from the ends of a description: the Unicode
/// White_Space characters, as `str::trim` strips them.
pub open spec fn spec_is_space(c: char) -> bool {
    c == ' ' || c == '\t' || c == '\n' || c == '\r' || c == '\u{b}' || c == '\u{c}' || c
        == '\u{85}' || c == '\u{a0}' || c == '\u{1680}' || (8192 <= c as u32 && c as u32 <= 8202)
        || c == '\u{2028}' || c == '\u{2029}' || c == '\u{202f}' || c == '\u{205f}' || c
        == '\u{3000}'
}

// ---------------------------------------------------------------------------
// Splitting on delimiter characters
// ---------------------------------------------------------------------------

/// The fields of `s` between occurrences of the delimiter characters: one
/// more field than there are delimiters, empty fields included.
pub open spec fn spec_split(s: Seq<char>, delims: Seq<char>) -> Seq<Seq<char>>
    decreases s.len(),
{
    if s.len() == 0 {
        seq![Seq::<char>::empty()]
    } else {
        let rest = spec_split(s.drop_first(), delims);
        if delims.contains(s[0]) {
            seq![Seq::<char>::empty()] + rest
        } else {
            seq![seq![s[0]] + rest[0]] + rest.drop_first()
        }
    }
}

/// No character of `s` is a delimiter.
pub open spec fn spec_no_delim(s: Seq<char>, delims: Seq<char>) -> bool {
    forall|i: int| 0 <= i < s.len() ==> !delims.contains(s[i])
}

/// A split always yields at least one field.
pub proof fn lemma_split_len(s: Seq<char>, delims: Seq<char>)
    ensures
        spec_split(s, delims).len() >= 1,
    decreases s.len(),
{
    if s.len() > 0 {
        lemma_split_len(s.drop_first(), delims);
    }
}

/// Delimiter-free text splits into itself alone.
pub proof fn lemma_split_whole(s: Seq<char>, delims: Seq<char>)
    requires
        spec_no_delim(s, delims),
    ensures
        spec_split(s, delims) == seq![s],
    decreases s.len(),
{
    if s.len() == 0 {
        assert(spec_split(s, delims) =~~= seq![s]);
    } else {
        assert(spec_no_delim(s.drop_first(), delims));
        lemma_split_whole(s.drop_first(), delims);
        lemma_split_len(s.drop_first(), delims);
        assert(seq![s[0]] + s.drop_first() =~= s);
        assert(spec_split(s, delims) =~~= seq![s]);
    }
}

/// Splitting at the first delimiter: a delimiter-free prefix becomes the
/// first field, and the rest splits on its own.
pub proof fn lemma_split_concat(a: Seq<char>, c: char, b: Seq<char>, delims: Seq<char>)
    requires
        delims.contains(c),
        spec_no_delim(a, delims),
    ensures
        spec_split(a + seq![c] + b, delims) == seq![a] + spec_split(b, delims),
    decreases a.len(),
{
    let s = a + seq![c] + b;
    if a.len() == 0 {
        assert(s =~= seq![c] + b);
        assert(s.len() > 0 && s[0] == c);
        assert(s.drop_first() =~= b);
        assert(spec_split(s, delims) =~~= seq![a] + spec_split(b, delims));
    } else {
        assert(s.len() > 0 && s[0] == a[0]);
        assert(!delims.contains(s[0]));
        assert(s.drop_first() =~= a.drop_first() + seq![c] + b);
        assert(spec_no_delim(a.drop_first(), delims));
        lemma_split_concat(a.drop_first(), c, b, delims);
        lemma_split_len(b, delims);
        let rest = spec_split(s.drop_first(), delims);
        assert(rest == seq![a.drop_first()] + spec_split(b, delims));
        assert(rest[0] == a.drop_first());
        assert(seq![s[0]] + rest[0] =~= a);
        assert(rest.drop_first() =~= spec_split(b, delims));
        assert(spec_split(s, delims) =~~= seq![a] + spec_split(b, delims));
    }
}

// ---------------------------------------------------------------------------
// Trimming
// ---------------------------------------------------------------------------

/// `s` without leading whitespace.
pub open spec fn spec_trim_front(s: Seq<char>) -> Seq<char>
    decreases s.len(),
{
    if s.len() > 0 && spec_is_space(s[0]) {
        spec_trim_front(s.drop_first())
    } else {
        s
    }
}

/// `s` without trailing whitespace.
pub open spec fn spec_trim_back(s: Seq<char>) -> Seq<char>
    decreases s.len(),
{
    if s.len() > 0 && spec_is_space(s.last()) {
        spec_trim_back(s.drop_last())
    } else {
        s
    }
}

/// `s` without leading or trailing whitespace.
pub open spec fn spec_trim(s: Seq<char>) -> Seq<char> {
    spec_trim_back(spec_trim_front(s))
}

// ---------------------------------------------------------------------------
// Numeric fields
// ---------------------------------------------------------------------------

/// A numeric field: nonempty, all digits, and within `u32` range.
pub open spec fn spec_parse_u32(s: Seq<char>) -> Option<u32> {
    if s.len() > 0 && spec_all_digits(s) && spec_digits_val(s) <= u32::MAX {
        Some(spec_digits_val(s) as u32)
    } else {
        None
    }
}

/// A recurrence count: nonempty, all digits, and within `u64` range.
pub open spec fn spec_parse_u64(s: Seq<char>) -> Option<u64> {
    if s.len() > 0 && spec_all_digits(s) && spec_digits_val(s) <= u64::MAX {
        Some(spec_digits_val(s) as u64)
    } else {
        None
    }
}

// ---------------------------------------------------------------------------
// Timestamp tokens
// ---------------------------------------------------------------------------

/// The delimiters that separate the fields of a timestamp token.
pub open spec fn spec_ts_delims() -> Seq<char> {
    seq!['-', 'T', ':']
}

/// Optional trailing field: absent fields default to zero.
pub open spec fn spec_field_or_zero(f: Seq<Seq<char>>, i: int) -> Option<u32> {
    if f.len() > i {
        spec_parse_u32(f[i])
    } else {
        Some(0)
    }
}

/// Reads a timestamp token: numeric fields `year-month-dayThour:minute:second`
/// with the last three optional, then the calendar check. A field that is
/// not a plain number gives `InvalidInterval`; a civil time that does not
/// exist, or a year beyond the supported range, gives `InvalidTimestamp`.
pub open spec fn spec_parse_ts(s: Seq<char>) -> Result<Timestamp, Error> {
    let f = spec_split(s, spec_ts_delims());
    if f.len() < 3 {
        Err(Error::InvalidInterval)
    } else {
        match (spec_parse_u32(f[0]), spec_parse_u32(f[1]), spec_parse_u32(f[2]), spec_field_or_zero(
            f,
            3,
        ), spec_field_or_zero(f, 4), spec_field_or_zero(f, 5)) {
            (Some(y), Some(mo), Some(d), Some(h), Some(mi), Some(sec)) => {
                let t = Timestamp {
                    year: y as u16,
                    month: mo as u8,
                    day: d as u8,
                    hour: h as u8,
                    minute: mi as u8,
                    second: sec as u8,
                };
                if y <= MAX_YEAR as u32 && 1 <= mo <= 12 && 1 <= d && d <= spec_days_in_month(
                    y as int,
                    mo as int,
                ) && h < 24 && mi < 60 && sec < 60 {
                    Ok(t)
                } else {
                    Err(Error::InvalidTimestamp)
                }
            },
            _ => Err(Error::InvalidInterval),
        }
    }
}

// ---------------------------------------------------------------------------
// The interval specification before the tab
// ---------------------------------------------------------------------------

/// Reads the interval specification: empty for an undated entry, one
/// timestamp for a plain time, `start/end` for a one-shot span, and
/// `R/start/end` or `Rn/start/end` for a recurrence. Any other token shape
/// is `InvalidInterval`.
pub open spec fn spec_parse_interval(s: Seq<char>) -> Result<
    (Option<Timestamp>, Interval),
    Error,
> {
    if s.len() == 0 {
        Ok((None, Interval::NoInterval))
    } else {
        let toks = spec_split(s, seq!['/']);
        if toks.len() == 1 {
            match spec_parse_ts(toks[0]) {
                Ok(t) => Ok((Some(t), Interval::NoInterval)),
                Err(e) => Err(e),
            }
        } else if toks.len() == 2 {
            match spec_parse_ts(toks[0]) {
                Err(e) => Err(e),
                Ok(t1) => match spec_parse_ts(toks[1]) {
                    Err(e) => Err(e),
                    Ok(t2) => Ok((Some(t1), Interval::FixedSpan(t2))),
                },
            }
        } else if toks.len() == 3 {
            if toks[0].len() == 0 || toks[0][0] != 'R' {
                Err(Error::InvalidInterval)
            } else {
                let digits = toks[0].drop_first();
                if digits.len() == 0 {
                    match spec_parse_ts(toks[2]) {
                        Err(e) => Err(e),
                        Ok(end) => match spec_parse_ts(toks[1]) {
                            Err(e) => Err(e),
                            Ok(st) => Ok((Some(st), Interval::RecurringIndefinite(end))),
                        },
                    }
                } else {
                    match spec_parse_u64(digits) {
                        None => Err(Error::InvalidInterval),
                        Some(n) => match spec_parse_ts(toks[2]) {
                            Err(e) => Err(e),
                            Ok(end) => match spec_parse_ts(toks[1]) {
                                Err(e) => Err(e),
                                Ok(st) => Ok(
                                    (Some(st), Interval::RecurringCounted { occurrences: n, end }),
                                ),
                            },
                        },
                    }
                }
            }
        } else {
            Err(Error::InvalidInterval)
        }
    }
}

// ---------------------------------------------------------------------------
// Whole records
// ---------------------------------------------------------------------------

/// Reads one buffer line, `interval-spec '\t' description`: no tab at all is
/// `InvalidRecord`; a line whose interval specification is empty and whose
/// trimmed description is empty is `NoInformation`. The description is the
/// text between the first tab and the next one, trimmed.
pub open spec fn spec_decode(s: Seq<char>) -> Result<EventV, Error> {
    let parts = spec_split(s, seq!['\t']);
    if parts.len() == 1 {
        Err(Error::InvalidRecord)
    } else {
        let desc = spec_trim(parts[1]);
        match spec_parse_interval(parts[0]) {
            Err(e) => Err(e),
            Ok((start, interval)) => if start is None && desc.len() == 0 {
                Err(Error::NoInformation)
            } else {
                Ok(EventV { start, interval, description: desc })
            },
        }
    }
}

// ---------------------------------------------------------------------------
// Rendering
// ---------------------------------------------------------------------------

/// Decimal rendering of `n`, zero-padded on the left to at least `w` digits.
pub open spec fn spec_fmt_uint(n: nat, w: nat) -> Seq<char>
    decreases n + w,
{
    if n <= 9 && w <= 1 {
        seq![spec_digit_char(n as int)]
    } else {
        spec_fmt_uint(n / 10, if w <= 1 {
            0
        } else {
            (w - 1) as nat
        }) + seq![spec_digit_char((n % 10) as int)]
    }
}

/// A timestamp as the codec writes it: minute granularity, zero-padded.
pub open spec fn spec_fmt_ts(t: Timestamp) -> Seq<char> {
    spec_fmt_uint(t.year as nat, 4) + seq!['-'] + spec_fmt_uint(t.month as nat, 2) + seq!['-']
        + spec_fmt_uint(t.day as nat, 2) + seq!['T'] + spec_fmt_uint(t.hour as nat, 2) + seq![':']
        + spec_fmt_uint(t.minute as nat, 2)
}

/// One buffer line for an entry: the inverse of `spec_decode`, at minute
/// granularity.
pub open spec fn spec_encode(e: EventV) -> Seq<char> {
    match (e.start, e.interval) {
        (None, _) => seq!['\t'] + e.description,
        (Some(s), Interval::RecurringCounted { occurrences: n, end }) => seq!['R'] + spec_fmt_uint(
            n as nat,
            1,
        ) + seq!['/'] + spec_fmt_ts(s) + seq!['/'] + spec_fmt_ts(end) + seq!['\t'] + e.description,
        (Some(s), Interval::RecurringIndefinite(end)) => seq!['R', '/'] + spec_fmt_ts(s)
            + seq!['/'] + spec_fmt_ts(end) + seq!['\t'] + e.description,
        (Some(s), Interval::FixedSpan(end)) => spec_fmt_ts(s) + seq!['/'] + spec_fmt_ts(end)
            + seq!['\t'] + e.description,
        (Some(s), Interval::NoInterval) => spec_fmt_ts(s) + seq!['\t'] + e.description,
    }
}

// ---------------------------------------------------------------------------
// Reading digit strings
// ---------------------------------------------------------------------------

/// A digit string's value is never negative.
proof fn lemma_digits_val_nonneg(s: Seq<char>)
    requires
        spec_all_digits(s),
    ensures
        spec_digits_val(s) >= 0,
    decreases s.len(),
{
    if s.len() > 0 {
        assert(spec_all_digits(s.drop_last()));
        lemma_digits_val_nonneg(s.drop_last());
    }
}

/// Extending a digit string never lowers its value.
proof fn lemma_digits_val_prefix(s: Seq<char>, j: int)
    requires
        spec_all_digits(s),
        0 <= j <= s.len(),
    ensures
        spec_digits_val(s.take(j)) <= spec_digits_val(s),
    decreases s.len(),
{
    if j == s.len() {
        assert(s.take(j) =~= s);
    } else {
        assert(spec_all_digits(s.drop_last()));
        assert(s.take(j) =~= s.drop_last().take(j));
        lemma_digits_val_prefix(s.drop_last(), j);
        lemma_digits_val_nonneg(s.drop_last());
    }
}

/// Reads an unbounded digit string, refusing values beyond `u64` range.
fn parse_digits(s: &[char]) -> (r: Option<u64>)
    ensures
        match r {
            Some(v) => s@.len() > 0 && spec_all_digits(s@) && spec_digits_val(s@) == v,
            None => s@.len() == 0 || !spec_all_digits(s@) || spec_digits_val(s@) > u64::MAX,
        },
{
    if s.len() == 0 {
        return None;
    }
    let mut acc: u64 = 0;
    let mut i: usize = 0;
    while i < s.len()
        invariant
            0 <= i <= s@.len(),
            spec_all_digits(s@.take(i as int)),
            acc == spec_digits_val(s@.take(i as int)),
        decreases s@.len() - i,
    {
        let c = s[i];
        let u = c as u32;
        if u < 48 || u > 57 {
            assert(!spec_is_digit(s@[i as int]));
            return None;
        }
        let d = (u - 48) as u64;
        proof {
            assert(s@.take(i as int + 1).drop_last() =~= s@.take(i as int));
            assert(s@.take(i as int + 1).last() == s@[i as int]);
        }
        if acc > (u64::MAX - d) / 10 {
            proof {
                vstd::arithmetic::div_mod::lemma_fundamental_div_mod(
                    u64::MAX - d,
                    10,
                );
                vstd::arithmetic::div_mod::lemma_mod_division_less_than_divisor(
                    u64::MAX - d,
                    10,
                );
                assert(acc * 10 + d > u64::MAX);
                assert(spec_digits_val(s@.take(i as int + 1)) > u64::MAX);
                if !spec_all_digits(s@) {
                } else {
                    lemma_digits_val_prefix(s@, i as int + 1);
                }
            }
            return None;
        }
        acc = acc * 10 + d;
        i = i + 1;
    }
    proof {
        assert(s@.take(i as int) =~= s@);
    }
    Some(acc)
}

/// Reads a numeric timestamp field.
fn parse_u32_field(s: &[char]) -> (r: Option<u32>)
    ensures
        r == spec_parse_u32(s@),
{
    proof {
        if spec_all_digits(s@) {
            lemma_digits_val_nonneg(s@);
        }
    }
    match parse_digits(s) {
        Some(v) => if v <= u32::MAX as u64 {
            Some(v as u32)
        } else {
            None
        },
        None => None,
    }
}

/// Reads a recurrence count.
fn parse_u64_field(s: &[char]) -> (r: Option<u64>)
    ensures
        r == spec_parse_u64(s@),
{
    proof {
        if spec_all_digits(s@) {
            lemma_digits_val_nonneg(s@);
        }
    }
    parse_digits(s)
}

// ---------------------------------------------------------------------------
// Splitting and trimming, executably
// ---------------------------------------------------------------------------

fn contains_char(delims: &[char], c: char) -> (r: bool)
    ensures
        r == delims@.contains(c),
{
    let mut i: usize = 0;
    while i < delims.len()
        invariant
            0 <= i <= delims@.len(),
            forall|j: int| 0 <= j < i ==> delims@[j] != c,
        decreases delims@.len() - i,
    {
        if delims[i] == c {
            return true;
        }
        i = i + 1;
    }
    false
}

/// The continuation of a split: the text still to scan, with `pre` already
/// read as the beginning of the next field.
spec fn spec_split_cons(pre: Seq<char>, rest: Seq<char>, delims: Seq<char>) -> Seq<Seq<char>> {
    let r = spec_split(rest, delims);
    seq![pre + r[0]] + r.drop_first()
}

fn split_chars(s: &[char], delims: &[char]) -> (r: Vec<Vec<char>>)
    ensures
        r@.map_values(|v: Vec<char>| v@) == spec_split(s@, delims@),
{
    let ghost dl = delims@;
    let mut done: Vec<Vec<char>> = Vec::new();
    let mut cur: Vec<char> = Vec::new();
    let mut i: usize = 0;
    proof {
        assert(s@.skip(0) =~= s@);
        assert(done@.map_values(|v: Vec<char>| v@) =~= Seq::<Seq<char>>::empty());
    }
    while i < s.len()
        invariant
            0 <= i <= s@.len(),
            dl == delims@,
            spec_split(s@, dl) == done@.map_values(|v: Vec<char>| v@) + spec_split_cons(
                cur@,
                s@.skip(i as int),
                dl,
            ),
        decreases s@.len() - i,
    {
        let c = s[i];
        proof {
            assert(s@.skip(i as int) =~= seq![s@[i as int]] + s@.skip(i as int + 1));
            assert(s@.skip(i as int).len() > 0);
            assert(s@.skip(i as int)[0] == s@[i as int]);
            assert(s@.skip(i as int).drop_first() =~= s@.skip(i as int + 1));
            lemma_split_len(s@.skip(i as int + 1), dl);
        }
        if contains_char(delims, c) {
            let ghost old_done = done@;
            let ghost old_cur = cur@;
            done.push(cur);
            cur = Vec::new();
            proof {
                let rr = spec_split(s@.skip(i as int + 1), dl);
                assert(spec_split(s@.skip(i as int), dl) =~= seq![Seq::<char>::empty()] + rr);
                assert(spec_split_cons(old_cur, s@.skip(i as int), dl) =~= seq![old_cur] + rr);
                assert(Seq::<char>::empty() + rr[0] =~= rr[0]);
                assert(spec_split_cons(Seq::<char>::empty(), s@.skip(i as int + 1), dl) =~= rr);
                assert(done@.map_values(|v: Vec<char>| v@) =~= old_done.map_values(
                    |v: Vec<char>| v@,
                ).push(old_cur));
            }
        } else {
            let ghost old_cur = cur@;
            cur.push(c);
            proof {
                let rr = spec_split(s@.skip(i as int + 1), dl);
                assert(spec_split(s@.skip(i as int), dl) =~= seq![seq![s@[i as int]] + rr[0]]
                    + rr.drop_first());
                assert(old_cur + (seq![s@[i as int]] + rr[0]) =~= cur@ + rr[0]);
                assert(spec_split_cons(old_cur, s@.skip(i as int), dl) =~= spec_split_cons(
                    cur@,
                    s@.skip(i as int + 1),
                    dl,
                ));
            }
        }
        i = i + 1;
    }
    proof {
        assert(s@.skip(i as int) =~= Seq::<char>::empty());
        assert(spec_split(Seq::<char>::empty(), dl) =~= seq![Seq::<char>::empty()]);
        assert(cur@ + Seq::<char>::empty() =~= cur@);
        assert(spec_split_cons(cur@, s@.skip(i as int), dl) =~= seq![cur@]);
    }
    let ghost old_done = done@;
    done.push(cur);
    proof {
        assert(done@.map_values(|v: Vec<char>| v@) =~= old_done.map_values(|v: Vec<char>| v@).push(
            cur@,
        ));
        assert(done@.map_values(|v: Vec<char>| v@) =~= spec_split(s@, dl));
    }
    done
}

fn is_space(c: char) -> (r: bool)
    ensures
        r == spec_is_space(c),
{
    let u = c as u32;
    c == ' ' || c == '\t' || c == '\n' || c == '\r' || c == '\u{b}' || c == '\u{c}' || c
        == '\u{85}' || c == '\u{a0}' || c == '\u{1680}' || (8192 <= u && u <= 8202) || c
        == '\u{2028}' || c == '\u{2029}' || c == '\u{202f}' || c == '\u{205f}' || c
        == '\u{3000}'
}

/// Strips leading and trailing whitespace.
fn trim_chars(s: &[char]) -> (r: Vec<char>)
    ensures
        r@ == spec_trim(s@),
{
    let mut start: usize = 0;
    proof {
        assert(s@.skip(0) =~= s@);
    }
    while start < s.len() && is_space(s[start])
        invariant
            0 <= start <= s@.len(),
            spec_trim_front(s@) == spec_trim_front(s@.skip(start as int)),
        decreases s@.len() - start,
    {
        proof {
            assert(s@.skip(start as int)[0] == s@[start as int]);
            assert(s@.skip(start as int).drop_first() =~= s@.skip(start as int + 1));
        }
        start = start + 1;
    }
    proof {
        if start < s@.len() {
            assert(s@.skip(start as int)[0] == s@[start as int]);
        }
        assert(spec_trim_front(s@) == s@.skip(start as int));
    }
    let ghost t = s@.skip(start as int);
    let mut end: usize = s.len();
    proof {
        assert(t.take(t.len() as int) =~= t);
    }
    while end > start && is_space(s[end - 1])
        invariant
            start <= end <= s@.len(),
            t == s@.skip(start as int),
            spec_trim_back(t) == spec_trim_back(t.take(end - start)),
        decreases end,
    {
        proof {
            assert(t.take(end - start).last() == s@[end - 1]);
            assert(t.take(end - start).drop_last() =~= t.take(end - 1 - start));
        }
        end = end - 1;
    }
    proof {
        if end > start {
            assert(t.take(end - start).last() == s@[end - 1]);
        }
        assert(spec_trim_back(t) == t.take(end - start));
    }
    let mut out: Vec<char> = Vec::new();
    let mut k: usize = start;
    while k < end
        invariant
            start <= k <= end <= s@.len(),
            out@ == s@.subrange(start as int, k as int),
        decreases end - k,
    {
        out.push(s[k]);
        proof {
            assert(s@.subrange(start as int, k as int).push(s@[k as int]) =~= s@.subrange(
                start as int,
                k as int + 1,
            ));
        }
        k = k + 1;
    }
    proof {
        assert(out@ =~= t.take(end - start));
    }
    out
}

// ---------------------------------------------------------------------------
// Reading tokens, executably
// ---------------------------------------------------------------------------

/// The text after its first character.
fn tail_of(v: &Vec<char>) -> (r: Vec<char>)
    requires
        v@.len() > 0,
    ensures
        r@ == v@.drop_first(),
{
    let mut out: Vec<char> = Vec::new();
    let mut i: usize = 1;
    while i < v.len()
        invariant
            1 <= i <= v@.len(),
            out@ == v@.subrange(1, i as int),
        decreases v@.len() - i,
    {
        out.push(v[i]);
        proof {
            assert(v@.subrange(1, i as int).push(v@[i as int]) =~= v@.subrange(1, i as int + 1));
        }
        i = i + 1;
    }
    proof {
        assert(out@ =~= v@.drop_first());
    }
    out
}

/// Reads one timestamp token of the compact grammar, as `spec_parse_ts`
/// says: syntax first, then the calendar check.
pub fn timestamp_from_iso(s: &[char]) -> (r: Result<Timestamp, Error>)
    ensures
        r == spec_parse_ts(s@),
{
    let delims: Vec<char> = vec!['-', 'T', ':'];
    proof {
        assert(delims@ =~= spec_ts_delims());
    }
    let f = split_chars(s, delims.as_slice());
    let ghost fv = spec_split(s@, spec_ts_delims());
    if f.len() < 3 {
        return Err(Error::InvalidInterval);
    }
    proof {
        assert(fv[0] == f@[0]@ && fv[1] == f@[1]@ && fv[2] == f@[2]@);
    }
    let y = parse_u32_field(f[0].as_slice());
    let mo = parse_u32_field(f[1].as_slice());
    let d = parse_u32_field(f[2].as_slice());
    let h = if f.len() > 3 {
        proof {
            assert(fv[3] == f@[3]@);
        }
        parse_u32_field(f[3].as_slice())
    } else {
        Some(0u32)
    };
    let mi = if f.len() > 4 {
        proof {
            assert(fv[4] == f@[4]@);
        }
        parse_u32_field(f[4].as_slice())
    } else {
        Some(0u32)
    };
    let sec = if f.len() > 5 {
        proof {
            assert(fv[5] == f@[5]@);
        }
        parse_u32_field(f[5].as_slice())
    } else {
        Some(0u32)
    };
    match (y, mo, d, h, mi, sec) {
        (Some(y), Some(mo), Some(d), Some(h), Some(mi), Some(sec)) => {
            if y <= MAX_YEAR as u32 && 1 <= mo && mo <= 12 && 1 <= d && d <= days_in_month(
                y as u16,
                mo as u8,
            ) as u32 && h < 24 && mi < 60 && sec < 60 {
                Ok(
                    Timestamp {
                        year: y as u16,
                        month: mo as u8,
                        day: d as u8,
                        hour: h as u8,
                        minute: mi as u8,
                        second: sec as u8,
                    },
                )
            } else {
                Err(Error::InvalidTimestamp)
            }
        },
        _ => Err(Error::InvalidInterval),
    }
}

/// Reads the interval specification before the tab, as
/// `spec_parse_interval` says.
pub fn interval_from_spec(s: &[char]) -> (r: Result<(Option<Timestamp>, Interval), Error>)
    ensures
        r == spec_parse_interval(s@),
{
    if s.len() == 0 {
        return Ok((None, Interval::NoInterval));
    }
    let delims: Vec<char> = vec!['/'];
    let toks = split_chars(s, delims.as_slice());
    let ghost tv = spec_split(s@, seq!['/']);
    proof {
        assert(delims@ =~= seq!['/']);
        lemma_split_len(s@, seq!['/']);
    }
    if toks.len() == 1 {
        proof {
            assert(tv[0] == toks@[0]@);
        }
        match timestamp_from_iso(toks[0].as_slice()) {
            Ok(t) => Ok((Some(t), Interval::NoInterval)),
            Err(e) => Err(e),
        }
    } else if toks.len() == 2 {
        proof {
            assert(tv[0] == toks@[0]@ && tv[1] == toks@[1]@);
        }
        match timestamp_from_iso(toks[0].as_slice()) {
            Err(e) => Err(e),
            Ok(t1) => match timestamp_from_iso(toks[1].as_slice()) {
                Err(e) => Err(e),
                Ok(t2) => Ok((Some(t1), Interval::FixedSpan(t2))),
            },
        }
    } else if toks.len() == 3 {
        proof {
            assert(tv[0] == toks@[0]@ && tv[1] == toks@[1]@ && tv[2] == toks@[2]@);
        }
        if toks[0].len() == 0 {
            return Err(Error::InvalidInterval);
        }
        if toks[0][0] != 'R' {
            return Err(Error::InvalidInterval);
        }
        let digits = tail_of(&toks[0]);
        if digits.len() == 0 {
            match timestamp_from_iso(toks[2].as_slice()) {
                Err(e) => Err(e),
                Ok(end) => match timestamp_from_iso(toks[1].as_slice()) {
                    Err(e) => Err(e),
                    Ok(st) => Ok((Some(st), Interval::RecurringIndefinite(end))),
                },
            }
        } else {
            match parse_u64_field(digits.as_slice()) {
                None => Err(Error::InvalidInterval),
                Some(n) => match timestamp_from_iso(toks[2].as_slice()) {
                    Err(e) => Err(e),
                    Ok(end) => match timestamp_from_iso(toks[1].as_slice()) {
                        Err(e) => Err(e),
                        Ok(st) => Ok((Some(st), Interval::RecurringCounted { occurrences: n, end })),
                    },
                },
            }
        }
    } else {
        Err(Error::InvalidInterval)
    }
}

/// Reads one buffer line into an entry. The civil reading follows
/// `spec_decode` exactly; on top of it, a timestamp the local time zone
/// cannot resolve uniquely is refused with `InvalidTimestamp`. An undated
/// line carries no timestamp, so the zone has no say: there the civil
/// reading alone decides, and success is owed.
pub fn decode(s: &[char]) -> (r: Result<Event, Error>)
    ensures
        match spec_decode(s@) {
            Err(e) => r == Err::<Event, Error>(e),
            Ok(ev) => (r matches Ok(got) && got@ == ev) || r == Err::<Event, Error>(
                Error::InvalidTimestamp,
            ),
        },
        spec_decode(s@) is Ok && spec_decode(s@)->Ok_0.start is None ==> r is Ok && r->Ok_0@
            == spec_decode(s@)->Ok_0,
{
    let delims: Vec<char> = vec!['\t'];
    let parts = split_chars(s, delims.as_slice());
    let ghost pv = spec_split(s@, seq!['\t']);
    proof {
        assert(delims@ =~= seq!['\t']);
    }
    if parts.len() == 1 {
        return Err(Error::InvalidRecord);
    }
    proof {
        assert(pv[0] == parts@[0]@ && pv[1] == parts@[1]@);
    }
    let desc = trim_chars(parts[1].as_slice());
    match interval_from_spec(parts[0].as_slice()) {
        Err(e) => Err(e),
        Ok((start, interval)) => {
            if start.is_none() && desc.len() == 0 {
                return Err(Error::NoInformation);
            }
            proof {
                if start is None {
                    assert(interval == Interval::NoInterval);
                }
            }
            match &start {
                Some(t) => if !crate::timestamp::local_time_is_unique(t) {
                    return Err(Error::InvalidTimestamp);
                },
                None => {},
            }
            match &interval {
                Interval::RecurringCounted { end, .. } => if !crate::timestamp::local_time_is_unique(
                    end,
                ) {
                    return Err(Error::InvalidTimestamp);
                },
                Interval::RecurringIndefinite(end) => if !crate::timestamp::local_time_is_unique(
                    end,
                ) {
                    return Err(Error::InvalidTimestamp);
                },
                Interval::FixedSpan(end) => if !crate::timestamp::local_time_is_unique(end) {
                    return Err(Error::InvalidTimestamp);
                },
                Interval::NoInterval => {},
            }
            Ok(Event { start, interval, description: desc })
        },
    }
}

// ---------------------------------------------------------------------------
// Writing records, executably
// ---------------------------------------------------------------------------

fn digit_char(d: u8) -> (r: char)
    requires
        d <= 9,
    ensures
        r == spec_digit_char(d as int),
{
    match d {
        0 => '0',
        1 => '1',
        2 => '2',
        3 => '3',
        4 => '4',
        5 => '5',
        6 => '6',
        7 => '7',
        8 => '8',
        _ => '9',
    }
}

fn fmt_uint(n: u64, w: u8) -> (r: Vec<char>)
    ensures
        r@ == spec_fmt_uint(n as nat, w as nat),
    decreases n + w,
{
    if n <= 9 && w <= 1 {
        let mut v: Vec<char> = Vec::new();
        v.push(digit_char(n as u8));
        proof {
            assert(v@ =~= seq![spec_digit_char(n as int)]);
        }
        v
    } else {
        proof {
            if n >= 10 {
                vstd::arithmetic::div_mod::lemma_div_is_strictly_smaller(n as int, 10);
            } else {
                vstd::arithmetic::div_mod::lemma_basic_div(n as int, 10);
            }
        }
        let w2: u8 = if w <= 1 {
            0
        } else {
            w - 1
        };
        let mut v = fmt_uint(n / 10, w2);
        proof {
            vstd::arithmetic::div_mod::lemma_mod_division_less_than_divisor(n as int, 10);
            vstd::arithmetic::div_mod::lemma_fundamental_div_mod(n as int, 10);
        }
        v.push(digit_char((n % 10) as u8));
        proof {
            assert((n / 10) as nat == (n as nat) / 10);
            assert((n % 10) as nat == (n as nat) % 10);
            assert(v@ =~= spec_fmt_uint((n as nat) / 10, if w as nat <= 1 {
                0
            } else {
                (w - 1) as nat
            }) + seq![spec_digit_char(((n as nat) % 10) as int)]);
        }
        v
    }
}

fn push_all(dst: &mut Vec<char>, src: &Vec<char>)
    ensures
        final(dst)@ == old(dst)@ + src@,
{
    let mut i: usize = 0;
    proof {
        assert(dst@ =~= dst@ + src@.take(0));
    }
    while i < src.len()
        invariant
            0 <= i <= src@.len(),
            dst@ == old(dst)@ + src@.take(i as int),
        decreases src@.len() - i,
    {
        dst.push(src[i]);
        proof {
            assert((old(dst)@ + src@.take(i as int)).push(src@[i as int]) =~= old(dst)@
                + src@.take(i as int + 1));
        }
        i = i + 1;
    }
    proof {
        assert(old(dst)@ + src@.take(i as int) =~= old(dst)@ + src@);
    }
}

fn fmt_ts(t: &Timestamp) -> (r: Vec<char>)
    ensures
        r@ == spec_fmt_ts(*t),
{
    let mut v = fmt_uint(t.year as u64, 4);
    v.push('-');
    let mut p = fmt_uint(t.month as u64, 2);
    v.append(&mut p);
    v.push('-');
    let mut p = fmt_uint(t.day as u64, 2);
    v.append(&mut p);
    v.push('T');
    let mut p = fmt_uint(t.hour as u64, 2);
    v.append(&mut p);
    v.push(':');
    let mut p = fmt_uint(t.minute as u64, 2);
    v.append(&mut p);
    proof {
        assert(v@ =~= spec_fmt_ts(*t));
    }
    v
}

/// Writes one entry back into its buffer line: the inverse of `decode`, at
/// minute granularity.
pub fn event_to_record(e: &Event) -> (r: Vec<char>)
    ensures
        r@ == spec_encode(e@),
{
    match (&e.start, &e.interval) {
        (None, _) => {
            let mut v: Vec<char> = Vec::new();
            v.push('\t');
            push_all(&mut v, &e.description);
            proof {
                assert(v@ =~= spec_encode(e@));
            }
            v
        },
        (Some(s), Interval::RecurringCounted { occurrences, end }) => {
            let mut v: Vec<char> = Vec::new();
            v.push('R');
            let mut p = fmt_uint(*occurrences, 1);
            v.append(&mut p);
            v.push('/');
            let mut p = fmt_ts(s);
            v.append(&mut p);
            v.push('/');
            let mut p = fmt_ts(end);
            v.append(&mut p);
            v.push('\t');
            push_all(&mut v, &e.description);
            proof {
                assert(v@ =~= spec_encode(e@));
            }
            v
        },
        (Some(s), Interval::RecurringIndefinite(end)) => {
            let mut v: Vec<char> = Vec::new();
            v.push('R');
            v.push('/');
            let mut p = fmt_ts(s);
            v.append(&mut p);
            v.push('/');
            let mut p = fmt_ts(end);
            v.append(&mut p);
            v.push('\t');
            push_all(&mut v, &e.description);
            proof {
                assert(v@ =~= spec_encode(e@));
            }
            v
        },
        (Some(s), Interval::FixedSpan(end)) => {
            let mut v = fmt_ts(s);
            v.push('/');
            let mut p = fmt_ts(end);
            v.append(&mut p);
            v.push('\t');
            push_all(&mut v, &e.description);
            proof {
                assert(v@ =~= spec_encode(e@));
            }
            v
        },
        (Some(s), Interval::NoInterval) => {
            let mut v = fmt_ts(s);
            v.push('\t');
            push_all(&mut v, &e.description);
            proof {
                assert(v@ =~= spec_encode(e@));
            }
            v
        },
    }
}

// ---------------------------------------------------------------------------
// Display labels
// ---------------------------------------------------------------------------

/// The pane label for a timestamp: month and day, with the clock time added
/// unless it is midnight.
pub open spec fn spec_time_label(t: Timestamp) -> Seq<char> {
    if t.hour == 0 && t.minute == 0 {
        spec_fmt_uint(t.month as nat, 2) + seq!['-'] + spec_fmt_uint(t.day as nat, 2)
    } else {
        spec_fmt_uint(t.month as nat, 2) + seq!['-'] + spec_fmt_uint(t.day as nat, 2) + seq![' ']
            + spec_fmt_uint(t.hour as nat, 2) + seq![':'] + spec_fmt_uint(t.minute as nat, 2)
    }
}

fn time_label(t: &Timestamp) -> (r: Vec<char>)
    ensures
        r@ == spec_time_label(*t),
{
    let mut v = fmt_uint(t.month as u64, 2);
    v.push('-');
    let mut p = fmt_uint(t.day as u64, 2);
    v.append(&mut p);
    if t.hour != 0 || t.minute != 0 {
        v.push(' ');
        let mut p = fmt_uint(t.hour as u64, 2);
        v.append(&mut p);
        v.push(':');
        let mut p = fmt_uint(t.minute as u64, 2);
        v.append(&mut p);
    }
    proof {
        assert(v@ =~= spec_time_label(*t));
    }
    v
}

/// The start-time column text for an entry; an undated entry has none.
pub fn start_time(e: &Event) -> (r: Option<Vec<char>>)
    ensures
        match e@.start {
            Some(t) => (r matches Some(v) && v@ == spec_time_label(t)),
            None => r is None,
        },
{
    match &e.start {
        Some(t) => Some(time_label(t)),
        None => None,
    }
}

/// The end-time column text for an entry; one without an interval end has
/// none.
pub fn end_time(e: &Event) -> (r: Option<Vec<char>>)
    ensures
        match e@.interval {
            Interval::RecurringCounted { end, .. } => (r matches Some(v) && v@ == spec_time_label(
                end,
            )),
            Interval::RecurringIndefinite(end) => (r matches Some(v) && v@ == spec_time_label(
                end,
            )),
            Interval::FixedSpan(end) => (r matches Some(v) && v@ == spec_time_label(end)),
            Interval::NoInterval => r is None,
        },
{
    match &e.interval {
        Interval::RecurringCounted { end, .. } => Some(time_label(end)),
        Interval::RecurringIndefinite(end) => Some(time_label(end)),
        Interval::FixedSpan(end) => Some(time_label(end)),
        Interval::NoInterval => None,
    }
}

// ---------------------------------------------------------------------------
// The codec round trip
// ---------------------------------------------------------------------------

/// The entry with all its timestamps cut to minute granularity, as the codec
/// renders them.
pub open spec fn spec_truncate_event(e: EventV) -> EventV {
    EventV {
        start: match e.start {
            None => None,
            Some(t) => Some(t.spec_truncate_minutes()),
        },
        interval: match e.interval {
            Interval::RecurringCounted { occurrences, end } => Interval::RecurringCounted {
                occurrences,
                end: end.spec_truncate_minutes(),
            },
            Interval::RecurringIndefinite(end) => Interval::RecurringIndefinite(
                end.spec_truncate_minutes(),
            ),
            Interval::FixedSpan(end) => Interval::FixedSpan(end.spec_truncate_minutes()),
            Interval::NoInterval => Interval::NoInterval,
        },
        description: e.description,
    }
}

/// An entry the codec grammar can produce: valid timestamps, an interval
/// only on a dated entry, something to say for an undated one, and a
/// description that survives the tab split and the trim unchanged.
pub open spec fn spec_codec_wf(e: EventV) -> bool {
    &&& e.wf()
    &&& (e.start is None ==> e.interval == Interval::NoInterval && e.description.len() > 0)
    &&& spec_trim(e.description) == e.description
    &&& !e.description.contains('\t')
}

/// Each digit character reads back as its value.
proof fn lemma_digit_char_val(d: int)
    requires
        0 <= d <= 9,
    ensures
        spec_is_digit(spec_digit_char(d)),
        spec_digit_val(spec_digit_char(d)) == d,
{
    assert('0' as u32 == 48 && '1' as u32 == 49 && '2' as u32 == 50 && '3' as u32 == 51 && '4'
        as u32 == 52 && '5' as u32 == 53 && '6' as u32 == 54 && '7' as u32 == 55 && '8' as u32
        == 56 && '9' as u32 == 57);
}

/// A rendered number is a nonempty digit string with the same value.
proof fn lemma_fmt_uint_props(n: nat, w: nat)
    ensures
        spec_all_digits(spec_fmt_uint(n, w)),
        spec_digits_val(spec_fmt_uint(n, w)) == n,
        spec_fmt_uint(n, w).len() >= 1,
    decreases n + w,
{
    let s = spec_fmt_uint(n, w);
    if n <= 9 && w <= 1 {
        lemma_digit_char_val(n as int);
        assert(s.drop_last() =~= Seq::<char>::empty());
        assert(s.last() == spec_digit_char(n as int));
        assert(spec_digits_val(Seq::<char>::empty()) == 0);
        assert(spec_digits_val(s) == spec_digits_val(s.drop_last()) * 10 + spec_digit_val(
            s.last(),
        ));
        assert(spec_digits_val(s) == n);
    } else {
        let w2: nat = if w <= 1 {
            0
        } else {
            (w - 1) as nat
        };
        lemma_fmt_uint_props(n / 10, w2);
        let sub = spec_fmt_uint(n / 10, w2);
        let last = spec_digit_char((n % 10) as int);
        vstd::arithmetic::div_mod::lemma_mod_division_less_than_divisor(n as int, 10);
        lemma_digit_char_val((n % 10) as int);
        assert(s == sub + seq![last]);
        assert(s.drop_last() =~= sub);
        assert(s.last() == last);
        vstd::arithmetic::div_mod::lemma_fundamental_div_mod(n as int, 10);
        assert(spec_digits_val(s) == spec_digits_val(sub) * 10 + spec_digit_val(last));
        assert(forall|i: int|
            0 <= i < s.len() ==> spec_is_digit(#[trigger] s[i])) by {
            assert(forall|i: int| 0 <= i < sub.len() ==> spec_is_digit(#[trigger] sub[i]));
            assert(forall|i: int|
                0 <= i < s.len() ==> s[i] == (if i < sub.len() {
                    sub[i]
                } else {
                    last
                }));
        }
    }
}

/// Text of digits holds none of the given delimiters, when no delimiter is
/// itself a digit.
proof fn lemma_all_digits_no_delim(s: Seq<char>, delims: Seq<char>)
    requires
        spec_all_digits(s),
        forall|j: int| 0 <= j < delims.len() ==> !spec_is_digit(#[trigger] delims[j]),
    ensures
        spec_no_delim(s, delims),
{
    assert forall|i: int| 0 <= i < s.len() implies !delims.contains(s[i]) by {
        if delims.contains(s[i]) {
            let j = choose|j: int| 0 <= j < delims.len() && delims[j] == s[i];
        }
    }
}

/// Delimiter-free texts concatenate to a delimiter-free text.
proof fn lemma_no_delim_concat(a: Seq<char>, b: Seq<char>, delims: Seq<char>)
    requires
        spec_no_delim(a, delims),
        spec_no_delim(b, delims),
    ensures
        spec_no_delim(a + b, delims),
{
    let s = a + b;
    assert forall|i: int| 0 <= i < s.len() implies !delims.contains(s[i]) by {
        if i < a.len() {
            assert(s[i] == a[i]);
        } else {
            assert(s[i] == b[i - a.len()]);
        }
    }
}

/// A rendered timestamp splits back into its five rendered fields.
proof fn lemma_split_fmt_ts(t: Timestamp)
    ensures
        spec_split(spec_fmt_ts(t), spec_ts_delims()) == seq![
            spec_fmt_uint(t.year as nat, 4),
            spec_fmt_uint(t.month as nat, 2),
            spec_fmt_uint(t.day as nat, 2),
            spec_fmt_uint(t.hour as nat, 2),
            spec_fmt_uint(t.minute as nat, 2),
        ],
{
    let dl = spec_ts_delims();
    let y = spec_fmt_uint(t.year as nat, 4);
    let mo = spec_fmt_uint(t.month as nat, 2);
    let d = spec_fmt_uint(t.day as nat, 2);
    let h = spec_fmt_uint(t.hour as nat, 2);
    let mi = spec_fmt_uint(t.minute as nat, 2);
    assert(!spec_is_digit('-') && !spec_is_digit('T') && !spec_is_digit(':'));
    assert(forall|j: int| 0 <= j < dl.len() ==> !spec_is_digit(#[trigger] dl[j]));
    lemma_fmt_uint_props(t.year as nat, 4);
    lemma_fmt_uint_props(t.month as nat, 2);
    lemma_fmt_uint_props(t.day as nat, 2);
    lemma_fmt_uint_props(t.hour as nat, 2);
    lemma_fmt_uint_props(t.minute as nat, 2);
    lemma_all_digits_no_delim(y, dl);
    lemma_all_digits_no_delim(mo, dl);
    lemma_all_digits_no_delim(d, dl);
    lemma_all_digits_no_delim(h, dl);
    lemma_all_digits_no_delim(mi, dl);
    assert(dl.contains('-')) by {
        assert(dl[0] == '-');
    }
    assert(dl.contains('T')) by {
        assert(dl[1] == 'T');
    }
    assert(dl.contains(':')) by {
        assert(dl[2] == ':');
    }
    let r3 = h + seq![':'] + mi;
    let r2 = d + seq!['T'] + r3;
    let r1 = mo + seq!['-'] + r2;
    assert(spec_fmt_ts(t) =~= y + seq!['-'] + r1);
    lemma_split_concat(y, '-', r1, dl);
    assert(r1 =~= mo + seq!['-'] + r2);
    lemma_split_concat(mo, '-', r2, dl);
    assert(r2 =~= d + seq!['T'] + r3);
    lemma_split_concat(d, 'T', r3, dl);
    lemma_split_concat(h, ':', mi, dl);
    lemma_split_whole(mi, dl);
    assert(spec_split(spec_fmt_ts(t), dl) =~~= seq![y, mo, d, h, mi]);
}

/// Reading back a rendered timestamp gives the minute-truncated original.
proof fn lemma_parse_fmt_ts(t: Timestamp)
    requires
        t.valid(),
    ensures
        spec_parse_ts(spec_fmt_ts(t)) == Ok::<Timestamp, Error>(t.spec_truncate_minutes()),
{
    lemma_split_fmt_ts(t);
    let f = spec_split(spec_fmt_ts(t), spec_ts_delims());
    lemma_fmt_uint_props(t.year as nat, 4);
    lemma_fmt_uint_props(t.month as nat, 2);
    lemma_fmt_uint_props(t.day as nat, 2);
    lemma_fmt_uint_props(t.hour as nat, 2);
    lemma_fmt_uint_props(t.minute as nat, 2);
    assert(spec_parse_u32(f[0]) == Some(t.year as u32));
    assert(spec_parse_u32(f[1]) == Some(t.month as u32));
    assert(spec_parse_u32(f[2]) == Some(t.day as u32));
    assert(spec_field_or_zero(f, 3) == Some(t.hour as u32));
    assert(spec_field_or_zero(f, 4) == Some(t.minute as u32));
    assert(spec_field_or_zero(f, 5) == Some(0u32));
}

/// A rendered timestamp holds neither slash nor tab.
proof fn lemma_fmt_ts_free_of(t: Timestamp, delims: Seq<char>)
    requires
        forall|j: int|
            0 <= j < delims.len() ==> !spec_is_digit(#[trigger] delims[j]) && delims[j] != '-'
                && delims[j] != 'T' && delims[j] != ':',
    ensures
        spec_no_delim(spec_fmt_ts(t), delims),
{
    let y = spec_fmt_uint(t.year as nat, 4);
    let mo = spec_fmt_uint(t.month as nat, 2);
    let d = spec_fmt_uint(t.day as nat, 2);
    let h = spec_fmt_uint(t.hour as nat, 2);
    let mi = spec_fmt_uint(t.minute as nat, 2);
    lemma_fmt_uint_props(t.year as nat, 4);
    lemma_fmt_uint_props(t.month as nat, 2);
    lemma_fmt_uint_props(t.day as nat, 2);
    lemma_fmt_uint_props(t.hour as nat, 2);
    lemma_fmt_uint_props(t.minute as nat, 2);
    lemma_all_digits_no_delim(y, delims);
    lemma_all_digits_no_delim(mo, delims);
    lemma_all_digits_no_delim(d, delims);
    lemma_all_digits_no_delim(h, delims);
    lemma_all_digits_no_delim(mi, delims);
    assert(spec_no_delim(seq!['-'], delims)) by {
        assert forall|i: int| 0 <= i < 1 implies !delims.contains(seq!['-'][i]) by {
            if delims.contains('-') {
                let j = choose|j: int| 0 <= j < delims.len() && delims[j] == '-';
            }
        }
    }
    assert(spec_no_delim(seq!['T'], delims)) by {
        assert forall|i: int| 0 <= i < 1 implies !delims.contains(seq!['T'][i]) by {
            if delims.contains('T') {
                let j = choose|j: int| 0 <= j < delims.len() && delims[j] == 'T';
            }
        }
    }
    assert(spec_no_delim(seq![':'], delims)) by {
        assert forall|i: int| 0 <= i < 1 implies !delims.contains(seq![':'][i]) by {
            if delims.contains(':') {
                let j = choose|j: int| 0 <= j < delims.len() && delims[j] == ':';
            }
        }
    }
    lemma_no_delim_concat(y, seq!['-'], delims);
    lemma_no_delim_concat(y + seq!['-'], mo, delims);
    lemma_no_delim_concat(y + seq!['-'] + mo, seq!['-'], delims);
    lemma_no_delim_concat(y + seq!['-'] + mo + seq!['-'], d, delims);
    lemma_no_delim_concat(y + seq!['-'] + mo + seq!['-'] + d, seq!['T'], delims);
    lemma_no_delim_concat(y + seq!['-'] + mo + seq!['-'] + d + seq!['T'], h, delims);
    lemma_no_delim_concat(y + seq!['-'] + mo + seq!['-'] + d + seq!['T'] + h, seq![':'], delims);
    lemma_no_delim_concat(
        y + seq!['-'] + mo + seq!['-'] + d + seq!['T'] + h + seq![':'],
        mi,
        delims,
    );
}

/// One delimiter-free character.
proof fn lemma_char_no_delim(c: char, delims: Seq<char>)
    requires
        forall|j: int| 0 <= j < delims.len() ==> delims[j] != c,
    ensures
        spec_no_delim(seq![c], delims),
{
    assert forall|i: int| 0 <= i < 1 implies !delims.contains(seq![c][i]) by {
        if delims.contains(c) {
            let j = choose|j: int| 0 <= j < delims.len() && delims[j] == c;
        }
    }
}

/// Reading back the rendered interval specification of a dated entry.
#[verifier::rlimit(60)]
proof fn lemma_parse_fmt_interval(e: EventV)
    requires
        spec_codec_wf(e),
        e.start is Some,
    ensures
        ({
            let te = spec_truncate_event(e);
            spec_parse_interval(spec_encode(e).take(
                spec_encode(e).len() - (e.description.len() + 1),
            )) == Ok::<(Option<Timestamp>, Interval), Error>((te.start, te.interval))
        }),
{
    let s = e.start->Some_0;
    let slash = seq!['/'];
    assert(!spec_is_digit('/') && '/' != '-' && '/' != 'T' && '/' != ':');
    assert(forall|j: int|
        0 <= j < slash.len() ==> !spec_is_digit(#[trigger] slash[j]) && slash[j] != '-'
            && slash[j] != 'T' && slash[j] != ':') by {
        assert(slash[0] == '/');
    }
    assert(slash.contains('/')) by {
        assert(slash[0] == '/');
    }
    let fs = spec_fmt_ts(s);
    lemma_fmt_ts_free_of(s, slash);
    lemma_parse_fmt_ts(s);
    match e.interval {
        Interval::NoInterval => {
            let spec_part = fs;
            assert(spec_encode(e) == fs + seq!['\t'] + e.description);
            assert(spec_encode(e).take(spec_encode(e).len() - (e.description.len() + 1)) =~= fs);
            lemma_split_whole(fs, slash);
            assert(fs.len() > 0) by {
                lemma_fmt_uint_props(s.year as nat, 4);
                assert(fs[0] == spec_fmt_uint(s.year as nat, 4)[0]);
            }
        },
        Interval::FixedSpan(end) => {
            let fe = spec_fmt_ts(end);
            lemma_fmt_ts_free_of(end, slash);
            lemma_parse_fmt_ts(end);
            let spec_part = fs + slash + fe;
            assert(spec_encode(e) == fs + seq!['/'] + fe + seq!['\t'] + e.description);
            assert(spec_encode(e).take(spec_encode(e).len() - (e.description.len() + 1))
                =~= spec_part);
            assert(spec_part =~= fs + seq!['/'] + fe);
            lemma_split_concat(fs, '/', fe, slash);
            lemma_split_whole(fe, slash);
            assert(spec_part.len() > 0);
        },
        Interval::RecurringIndefinite(end) => {
            let fe = spec_fmt_ts(end);
            lemma_fmt_ts_free_of(end, slash);
            lemma_parse_fmt_ts(end);
            let spec_part = seq!['R', '/'] + fs + seq!['/'] + fe;
            assert(spec_encode(e) == seq!['R', '/'] + fs + seq!['/'] + fe + seq!['\t']
                + e.description);
            assert(spec_encode(e).take(spec_encode(e).len() - (e.description.len() + 1))
                =~= spec_part);
            assert(spec_part =~= seq!['R'] + seq!['/'] + (fs + seq!['/'] + fe));
            lemma_char_no_delim('R', slash);
            lemma_split_concat(seq!['R'], '/', fs + seq!['/'] + fe, slash);
            lemma_split_concat(fs, '/', fe, slash);
            lemma_split_whole(fe, slash);
            let toks = spec_split(spec_part, slash);
            assert(toks =~~= seq![seq!['R'], fs, fe]);
            assert(toks[0].len() == 1 && toks[0][0] == 'R');
            assert(toks[0].drop_first() =~= Seq::<char>::empty());
        },
        Interval::RecurringCounted { occurrences: n, end } => {
            let fe = spec_fmt_ts(end);
            let fn_ = spec_fmt_uint(n as nat, 1);
            lemma_fmt_ts_free_of(end, slash);
            lemma_parse_fmt_ts(end);
            lemma_fmt_uint_props(n as nat, 1);
            lemma_all_digits_no_delim(fn_, slash);
            let rep = seq!['R'] + fn_;
            let spec_part = seq!['R'] + fn_ + seq!['/'] + fs + seq!['/'] + fe;
            assert(spec_encode(e) == seq!['R'] + fn_ + seq!['/'] + fs + seq!['/'] + fe + seq!['\t']
                + e.description);
            assert(spec_encode(e).take(spec_encode(e).len() - (e.description.len() + 1))
                =~= spec_part);
            assert(spec_part =~= rep + seq!['/'] + (fs + seq!['/'] + fe));
            lemma_char_no_delim('R', slash);
            lemma_no_delim_concat(seq!['R'], fn_, slash);
            lemma_split_concat(rep, '/', fs + seq!['/'] + fe, slash);
            lemma_split_concat(fs, '/', fe, slash);
            lemma_split_whole(fe, slash);
            let toks = spec_split(spec_part, slash);
            assert(toks =~~= seq![rep, fs, fe]);
            assert(toks[0].len() >= 2 && toks[0][0] == 'R');
            assert(toks[0].drop_first() =~= fn_);
            assert(spec_parse_u64(fn_) == Some(n));
        },
    }
}

/// A timestamp the grammar accepts names a real civil time.
pub proof fn lemma_parse_ts_valid(s: Seq<char>)
    ensures
        spec_parse_ts(s) matches Ok(t) ==> t.valid(),
{
}

/// A decoded entry carries valid timestamps, and an interval only when it
/// has a start.
pub proof fn lemma_decode_wf(s: Seq<char>)
    ensures
        spec_decode(s) matches Ok(ev) ==> ev.wf() && (ev.start is None ==> ev.interval
            == Interval::NoInterval),
{
    let parts = spec_split(s, seq!['\t']);
    if parts.len() > 1 {
        let sp = parts[0];
        if sp.len() > 0 {
            let toks = spec_split(sp, seq!['/']);
            lemma_parse_ts_valid(toks[0]);
            if toks.len() >= 2 {
                lemma_parse_ts_valid(toks[1]);
                lemma_parse_ts_valid(toks[2]);
            }
        }
    }
}

/// The codec round trip: any entry the grammar can produce decodes from its
/// own rendering, back to itself at minute granularity. The local-zone
/// acceptance of the rendered times is a separate, executable concern.
pub proof fn lemma_codec_round_trip(e: EventV)
    requires
        spec_codec_wf(e),
    ensures
        spec_decode(spec_encode(e)) == Ok::<EventV, Error>(spec_truncate_event(e)),
{
    let tab = seq!['\t'];
    assert(tab.contains('\t')) by {
        assert(tab[0] == '\t');
    }
    let enc = spec_encode(e);
    assert(spec_no_delim(e.description, tab)) by {
        assert forall|i: int| 0 <= i < e.description.len() implies !tab.contains(
            e.description[i],
        ) by {
            if tab.contains(e.description[i]) {
                assert(e.description[i] == '\t');
                assert(e.description.contains('\t'));
            }
        }
    }
    match e.start {
        None => {
            assert(enc == seq!['\t'] + e.description);
            assert(enc =~= Seq::<char>::empty() + seq!['\t'] + e.description);
            lemma_split_concat(Seq::<char>::empty(), '\t', e.description, tab);
            lemma_split_whole(e.description, tab);
            let parts = spec_split(enc, tab);
            assert(parts =~~= seq![Seq::<char>::empty(), e.description]);
            assert(spec_truncate_event(e) == e);
        },
        Some(s) => {
            let desc_pos = enc.len() - (e.description.len() + 1);
            let spec_part = enc.take(desc_pos);
            assert(!spec_is_digit('\t') && '\t' != '-' && '\t' != 'T' && '\t' != ':' && '\t'
                != '/' && '\t' != 'R');
            assert(forall|j: int|
                0 <= j < tab.len() ==> !spec_is_digit(#[trigger] tab[j]) && tab[j] != '-'
                    && tab[j] != 'T' && tab[j] != ':') by {
                assert(tab[0] == '\t');
            }
            lemma_fmt_ts_free_of(s, tab);
            assert(spec_no_delim(spec_part, tab)) by {
                match e.interval {
                    Interval::NoInterval => {
                        assert(spec_part =~= spec_fmt_ts(s));
                    },
                    Interval::FixedSpan(end) => {
                        lemma_fmt_ts_free_of(end, tab);
                        lemma_char_no_delim('/', tab);
                        lemma_no_delim_concat(spec_fmt_ts(s), seq!['/'], tab);
                        lemma_no_delim_concat(spec_fmt_ts(s) + seq!['/'], spec_fmt_ts(end), tab);
                        assert(spec_part =~= spec_fmt_ts(s) + seq!['/'] + spec_fmt_ts(end));
                    },
                    Interval::RecurringIndefinite(end) => {
                        lemma_fmt_ts_free_of(end, tab);
                        lemma_char_no_delim('/', tab);
                        lemma_char_no_delim('R', tab);
                        lemma_no_delim_concat(seq!['R'], seq!['/'], tab);
                        assert(seq!['R'] + seq!['/'] =~= seq!['R', '/']);
                        lemma_no_delim_concat(seq!['R', '/'], spec_fmt_ts(s), tab);
                        lemma_no_delim_concat(seq!['R', '/'] + spec_fmt_ts(s), seq!['/'], tab);
                        lemma_no_delim_concat(
                            seq!['R', '/'] + spec_fmt_ts(s) + seq!['/'],
                            spec_fmt_ts(end),
                            tab,
                        );
                        assert(spec_part =~= seq!['R', '/'] + spec_fmt_ts(s) + seq!['/']
                            + spec_fmt_ts(end));
                    },
                    Interval::RecurringCounted { occurrences: n, end } => {
                        lemma_fmt_ts_free_of(end, tab);
                        lemma_char_no_delim('/', tab);
                        lemma_char_no_delim('R', tab);
                        lemma_fmt_uint_props(n as nat, 1);
                        lemma_all_digits_no_delim(spec_fmt_uint(n as nat, 1), tab);
                        lemma_no_delim_concat(seq!['R'], spec_fmt_uint(n as nat, 1), tab);
                        lemma_no_delim_concat(
                            seq!['R'] + spec_fmt_uint(n as nat, 1),
                            seq!['/'],
                            tab,
                        );
                        lemma_no_delim_concat(
                            seq!['R'] + spec_fmt_uint(n as nat, 1) + seq!['/'],
                            spec_fmt_ts(s),
                            tab,
                        );
                        lemma_no_delim_concat(
                            seq!['R'] + spec_fmt_uint(n as nat, 1) + seq!['/'] + spec_fmt_ts(s),
                            seq!['/'],
                            tab,
                        );
                        lemma_no_delim_concat(
                            seq!['R'] + spec_fmt_uint(n as nat, 1) + seq!['/'] + spec_fmt_ts(s)
                                + seq!['/'],
                            spec_fmt_ts(end),
                            tab,
                        );
                        assert(spec_part =~= seq!['R'] + spec_fmt_uint(n as nat, 1) + seq!['/']
                            + spec_fmt_ts(s) + seq!['/'] + spec_fmt_ts(end));
                    },
                }
            }
            assert(enc =~= spec_part + seq!['\t'] + e.description);
            lemma_split_concat(spec_part, '\t', e.description, tab);
            lemma_split_whole(e.description, tab);
            let parts = spec_split(enc, tab);
            assert(parts =~~= seq![spec_part, e.description]);
            lemma_parse_fmt_interval(e);
        },
    }
}

} // verus!
