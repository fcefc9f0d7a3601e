//! Value types of the configuration: durations and date-time formats.

use vstd::prelude::*;
use vstd::slice::*;
use vstd::string::*;

use crate::timestamp::{format_accepted, format_is_accepted};

verus! {

/// Nanoseconds in one second.
pub const NANOS_PER_SECOND: u32 = 1_000_000_000;

/// A span of time: whole seconds and the nanoseconds past them.
#[derive(Debug, Clone, Copy, PartialEq, Eq, Structural)]
pub struct Duration {
    secs: u64,
    nanos: u32,
}

/// The unit of one part of a written duration.
#[derive(Debug, Clone, Copy, PartialEq, Eq, Structural)]
pub enum DurationUnit {
    Days,
    Hours,
    Minutes,
    Seconds,
}

/// Why a configured duration was refused.
#[derive(Debug, Clone, Copy, PartialEq, Eq, Structural)]
pub enum DurationError {
    /// The text is not of the form `<n>d <n>h <n>m <n>s`, or holds no part at all.
    Invalid,
    /// The number of the named part does not fit in 64 bits.
    PartTooLarge(DurationUnit),
    /// The parts fit, but their sum in seconds does not fit in 64 bits.
    TooLarge,
    /// A negative number of seconds was given.
    Negative,
}

/// The numbers found in a written duration, one per unit that is present.
pub struct DurationParts {
    pub days: Option<nat>,
    pub hours: Option<nat>,
    pub minutes: Option<nat>,
    pub seconds: Option<nat>,
}

/// An ASCII decimal digit.
pub open spec fn is_digit(b: u8) -> bool {
    48 <= b <= 57
}

/// ASCII white space: tab, line feed, vertical tab, form feed, carriage return, space.
pub open spec fn is_space(b: u8) -> bool {
    b == 9 || b == 10 || b == 11 || b == 12 || b == 13 || b == 32
}

/// The end of the longest run of digits that starts at `i`.
pub open spec fn digits_end(s: Seq<u8>, i: int) -> int
    decreases s.len() - i,
{
    if 0 <= i < s.len() && is_digit(s[i]) {
        digits_end(s, i + 1)
    } else {
        i
    }
}

/// The end of the longest run of white space that starts at `i`.
pub open spec fn spaces_end(s: Seq<u8>, i: int) -> int
    decreases s.len() - i,
{
    if 0 <= i < s.len() && is_space(s[i]) {
        spaces_end(s, i + 1)
    } else {
        i
    }
}

/// The number that a run of decimal digits writes.
pub open spec fn digits_value(ds: Seq<u8>) -> nat
    decreases ds.len(),
{
    if ds.len() == 0 {
        0
    } else {
        digits_value(ds.drop_last()) * 10 + (ds.last() - 48) as nat
    }
}

/// One optional part at `i`: a number directly followed by `unit`. Gives the
/// number and the position after the unit, or nothing and `i` itself.
pub open spec fn part_at(s: Seq<u8>, i: int, unit: u8) -> (Option<nat>, int) {
    let j = digits_end(s, i);
    if i < j && j < s.len() && s[j] == unit {
        (Some(digits_value(s.subrange(i, j))), j + 1)
    } else {
        (None, i)
    }
}

/// Reads a written duration: optional days, hours, minutes and seconds in that
/// order, with optional white space after each of the first three slots.
/// `None` where the text is not of that form.
pub open spec fn scan_duration(s: Seq<u8>) -> Option<DurationParts> {
    let (days, i1) = part_at(s, 0, 100);
    let (hours, i2) = part_at(s, spaces_end(s, i1), 104);
    let (minutes, i3) = part_at(s, spaces_end(s, i2), 109);
    let (seconds, i4) = part_at(s, spaces_end(s, i3), 115);
    if i4 == s.len() {
        Some(DurationParts { days, hours, minutes, seconds })
    } else {
        None
    }
}

/// The value of a part that may be absent.
pub open spec fn part_value(p: Option<nat>) -> nat {
    match p {
        Some(v) => v,
        None => 0,
    }
}

/// The length in seconds that the parts add up to.
pub open spec fn parts_seconds(p: DurationParts) -> nat {
    ((part_value(p.days) * 24 + part_value(p.hours)) * 60 + part_value(p.minutes)) * 60
        + part_value(p.seconds)
}

/// Whether a part is present and too large for 64 bits.
pub open spec fn part_overflows(p: Option<nat>) -> bool {
    p matches Some(v) && v > u64::MAX
}

/// What reading a written duration gives: its length in seconds, or the reason
/// it is refused. The parts are judged in the order days, hours, minutes, seconds.
pub open spec fn read_duration(s: Seq<u8>) -> Result<nat, DurationError> {
    match scan_duration(s) {
        None => Err(DurationError::Invalid),
        Some(p) => if part_overflows(p.days) {
            Err(DurationError::PartTooLarge(DurationUnit::Days))
        } else if part_overflows(p.hours) {
            Err(DurationError::PartTooLarge(DurationUnit::Hours))
        } else if part_overflows(p.minutes) {
            Err(DurationError::PartTooLarge(DurationUnit::Minutes))
        } else if part_overflows(p.seconds) {
            Err(DurationError::PartTooLarge(DurationUnit::Seconds))
        } else if p.days is None && p.hours is None && p.minutes is None && p.seconds is None {
            Err(DurationError::Invalid)
        } else if parts_seconds(p) > u64::MAX {
            Err(DurationError::TooLarge)
        } else {
            Ok(parts_seconds(p))
        },
    }
}

/// Whether `segment` writes the part `value` in the unit `unit`: nothing where
/// the part is absent, else one or more digits that write the number, followed
/// by the unit.
pub open spec fn writes_part(segment: Seq<u8>, unit: u8, value: Option<nat>) -> bool {
    match value {
        None => segment.len() == 0,
        Some(v) => {
            &&& segment.len() >= 2
            &&& segment.last() == unit
            &&& forall|k: int| 0 <= k < segment.len() - 1 ==> is_digit(#[trigger] segment[k])
            &&& digits_value(segment.drop_last()) == v
        },
    }
}

/// Whether `segment` is white space throughout.
pub open spec fn is_white(segment: Seq<u8>) -> bool {
    forall|k: int| 0 <= k < segment.len() ==> is_space(#[trigger] segment[k])
}

/// Whether the text is made of the seven segments in their order.
pub open spec fn splits_into(
    s: Seq<u8>,
    days: Seq<u8>,
    gap1: Seq<u8>,
    hours: Seq<u8>,
    gap2: Seq<u8>,
    minutes: Seq<u8>,
    gap3: Seq<u8>,
    seconds: Seq<u8>,
) -> bool {
    s == days + gap1 + hours + gap2 + minutes + gap3 + seconds
}

/// Whether the text writes the parts in the form `<n>d <n>h <n>m <n>s`: days,
/// white space, hours, white space, minutes, white space, seconds, where each
/// part and each run of white space may be missing.
pub open spec fn is_written_as(s: Seq<u8>, p: DurationParts) -> bool {
    exists|
        days: Seq<u8>,
        gap1: Seq<u8>,
        hours: Seq<u8>,
        gap2: Seq<u8>,
        minutes: Seq<u8>,
        gap3: Seq<u8>,
        seconds: Seq<u8>,
    |
        {
            &&& #[trigger] splits_into(s, days, gap1, hours, gap2, minutes, gap3, seconds)
            &&& writes_part(days, 100, p.days)
            &&& is_white(gap1)
            &&& writes_part(hours, 104, p.hours)
            &&& is_white(gap2)
            &&& writes_part(minutes, 109, p.minutes)
            &&& is_white(gap3)
            &&& writes_part(seconds, 115, p.seconds)
        }
}

proof fn lemma_spaces_end_bounds(s: Seq<u8>, i: int)
    requires
        0 <= i <= s.len(),
    ensures
        i <= spaces_end(s, i) <= s.len(),
        forall|k: int| i <= k < spaces_end(s, i) ==> is_space(#[trigger] s[k]),
    decreases s.len() - i,
{
    if i < s.len() && is_space(s[i]) {
        lemma_spaces_end_bounds(s, i + 1);
    }
}

proof fn lemma_part_at_segment(s: Seq<u8>, i: int, unit: u8)
    requires
        0 <= i <= s.len(),
    ensures
        i <= part_at(s, i, unit).1 <= s.len(),
        writes_part(s.subrange(i, part_at(s, i, unit).1), unit, part_at(s, i, unit).0),
{
    lemma_digits_end_bounds(s, i);
    let j = digits_end(s, i);
    if i < j && j < s.len() && s[j] == unit {
        let segment = s.subrange(i, j + 1);
        assert(segment.drop_last() =~= s.subrange(i, j));
        assert forall|k: int| 0 <= k < segment.len() - 1 implies is_digit(#[trigger] segment[k]) by {
            assert(segment[k] == s[i + k]);
        }
    }
}

/// What `scan_duration` accepts is written in the form `<n>d <n>h <n>m <n>s`,
/// and the parts it gives are the parts that are written.
pub proof fn lemma_scanned_is_written(s: Seq<u8>)
    requires
        scan_duration(s) is Some,
    ensures
        is_written_as(s, scan_duration(s)->0),
{
    let (days, i1) = part_at(s, 0, 100);
    lemma_part_at_segment(s, 0, 100);
    let j1 = spaces_end(s, i1);
    lemma_spaces_end_bounds(s, i1);
    let (hours, i2) = part_at(s, j1, 104);
    lemma_part_at_segment(s, j1, 104);
    let j2 = spaces_end(s, i2);
    lemma_spaces_end_bounds(s, i2);
    let (minutes, i3) = part_at(s, j2, 109);
    lemma_part_at_segment(s, j2, 109);
    let j3 = spaces_end(s, i3);
    lemma_spaces_end_bounds(s, i3);
    let (seconds, i4) = part_at(s, j3, 115);
    lemma_part_at_segment(s, j3, 115);
    let a = s.subrange(0, i1);
    let b = s.subrange(i1, j1);
    let c = s.subrange(j1, i2);
    let d = s.subrange(i2, j2);
    let e = s.subrange(j2, i3);
    let f = s.subrange(i3, j3);
    let g = s.subrange(j3, i4);
    assert(s =~= a + b + c + d + e + f + g);
    assert(splits_into(s, a, b, c, d, e, f, g));
    assert(is_white(b)) by {
        assert forall|k: int| 0 <= k < b.len() implies is_space(#[trigger] b[k]) by {
            assert(b[k] == s[i1 + k]);
        }
    }
    assert(is_white(d)) by {
        assert forall|k: int| 0 <= k < d.len() implies is_space(#[trigger] d[k]) by {
            assert(d[k] == s[i2 + k]);
        }
    }
    assert(is_white(f)) by {
        assert forall|k: int| 0 <= k < f.len() implies is_space(#[trigger] f[k]) by {
            assert(f[k] == s[i3 + k]);
        }
    }
}

proof fn lemma_part_here(s: Seq<u8>, i: int, n: int, unit: u8)
    requires
        0 <= i,
        n >= 2,
        i + n <= s.len(),
        forall|k: int| i <= k < i + n - 1 ==> is_digit(#[trigger] s[k]),
        s[i + n - 1] == unit,
        !is_digit(unit),
    ensures
        part_at(s, i, unit) == (Some(digits_value(s.subrange(i, i + n - 1))), i + n),
{
    lemma_digits_end_step(s, i, i + n - 1);
}

/// Whether no part in the unit `unit` begins at `i`: the text ends there, or
/// goes on with something that is no digit, or with a number that is followed
/// by something else than the unit.
spec fn begins_other(s: Seq<u8>, i: int, unit: u8) -> bool {
    ||| i == s.len()
    ||| (i < s.len() && !is_digit(s[i]))
    ||| exists|n: int|
        n >= 2 && i + n <= s.len() && (forall|k: int| i <= k < i + n - 1 ==> is_digit(#[trigger] s[k]))
            && !is_digit(#[trigger] s[i + n - 1]) && s[i + n - 1] != unit
}

proof fn lemma_no_part_here(s: Seq<u8>, i: int, unit: u8)
    requires
        0 <= i <= s.len(),
        begins_other(s, i, unit),
    ensures
        part_at(s, i, unit) == (None::<nat>, i),
{
    if i < s.len() && is_digit(s[i]) {
        let n = choose|n: int|
            n >= 2 && i + n <= s.len() && (forall|k: int|
                i <= k < i + n - 1 ==> is_digit(#[trigger] s[k])) && !is_digit(
                #[trigger] s[i + n - 1],
            ) && s[i + n - 1] != unit;
        lemma_digits_end_step(s, i, i + n - 1);
    }
}

proof fn lemma_spaces_to(s: Seq<u8>, i: int, j: int)
    requires
        0 <= i <= j <= s.len(),
        forall|k: int| i <= k < j ==> is_space(#[trigger] s[k]),
        j == s.len() || !is_space(s[j]),
    ensures
        spaces_end(s, i) == j,
{
    lemma_spaces_end_step(s, i, j);
}

/// Whether `s` holds white space from `i` up to `j`.
#[verifier::opaque]
spec fn white_between(s: Seq<u8>, i: int, j: int) -> bool {
    &&& 0 <= i <= j <= s.len()
    &&& forall|k: int| i <= k < j ==> is_space(#[trigger] s[k])
}

/// Whether `s` holds, from `at`, `n` bytes that write the part `value` in the
/// unit `unit`.
#[verifier::opaque]
spec fn part_between(s: Seq<u8>, at: int, n: int, unit: u8, value: Option<nat>) -> bool {
    &&& 0 <= at
    &&& 0 <= n
    &&& at + n <= s.len()
    &&& writes_part(s.subrange(at, at + n), unit, value)
}

/// Whether the scan stops at `t` when it skips white space, and finds no part
/// in the unit `unit` there unless one is written there in that unit.
spec fn stops_at(s: Seq<u8>, t: int) -> bool {
    0 <= t <= s.len() && (t == s.len() || is_digit(s[t]))
}

proof fn lemma_gap(s: Seq<u8>, i: int, j: int, t: int)
    requires
        white_between(s, i, j),
        j <= t,
        white_between(s, j, t),
        stops_at(s, t),
    ensures
        spaces_end(s, i) == t,
        white_between(s, i, t),
{
    reveal(white_between);
    lemma_spaces_to(s, i, t);
}

proof fn lemma_white_empty(s: Seq<u8>, i: int)
    requires
        0 <= i <= s.len(),
    ensures
        white_between(s, i, i),
{
    reveal(white_between);
}

proof fn lemma_part(s: Seq<u8>, at: int, n: int, unit: u8, value: Option<nat>)
    requires
        part_between(s, at, n, unit, value),
        unit == 100 || unit == 104 || unit == 109 || unit == 115,
        n == 0 ==> begins_other(s, at, unit),
    ensures
        part_at(s, at, unit) == (value, at + n),
        n > 0 ==> stops_at(s, at),
        n > 0 ==> forall|other: u8| other != unit ==> begins_other(s, at, other),
{
    reveal(part_between);
    let segment = s.subrange(at, at + n);
    if n == 0 {
        lemma_no_part_here(s, at, unit);
    } else {
        assert forall|k: int| at <= k < at + n - 1 implies is_digit(#[trigger] s[k]) by {
            assert(s[k] == segment[k - at]);
        }
        assert(s[at + n - 1] == segment[n - 1]);
        assert(s.subrange(at, at + n - 1) =~= segment.drop_last());
        lemma_part_here(s, at, n, unit);
        assert(s[at] == segment[0]);
        assert forall|other: u8| other != unit implies begins_other(s, at, other) by {
            assert(n >= 2 && at + n <= s.len() && (forall|k: int|
                at <= k < at + n - 1 ==> is_digit(#[trigger] s[k])) && !is_digit(s[at + n - 1])
                && s[at + n - 1] != other);
        }
    }
}

proof fn lemma_stop_begins_other(s: Seq<u8>, t: int, unit: u8)
    requires
        0 <= t <= s.len(),
        t == s.len() || is_space(s[t]),
    ensures
        begins_other(s, t, unit),
{
}

proof fn lemma_white_first(s: Seq<u8>, i: int, j: int)
    requires
        white_between(s, i, j),
        i < j,
    ensures
        is_space(s[i]),
{
    reveal(white_between);
}

/// Where the segment after the first `k` of six segments begins.
spec fn layout(
    a: Seq<u8>,
    b: Seq<u8>,
    c: Seq<u8>,
    d: Seq<u8>,
    e: Seq<u8>,
    f: Seq<u8>,
    k: int,
) -> int {
    (if k >= 1 {
        a.len() as int
    } else {
        0
    }) + (if k >= 2 {
        b.len() as int
    } else {
        0
    }) + (if k >= 3 {
        c.len() as int
    } else {
        0
    }) + (if k >= 4 {
        d.len() as int
    } else {
        0
    }) + (if k >= 5 {
        e.len() as int
    } else {
        0
    }) + (if k >= 6 {
        f.len() as int
    } else {
        0
    })
}

/// The seven segments stand in the text one after the other.
proof fn lemma_layout(
    s: Seq<u8>,
    p: DurationParts,
    a: Seq<u8>,
    b: Seq<u8>,
    c: Seq<u8>,
    d: Seq<u8>,
    e: Seq<u8>,
    f: Seq<u8>,
    g: Seq<u8>,
)
    requires
        splits_into(s, a, b, c, d, e, f, g),
        writes_part(a, 100, p.days),
        is_white(b),
        writes_part(c, 104, p.hours),
        is_white(d),
        writes_part(e, 109, p.minutes),
        is_white(f),
        writes_part(g, 115, p.seconds),
    ensures
        s.len() == layout(a, b, c, d, e, f, 6) + g.len(),
        part_between(s, 0, a.len() as int, 100, p.days),
        white_between(s, layout(a, b, c, d, e, f, 1), layout(a, b, c, d, e, f, 2)),
        part_between(s, layout(a, b, c, d, e, f, 2), c.len() as int, 104, p.hours),
        white_between(s, layout(a, b, c, d, e, f, 3), layout(a, b, c, d, e, f, 4)),
        part_between(s, layout(a, b, c, d, e, f, 4), e.len() as int, 109, p.minutes),
        white_between(s, layout(a, b, c, d, e, f, 5), layout(a, b, c, d, e, f, 6)),
        part_between(s, layout(a, b, c, d, e, f, 6), g.len() as int, 115, p.seconds),
{
    reveal(white_between);
    reveal(part_between);
    let o1 = a.len() as int;
    let o2 = o1 + b.len();
    let o3 = o2 + c.len();
    let o4 = o3 + d.len();
    let o5 = o4 + e.len();
    let o6 = o5 + f.len();
    assert(s.subrange(0, o1) =~= a);
    assert(s.subrange(o1, o2) =~= b);
    assert(s.subrange(o2, o3) =~= c);
    assert(s.subrange(o3, o4) =~= d);
    assert(s.subrange(o4, o5) =~= e);
    assert(s.subrange(o5, o6) =~= f);
    assert(s.subrange(o6, o6 + g.len()) =~= g);
    assert forall|k: int| o1 <= k < o2 implies is_space(#[trigger] s[k]) by {
        assert(s[k] == b[k - o1]);
    }
    assert forall|k: int| o3 <= k < o4 implies is_space(#[trigger] s[k]) by {
        assert(s[k] == d[k - o3]);
    }
    assert forall|k: int| o5 <= k < o6 implies is_space(#[trigger] s[k]) by {
        assert(s[k] == f[k - o5]);
    }
}

proof fn lemma_bounds(s: Seq<u8>, i: int, j: int, at: int, n: int, unit: u8, value: Option<nat>)
    ensures
        white_between(s, i, j) ==> 0 <= i <= j <= s.len(),
        part_between(s, at, n, unit, value) ==> 0 <= at && 0 <= n && at + n <= s.len(),
{
    reveal(white_between);
    reveal(part_between);
}

/// From the last part on: white space up to `o`, then the seconds in `n` bytes.
proof fn lemma_tail_seconds(s: Seq<u8>, from: int, o: int, n: int, seconds: Option<nat>)
    requires
        white_between(s, from, o),
        part_between(s, o, n, 115, seconds),
        o + n == s.len(),
    ensures
        part_at(s, spaces_end(s, from), 115) == (seconds, s.len() as int),
        stops_at(s, spaces_end(s, from)),
        begins_other(s, spaces_end(s, from), 100),
        begins_other(s, spaces_end(s, from), 104),
        begins_other(s, spaces_end(s, from), 109),
        white_between(s, from, spaces_end(s, from)),
{
    lemma_bounds(s, from, o, o, n, 115, seconds);
    lemma_white_empty(s, o);
    if n > 0 {
        lemma_part(s, o, n, 115, seconds);
        lemma_gap(s, from, o, o);
    } else {
        lemma_gap(s, from, o, o);
        lemma_stop_begins_other(s, o, 115);
        lemma_stop_begins_other(s, o, 100);
        lemma_stop_begins_other(s, o, 104);
        lemma_stop_begins_other(s, o, 109);
        lemma_part(s, o, n, 115, seconds);
    }
}

/// From a part on: white space up to `o`, then the part in `n` bytes, then
/// white space up to where the scan stops next.
proof fn lemma_tail_step(s: Seq<u8>, from: int, o: int, n: int, unit: u8, value: Option<nat>)
    requires
        unit == 104 || unit == 109,
        white_between(s, from, o),
        part_between(s, o, n, unit, value),
        stops_at(s, spaces_end(s, o + n)),
        white_between(s, o + n, spaces_end(s, o + n)),
        begins_other(s, spaces_end(s, o + n), unit),
        begins_other(s, spaces_end(s, o + n), 100),
        begins_other(s, spaces_end(s, o + n), 104),
    ensures
        part_at(s, spaces_end(s, from), unit).0 == value,
        spaces_end(s, part_at(s, spaces_end(s, from), unit).1) == spaces_end(s, o + n),
        stops_at(s, spaces_end(s, from)),
        white_between(s, from, spaces_end(s, from)),
        begins_other(s, spaces_end(s, from), 100),
        unit == 109 ==> begins_other(s, spaces_end(s, from), 104),
{
    let t = spaces_end(s, o + n);
    lemma_bounds(s, from, o, o, n, unit, value);
    lemma_bounds(s, o + n, t, o, n, unit, value);
    lemma_white_empty(s, o);
    lemma_white_empty(s, t);
    if n > 0 {
        lemma_part(s, o, n, unit, value);
        lemma_gap(s, from, o, o);
    } else {
        lemma_gap(s, from, o, t);
        assert(part_between(s, t, 0, unit, value)) by {
            reveal(part_between);
            assert(s.subrange(t, t) =~= s.subrange(o, o));
        }
        lemma_part(s, t, 0, unit, value);
        lemma_gap(s, t, t, t);
    }
}

/// The days: a part in `n` bytes from the start, and then white space up to
/// where the scan stops next.
proof fn lemma_scan_head(s: Seq<u8>, n: int, days: Option<nat>)
    requires
        part_between(s, 0, n, 100, days),
        stops_at(s, spaces_end(s, n)),
        white_between(s, n, spaces_end(s, n)),
        begins_other(s, spaces_end(s, n), 100),
    ensures
        part_at(s, 0, 100) == (days, n),
{
    lemma_bounds(s, n, spaces_end(s, n), 0, n, 100, days);
    if n == 0 {
        let t = spaces_end(s, 0);
        if t > 0 {
            lemma_white_first(s, 0, t);
        }
    }
    lemma_part(s, 0, n, 100, days);
}

/// A text that is written in the form `<n>d <n>h <n>m <n>s` is accepted by
/// `scan_duration`, with the parts that are written.
pub proof fn lemma_written_is_scanned(s: Seq<u8>, p: DurationParts)
    requires
        is_written_as(s, p),
    ensures
        scan_duration(s) == Some(p),
{
    let (a, b, c, d, e, f, g) = choose|
        a: Seq<u8>,
        b: Seq<u8>,
        c: Seq<u8>,
        d: Seq<u8>,
        e: Seq<u8>,
        f: Seq<u8>,
        g: Seq<u8>,
    |
        {
            &&& #[trigger] splits_into(s, a, b, c, d, e, f, g)
            &&& writes_part(a, 100, p.days)
            &&& is_white(b)
            &&& writes_part(c, 104, p.hours)
            &&& is_white(d)
            &&& writes_part(e, 109, p.minutes)
            &&& is_white(f)
            &&& writes_part(g, 115, p.seconds)
        };
    lemma_layout(s, p, a, b, c, d, e, f, g);
    let o1 = layout(a, b, c, d, e, f, 1);
    let o2 = layout(a, b, c, d, e, f, 2);
    let o3 = layout(a, b, c, d, e, f, 3);
    let o4 = layout(a, b, c, d, e, f, 4);
    let o5 = layout(a, b, c, d, e, f, 5);
    let o6 = layout(a, b, c, d, e, f, 6);
    lemma_tail_seconds(s, o5, o6, g.len() as int, p.seconds);
    assert(o4 + e.len() == o5);
    lemma_tail_step(s, o3, o4, e.len() as int, 109, p.minutes);
    assert(o2 + c.len() == o3);
    lemma_tail_step(s, o1, o2, c.len() as int, 104, p.hours);
    lemma_scan_head(s, o1, p.days);
}

/// The texts that `scan_duration` accepts are just those that are written in
/// the form `<n>d <n>h <n>m <n>s`, and the parts it gives are those written.
pub proof fn lemma_scan_is_the_form(s: Seq<u8>, p: DurationParts)
    ensures
        scan_duration(s) == Some(p) <==> is_written_as(s, p),
{
    if scan_duration(s) == Some(p) {
        lemma_scanned_is_written(s);
    }
    if is_written_as(s, p) {
        lemma_written_is_scanned(s, p);
    }
}

/// A number read from the text: where it ends, and its value if that fits.
struct Scanned {
    end: usize,
    value: Option<u64>,
}

proof fn lemma_digits_end_bounds(s: Seq<u8>, i: int)
    requires
        0 <= i <= s.len(),
    ensures
        i <= digits_end(s, i) <= s.len(),
        forall|k: int| i <= k < digits_end(s, i) ==> is_digit(#[trigger] s[k]),
        digits_end(s, i) < s.len() ==> !is_digit(s[digits_end(s, i)]),
    decreases s.len() - i,
{
    if i < s.len() && is_digit(s[i]) {
        lemma_digits_end_bounds(s, i + 1);
    }
}

proof fn lemma_digits_end_step(s: Seq<u8>, i: int, j: int)
    requires
        0 <= i <= j <= s.len(),
        forall|k: int| i <= k < j ==> is_digit(#[trigger] s[k]),
    ensures
        digits_end(s, i) == digits_end(s, j),
    decreases j - i,
{
    if i < j {
        lemma_digits_end_step(s, i + 1, j);
    }
}

proof fn lemma_spaces_end_step(s: Seq<u8>, i: int, j: int)
    requires
        0 <= i <= j <= s.len(),
        forall|k: int| i <= k < j ==> is_space(#[trigger] s[k]),
    ensures
        spaces_end(s, i) == spaces_end(s, j),
    decreases j - i,
{
    if i < j {
        lemma_spaces_end_step(s, i + 1, j);
    }
}

/// Reads the longest run of digits from `start` and its value.
fn scan_number(bytes: &[u8], start: usize) -> (r: Scanned)
    requires
        start <= bytes@.len(),
    ensures
        r.end == digits_end(bytes@, start as int),
        start <= r.end <= bytes@.len(),
        r.value is Some <==> digits_value(bytes@.subrange(start as int, r.end as int))
            <= u64::MAX,
        r.value matches Some(v) ==> v == digits_value(
            bytes@.subrange(start as int, r.end as int),
        ),
{
    let mut i: usize = start;
    let mut value: Option<u64> = Some(0);
    assert(bytes@.subrange(start as int, start as int).len() == 0);
    while i < bytes.len() && bytes[i] >= 48 && bytes[i] <= 57
        invariant
            start <= i <= bytes@.len(),
            forall|k: int| start <= k < i ==> is_digit(#[trigger] bytes@[k]),
            value is Some <==> digits_value(bytes@.subrange(start as int, i as int)) <= u64::MAX,
            value matches Some(v) ==> v == digits_value(bytes@.subrange(start as int, i as int)),
        decreases bytes@.len() - i,
    {
        let digit: u64 = (bytes[i] - 48) as u64;
        proof {
            let before = bytes@.subrange(start as int, i as int);
            let after = bytes@.subrange(start as int, i as int + 1);
            assert(after.drop_last() =~= before);
            assert(after.last() == bytes@[i as int]);
            assert(digits_value(after) == digits_value(before) * 10 + digit);
        }
        value = match value {
            Some(v) => match v.checked_mul(10) {
                Some(w) => w.checked_add(digit),
                None => None,
            },
            None => None,
        };
        i = i + 1;
    }
    proof {
        lemma_digits_end_step(bytes@, start as int, i as int);
    }
    Scanned { end: i, value }
}

/// Skips the longest run of white space from `start`.
fn skip_spaces(bytes: &[u8], start: usize) -> (end: usize)
    requires
        start <= bytes@.len(),
    ensures
        end == spaces_end(bytes@, start as int),
        start <= end <= bytes@.len(),
{
    let mut i: usize = start;
    while i < bytes.len() && (bytes[i] == 9 || bytes[i] == 10 || bytes[i] == 11 || bytes[i] == 12
        || bytes[i] == 13 || bytes[i] == 32)
        invariant
            start <= i <= bytes@.len(),
            forall|k: int| start <= k < i ==> is_space(#[trigger] bytes@[k]),
        decreases bytes@.len() - i,
    {
        i = i + 1;
    }
    proof {
        lemma_spaces_end_step(bytes@, start as int, i as int);
    }
    i
}

/// One optional part read from the text.
struct ScannedPart {
    /// Whether a number followed by the unit stands at the position.
    present: bool,
    /// The number, where it is present and fits in 64 bits.
    value: Option<u64>,
    /// The position after the part, or the starting position where it is absent.
    end: usize,
}

/// Reads one optional part, a number directly followed by `unit`, at `start`.
fn scan_part(bytes: &[u8], start: usize, unit: u8) -> (r: ScannedPart)
    requires
        start <= bytes@.len(),
    ensures
        r.present == (part_at(bytes@, start as int, unit).0 is Some),
        r.end == part_at(bytes@, start as int, unit).1,
        start <= r.end <= bytes@.len(),
        r.present ==> (r.value is Some <==> !part_overflows(
            part_at(bytes@, start as int, unit).0,
        )),
        r.present ==> (r.value matches Some(v) ==> part_at(bytes@, start as int, unit).0
            == Some(v as nat)),
        !r.present ==> r.value is None,
{
    let number = scan_number(bytes, start);
    if start < number.end && number.end < bytes.len() && bytes[number.end] == unit {
        ScannedPart { present: true, value: number.value, end: number.end + 1 }
    } else {
        ScannedPart { present: false, value: None, end: start }
    }
}

/// The number of a part that was read without overflow, zero where it is absent.
fn part_or_zero(p: &ScannedPart) -> (r: u64)
    ensures
        r == (match p.value {
            Some(v) => v,
            None => 0u64,
        }),
{
    match p.value {
        Some(v) => v,
        None => 0,
    }
}

impl Duration {
    #[verifier::type_invariant]
    spec fn valid(self) -> bool {
        self.nanos < NANOS_PER_SECOND
    }

    /// The whole seconds of the span.
    pub closed spec fn spec_secs(self) -> nat {
        self.secs as nat
    }

    /// The nanoseconds past the whole seconds.
    pub closed spec fn spec_subsec_nanos(self) -> nat {
        self.nanos as nat
    }

    /// The span in nanoseconds.
    pub open spec fn spec_nanos(self) -> nat {
        self.spec_secs() * 1_000_000_000 + self.spec_subsec_nanos()
    }

    /// The most nanoseconds that a span can hold.
    pub open spec fn max_nanos() -> int {
        u64::MAX * 1_000_000_000 + 999_999_999
    }

    /// The span of the given nanoseconds, which must not be more than `max_nanos`.
    pub closed spec fn of_nanos(nanos: int) -> Duration {
        Duration { secs: (nanos / 1_000_000_000) as u64, nanos: (nanos % 1_000_000_000) as u32 }
    }

    /// `of_nanos` gives a span of just those nanoseconds.
    pub proof fn lemma_of_nanos(nanos: int)
        requires
            0 <= nanos <= Self::max_nanos(),
        ensures
            Self::of_nanos(nanos).spec_nanos() == nanos,
            Self::of_nanos(nanos).spec_subsec_nanos() < 1_000_000_000,
    {
    }

    /// The span of the given nanoseconds; `None` where they are more than a
    /// span can hold.
    pub fn from_nanos(nanos: u128) -> (r: Option<Duration>)
        ensures
            r is Some <==> nanos <= Self::max_nanos(),
            r matches Some(d) ==> d == Self::of_nanos(nanos as int) && d.spec_nanos() == nanos,
    {
        let secs: u128 = nanos / 1_000_000_000;
        let rest: u128 = nanos % 1_000_000_000;
        if secs <= u64::MAX as u128 {
            Some(Duration { secs: secs as u64, nanos: rest as u32 })
        } else {
            None
        }
    }

    /// A span of whole seconds.
    pub fn from_secs(seconds: u64) -> (r: Duration)
        ensures
            r.spec_secs() == seconds,
            r.spec_subsec_nanos() == 0,
    {
        Duration { secs: seconds, nanos: 0 }
    }

    /// A span of seconds and nanoseconds; `None` where `nanos` is a full second or more.
    pub fn new(secs: u64, nanos: u32) -> (r: Option<Duration>)
        ensures
            r is Some <==> nanos < NANOS_PER_SECOND,
            r matches Some(d) ==> d.spec_secs() == secs && d.spec_subsec_nanos() == nanos,
    {
        if nanos < NANOS_PER_SECOND {
            Some(Duration { secs, nanos })
        } else {
            None
        }
    }

    /// The whole seconds of the span.
    pub fn as_secs(&self) -> (r: u64)
        ensures
            r == self.spec_secs(),
    {
        self.secs
    }

    /// The nanoseconds past the whole seconds; always below one second.
    pub fn subsec_nanos(&self) -> (r: u32)
        ensures
            r == self.spec_subsec_nanos(),
            r < NANOS_PER_SECOND,
    {
        proof {
            use_type_invariant(self);
        }
        self.nanos
    }

    /// The span in nanoseconds.
    pub fn as_nanos(&self) -> (r: u128)
        ensures
            r == self.spec_nanos(),
            r <= Self::max_nanos(),
            *self == Self::of_nanos(r as int),
    {
        proof {
            use_type_invariant(self);
        }
        (self.secs as u128) * 1_000_000_000 + (self.nanos as u128)
    }

    /// Whether the span is empty.
    pub fn is_zero(&self) -> (r: bool)
        ensures
            r == (self.spec_nanos() == 0),
    {
        self.secs == 0 && self.nanos == 0
    }

    /// Draws a span from the thread's random number generator with `gen_range`
    /// of the `rand` crate, over the half-open range from zero to this span,
    /// which must not be empty. Of the outcome only the range is known.
    #[verifier::external_body]
    pub(crate) fn random_below(&self) -> (r: Duration)
        requires
            self.spec_nanos() > 0,
        ensures
            r.spec_nanos() < self.spec_nanos(),
    {
        let end = std::time::Duration::new(self.secs, self.nanos);
        let drawn = rand::Rng::gen_range(&mut rand::thread_rng(), std::time::Duration::ZERO..end);
        Duration { secs: drawn.as_secs(), nanos: drawn.subsec_nanos() }
    }

    /// A duration given as a number of seconds; negative numbers are refused.
    pub fn from_integer(seconds: i64) -> (r: Result<Duration, DurationError>)
        ensures
            seconds < 0 ==> r == Err::<Duration, DurationError>(DurationError::Negative),
            seconds >= 0 ==> r is Ok && r->Ok_0.spec_secs() == seconds
                && r->Ok_0.spec_subsec_nanos() == 0,
    {
        if seconds < 0 {
            Err(DurationError::Negative)
        } else {
            Ok(Duration::from_secs(seconds as u64))
        }
    }

    /// Reads a duration written as `<n>d <n>h <n>m <n>s`: each part optional, at
    /// least one present, white space allowed after each of the first three slots.
    pub fn parse(text: &str) -> (r: Result<Duration, DurationError>)
        ensures
            r is Ok <==> read_duration(text.spec_bytes()) is Ok,
            r matches Ok(d) ==> read_duration(text.spec_bytes()) == Ok::<nat, DurationError>(
                d.spec_secs(),
            ) && d.spec_subsec_nanos() == 0,
            r matches Err(e) ==> read_duration(text.spec_bytes()) == Err::<nat, DurationError>(e),
    {
        let bytes = text.as_bytes();
        let days = scan_part(bytes, 0, 100);
        let after_days = skip_spaces(bytes, days.end);
        let hours = scan_part(bytes, after_days, 104);
        let after_hours = skip_spaces(bytes, hours.end);
        let minutes = scan_part(bytes, after_hours, 109);
        let after_minutes = skip_spaces(bytes, minutes.end);
        let seconds = scan_part(bytes, after_minutes, 115);
        if seconds.end != bytes.len() {
            return Err(DurationError::Invalid);
        }
        if days.present && days.value.is_none() {
            return Err(DurationError::PartTooLarge(DurationUnit::Days));
        }
        if hours.present && hours.value.is_none() {
            return Err(DurationError::PartTooLarge(DurationUnit::Hours));
        }
        if minutes.present && minutes.value.is_none() {
            return Err(DurationError::PartTooLarge(DurationUnit::Minutes));
        }
        if seconds.present && seconds.value.is_none() {
            return Err(DurationError::PartTooLarge(DurationUnit::Seconds));
        }
        if !days.present && !hours.present && !minutes.present && !seconds.present {
            return Err(DurationError::Invalid);
        }
        let d: u64 = part_or_zero(&days);
        let h: u64 = part_or_zero(&hours);
        let m: u64 = part_or_zero(&minutes);
        let s: u64 = part_or_zero(&seconds);
        let ghost p = scan_duration(bytes@)->0;
        assert(part_value(p.days) == d && part_value(p.hours) == h && part_value(p.minutes) == m
            && part_value(p.seconds) == s);
        let total = match d.checked_mul(24) {
            Some(a) => match a.checked_add(h) {
                Some(b) => match b.checked_mul(60) {
                    Some(c) => match c.checked_add(m) {
                        Some(e) => match e.checked_mul(60) {
                            Some(f) => f.checked_add(s),
                            None => None,
                        },
                        None => None,
                    },
                    None => None,
                },
                None => None,
            },
            None => None,
        };
        assert(total is Some <==> parts_seconds(p) <= u64::MAX) by (nonlinear_arith)
            requires
                total == (if ((d * 24 + h) * 60 + m) * 60 + s <= u64::MAX {
                    Some((((d * 24 + h) * 60 + m) * 60 + s) as u64)
                } else {
                    None
                }),
                parts_seconds(p) == ((d * 24 + h) * 60 + m) * 60 + s,
        ;
        match total {
            Some(t) => Ok(Duration::from_secs(t)),
            None => Err(DurationError::TooLarge),
        }
    }
}

/// A description of how a date and time is written, in the syntax of the `time`
/// crate's format descriptions, known to be accepted by that crate.
#[derive(Debug)]
pub struct DateTimeFormat {
    source: String,
}

impl View for DateTimeFormat {
    type V = Seq<char>;

    closed spec fn view(&self) -> Seq<char> {
        self.source@
    }
}

impl DateTimeFormat {
    #[verifier::type_invariant]
    spec fn accepted(self) -> bool {
        format_accepted(self.source@)
    }

    /// Accepts `source` exactly where the `time` crate accepts it as a format
    /// description.
    pub fn parse(source: &str) -> (r: Option<DateTimeFormat>)
        ensures
            r is Some <==> format_accepted(source@),
            r matches Some(f) ==> f@ == source@,
    {
        if format_is_accepted(source) {
            Some(DateTimeFormat { source: String::from_str(source) })
        } else {
            None
        }
    }

    /// The text of the description.
    pub fn as_str(&self) -> (r: &str)
        ensures
            r@ == self@,
    {
        self.source.as_str()
    }

    /// Gives up the description for its text.
    pub fn into_inner(self) -> (r: String)
        ensures
            r@ == self@,
            format_accepted(r@),
    {
        proof {
            use_type_invariant(&self);
        }
        self.source
    }

    /// A copy of this description.
    pub fn duplicate(&self) -> (r: DateTimeFormat)
        ensures
            r@ == self@,
    {
        proof {
            use_type_invariant(self);
        }
        DateTimeFormat { source: self.source.clone() }
    }
}

} // verus!
