//! Instants with a UTC offset, as plain integers.

use vstd::prelude::*;

verus! {

/// Nanoseconds in one second.
pub const NANOS_PER_SECOND: u32 = 1_000_000_000;

/// The largest UTC offset, in seconds, that an instant can carry (25:59:59).
pub const MAX_OFFSET_SECONDS: i32 = 93_599;

/// An instant on the UTC time line together with the UTC offset it is shown in.
///
/// `seconds` and `nanos` count from the Unix epoch; `offset` is in seconds east
/// of UTC and does not change which instant is meant.
#[derive(Debug, Clone, Copy, PartialEq, Eq, Structural)]
pub struct Timestamp {
    seconds: i64,
    nanos: u32,
    offset: i32,
}

impl Timestamp {
    #[verifier::type_invariant]
    spec fn valid(self) -> bool {
        &&& self.nanos < NANOS_PER_SECOND
        &&& -MAX_OFFSET_SECONDS <= self.offset <= MAX_OFFSET_SECONDS
    }

    /// Seconds since the Unix epoch, rounded down.
    pub closed spec fn spec_seconds(self) -> int {
        self.seconds as int
    }

    /// Nanoseconds past `spec_seconds`.
    pub closed spec fn spec_nanos(self) -> int {
        self.nanos as int
    }

    /// The UTC offset in seconds.
    pub closed spec fn spec_offset(self) -> int {
        self.offset as int
    }

    /// The timestamp of the given parts, which must be such as `parts_valid`
    /// accepts, the seconds within 64 bits.
    pub closed spec fn of_parts(seconds: int, nanos: int, offset: int) -> Timestamp {
        Timestamp { seconds: seconds as i64, nanos: nanos as u32, offset: offset as i32 }
    }

    /// `of_parts` gives a timestamp of just those parts.
    pub proof fn lemma_of_parts(seconds: int, nanos: int, offset: int)
        requires
            i64::MIN <= seconds <= i64::MAX,
            0 <= nanos < NANOS_PER_SECOND,
            -MAX_OFFSET_SECONDS <= offset <= MAX_OFFSET_SECONDS,
        ensures
            Self::of_parts(seconds, nanos, offset).spec_seconds() == seconds,
            Self::of_parts(seconds, nanos, offset).spec_nanos() == nanos,
            Self::of_parts(seconds, nanos, offset).spec_offset() == offset,
    {
    }

    /// The instant as nanoseconds since the Unix epoch.
    pub open spec fn instant(self) -> int {
        self.spec_seconds() * 1_000_000_000 + self.spec_nanos()
    }

    /// Whether the three parts form a timestamp.
    pub open spec fn parts_valid(seconds: i64, nanos: u32, offset: i32) -> bool {
        &&& nanos < NANOS_PER_SECOND
        &&& -MAX_OFFSET_SECONDS <= offset <= MAX_OFFSET_SECONDS
    }

    /// Builds a timestamp from its parts; `None` where `nanos` is a full second
    /// or more, or `offset` is beyond 25:59:59 either way.
    pub fn new(seconds: i64, nanos: u32, offset: i32) -> (r: Option<Timestamp>)
        ensures
            r is Some <==> Self::parts_valid(seconds, nanos, offset),
            r matches Some(t) ==> t.spec_seconds() == seconds && t.spec_nanos() == nanos
                && t.spec_offset() == offset && t == Self::of_parts(
                seconds as int,
                nanos as int,
                offset as int,
            ),
    {
        if nanos < NANOS_PER_SECOND && -MAX_OFFSET_SECONDS <= offset && offset
            <= MAX_OFFSET_SECONDS {
            Some(Timestamp { seconds, nanos, offset })
        } else {
            None
        }
    }

    /// The timestamp of a whole second in UTC.
    pub fn from_unix_seconds(seconds: i64) -> (r: Timestamp)
        ensures
            r.spec_seconds() == seconds,
            r.spec_nanos() == 0,
            r.spec_offset() == 0,
            r == Self::of_parts(seconds as int, 0, 0),
    {
        Timestamp { seconds, nanos: 0, offset: 0 }
    }

    /// Seconds since the Unix epoch, rounded down.
    pub fn seconds(&self) -> (r: i64)
        ensures
            r == self.spec_seconds(),
    {
        self.seconds
    }

    /// Nanoseconds past the whole second; always below one second.
    pub fn nanos(&self) -> (r: u32)
        ensures
            r == self.spec_nanos(),
            r < NANOS_PER_SECOND,
    {
        proof {
            use_type_invariant(self);
        }
        self.nanos
    }

    /// The UTC offset in seconds; never beyond 25:59:59 either way.
    pub fn offset(&self) -> (r: i32)
        ensures
            r == self.spec_offset(),
            -MAX_OFFSET_SECONDS <= r <= MAX_OFFSET_SECONDS,
    {
        proof {
            use_type_invariant(self);
        }
        self.offset
    }

    /// Whether this instant is strictly earlier than `other`; offsets play no part.
    pub fn is_before(&self, other: &Timestamp) -> (r: bool)
        ensures
            r == (self.instant() < other.instant()),
    {
        proof {
            use_type_invariant(self);
            use_type_invariant(other);
        }
        self.seconds < other.seconds || (self.seconds == other.seconds && self.nanos
            < other.nanos)
    }

    /// Whether both timestamps mean the same instant; offsets play no part.
    pub fn same_instant(&self, other: &Timestamp) -> (r: bool)
        ensures
            r == (self.instant() == other.instant()),
    {
        proof {
            use_type_invariant(self);
            use_type_invariant(other);
        }
        self.seconds == other.seconds && self.nanos == other.nanos
    }
}

/// Whether `parse_owned::<2>` of the `time` crate accepts `format` as a format
/// description.
pub uninterp spec fn format_accepted(format: Seq<char>) -> bool;

/// The instant that `OffsetDateTime::parse` of the `time` crate reads from `text`
/// by the format description that `parse_owned::<2>` makes of `format`; `None`
/// where the description or the text is refused.
pub uninterp spec fn datetime_parse(text: Seq<char>, format: Seq<char>) -> Option<Timestamp>;

/// Calls `format_description::parse_owned::<2>` of the `time` crate and reports
/// whether it accepted the text. The contract gives that answer its name.
#[verifier::external_body]
pub(crate) fn format_is_accepted(format: &str) -> (r: bool)
    ensures
        r == format_accepted(format@),
{
    time::format_description::parse_owned::<2>(format).is_ok()
}

/// Calls `OffsetDateTime::parse` of the `time` crate with the description that
/// `parse_owned::<2>` makes of `format`, and hands back the Unix seconds, the
/// nanoseconds and the offset of what it read. The contract gives the outcome
/// its name.
#[verifier::external_body]
pub(crate) fn parse_by_format(text: &str, format: &str) -> (r: Option<Timestamp>)
    ensures
        r == datetime_parse(text@, format@),
{
    let description = time::format_description::parse_owned::<2>(format).ok()?;
    let read = time::OffsetDateTime::parse(text, &description).ok()?;
    Some(
        Timestamp {
            seconds: read.unix_timestamp(),
            nanos: read.nanosecond(),
            offset: read.offset().whole_seconds(),
        },
    )
}

/// The text that `OffsetDateTime::format` of the `time` crate writes for the
/// instant, shown in its offset, by the format description that `parse_owned::<2>`
/// makes of `format`; `None` where the description is refused, the instant is
/// outside the range of the crate, or formatting fails.
pub uninterp spec fn datetime_text(at: Timestamp, format: Seq<char>) -> Option<Seq<char>>;

/// The text that `OffsetDateTime::format` of the `time` crate writes for the
/// instant, shown in its offset, in the well-known format `Rfc2822`; `None` where
/// the instant is outside the range of the crate or formatting fails.
pub uninterp spec fn rfc2822_text(at: Timestamp) -> Option<Seq<char>>;

/// Builds the crate's `OffsetDateTime` for the instant (`from_unix_timestamp`,
/// `replace_nanosecond`, `checked_to_offset`) and calls its `format` with the
/// description that `parse_owned::<2>` makes of `format`. The contract gives the
/// outcome its name.
#[verifier::external_body]
pub(crate) fn format_by(at: &Timestamp, format: &str) -> (r: Option<String>)
    ensures
        r is Some <==> datetime_text(*at, format@) is Some,
        r matches Some(s) ==> datetime_text(*at, format@) == Some(s@),
{
    let description = time::format_description::parse_owned::<2>(format).ok()?;
    let offset = time::UtcOffset::from_whole_seconds(at.offset).ok()?;
    let utc = time::OffsetDateTime::from_unix_timestamp(at.seconds).ok()?;
    let shown = utc.replace_nanosecond(at.nanos).ok()?.checked_to_offset(offset)?;
    shown.format(&description).ok()
}

/// Builds the crate's `OffsetDateTime` for the instant (`from_unix_timestamp`,
/// `replace_nanosecond`, `checked_to_offset`) and calls its `format` with the
/// well-known format `Rfc2822`. The contract gives the outcome its name.
#[verifier::external_body]
pub(crate) fn format_rfc2822(at: &Timestamp) -> (r: Option<String>)
    ensures
        r is Some <==> rfc2822_text(*at) is Some,
        r matches Some(s) ==> rfc2822_text(*at) == Some(s@),
{
    let offset = time::UtcOffset::from_whole_seconds(at.offset).ok()?;
    let utc = time::OffsetDateTime::from_unix_timestamp(at.seconds).ok()?;
    let shown = utc.replace_nanosecond(at.nanos).ok()?.checked_to_offset(offset)?;
    shown.format(&time::format_description::well_known::Rfc2822).ok()
}

/// Whether a year is a leap year of the Gregorian calendar.
pub open spec fn is_leap_year(year: int) -> bool {
    year % 4 == 0 && (year % 100 != 0 || year % 400 == 0)
}

/// The number of days of a month, counted from one, in a year.
pub open spec fn days_in_month(year: int, month: int) -> int {
    if month == 2 {
        if is_leap_year(year) {
            29
        } else {
            28
        }
    } else if month == 4 || month == 6 || month == 9 || month == 11 {
        30
    } else {
        31
    }
}

/// Whether the calendar has the day: the year within four digits either way,
/// the month from one to twelve, the day within the month.
pub open spec fn is_calendar_date(year: int, month: int, day: int) -> bool {
    &&& -9999 <= year <= 9999
    &&& 1 <= month <= 12
    &&& 1 <= day <= days_in_month(year, month)
}

/// Whether the clock has the time.
pub open spec fn is_clock_time(hour: int, minute: int, second: int) -> bool {
    0 <= hour < 24 && 0 <= minute < 60 && 0 <= second < 60
}

/// The days from the first day of the year 1 to the first day of `year`, in
/// the calendar of today carried on in both directions: every year has 365
/// days, and one more where it is a leap year.
pub open spec fn days_before_year(year: int) -> int {
    let past = year - 1;
    365 * past + past / 4 - past / 100 + past / 400
}

/// The days of a year that come before the first day of a month.
pub open spec fn days_before_month(year: int, month: int) -> int
    decreases month,
{
    if month <= 1 {
        0
    } else {
        days_before_month(year, month - 1) + days_in_month(year, month - 1)
    }
}

/// The days from the first day of the year 1 to the first day of 1970.
pub const DAYS_BEFORE_1970: i64 = 719_162;

/// The seconds of a day.
pub const SECONDS_PER_DAY: i64 = 86_400;

/// The days from the first day of 1970 to a day of the calendar; days before
/// 1970 count below zero.
pub open spec fn unix_days(year: int, month: int, day: int) -> int {
    days_before_year(year) + days_before_month(year, month) + (day - 1) - DAYS_BEFORE_1970
}

/// The Unix seconds of the instant at which a clock that is `offset` seconds
/// ahead of UTC shows the given date and time: the seconds from the beginning
/// of 1970 to that date and time, counted without leap seconds, less the
/// offset.
pub open spec fn civil_unix_seconds(
    year: int,
    month: int,
    day: int,
    hour: int,
    minute: int,
    second: int,
    offset: int,
) -> int {
    unix_days(year, month, day) * SECONDS_PER_DAY + hour * 3600 + minute * 60 + second - offset
}

/// No month begins after the 335th day of its year.
pub proof fn lemma_days_before_month(year: int, month: int)
    requires
        1 <= month <= 12,
    ensures
        0 <= days_before_month(year, month) <= 335,
{
    reveal_with_fuel(days_before_month, 13);
}

/// The instants of the dates that the calendar has lie well within what 64
/// bits count: between the first second of the year -9999 and the last of the
/// year 9999, give or take an offset.
pub proof fn lemma_civil_seconds_bounded(
    year: int,
    month: int,
    day: int,
    hour: int,
    minute: int,
    second: int,
    offset: int,
)
    requires
        is_calendar_date(year, month, day),
        is_clock_time(hour, minute, second),
        -MAX_OFFSET_SECONDS <= offset <= MAX_OFFSET_SECONDS,
    ensures
        -377_705_116_800 - MAX_OFFSET_SECONDS <= civil_unix_seconds(
            year,
            month,
            day,
            hour,
            minute,
            second,
            offset,
        ) <= 253_402_300_799 + MAX_OFFSET_SECONDS,
{
    lemma_days_before_month(year, month);
    assert(days_before_year(-9999) == -3_652_425);
    assert(days_before_year(10000) == 3_652_059);
    assert(days_before_year(-9999) <= days_before_year(year)) by {
        lemma_days_before_year_grows(-9999, year);
    }
    assert(days_before_year(year + 1) <= days_before_year(10000)) by {
        lemma_days_before_year_grows(year + 1, 10000);
    }
    lemma_year_holds_its_days(year, month, day);
}

/// A later year begins later.
proof fn lemma_days_before_year_grows(a: int, b: int)
    requires
        a <= b,
    ensures
        days_before_year(a) <= days_before_year(b),
    decreases b - a,
{
    if a < b {
        lemma_days_before_year_grows(a, b - 1);
        lemma_year_length(b - 1);
    }
}

/// A year has 365 days, and one more where it is a leap year.
proof fn lemma_year_length(year: int)
    ensures
        days_before_year(year + 1) - days_before_year(year) == (if is_leap_year(year) {
            366int
        } else {
            365int
        }),
{
}

/// A day of a year comes before the first day of the next year.
proof fn lemma_year_holds_its_days(year: int, month: int, day: int)
    requires
        is_calendar_date(year, month, day),
    ensures
        days_before_year(year) + days_before_month(year, month) + day <= days_before_year(year + 1),
{
    lemma_year_length(year);
    lemma_month_ends_in_year(year, month);
}

/// Every month ends within its year.
proof fn lemma_month_ends_in_year(year: int, month: int)
    requires
        1 <= month <= 12,
    ensures
        days_before_month(year, month) + days_in_month(year, month) <= (if is_leap_year(year) {
            366int
        } else {
            365int
        }),
{
    reveal_with_fuel(days_before_month, 13);
}

/// The UTC offsets that a time zone has for a date and time on its own clock.
#[derive(Debug, Clone, Copy, PartialEq, Eq, Structural)]
pub enum ZoneOffsets {
    /// No time zone of that name is known.
    Unknown,
    /// The clock of the zone never shows that time.
    Gap,
    /// The clock shows the time once, at this offset in seconds.
    One(i32),
    /// The clock shows the time twice: at the first offset, then at the second.
    Two(i32, i32),
}

/// What `assume_timezone` of the `time_tz` crate finds for the date and time in
/// the zone that `timezones::get_by_name` knows under `zone`.
pub uninterp spec fn zone_offsets(
    zone: Seq<char>,
    year: int,
    month: int,
    day: int,
    hour: int,
    minute: int,
    second: int,
) -> ZoneOffsets;

/// Whether the calendar has the day. The month must be one of the twelve.
pub(crate) fn calendar_date_exists(year: i32, month: u8, day: u8) -> (r: bool)
    requires
        1 <= month <= 12,
    ensures
        r == is_calendar_date(year as int, month as int, day as int),
{
    if year < -9999 || year > 9999 || day < 1 {
        return false;
    }
    let counted: i32 = year + 10000;
    let leap = counted % 4 == 0 && (counted % 100 != 0 || counted % 400 == 0);
    proof {
        assert(leap == is_leap_year(year as int)) by {
            assert((year + 10000) % 4 == 0 <==> year % 4 == 0);
            assert((year + 10000) % 100 == 0 <==> year % 100 == 0);
            assert((year + 10000) % 400 == 0 <==> year % 400 == 0);
        }
    }
    let days: u8 = if month == 2 {
        if leap {
            29
        } else {
            28
        }
    } else if month == 4 || month == 6 || month == 9 || month == 11 {
        30
    } else {
        31
    };
    day <= days
}

/// Whether the clock has the time.
pub(crate) fn clock_time_exists(hour: u8, minute: u8, second: u8) -> (r: bool)
    ensures
        r == is_clock_time(hour as int, minute as int, second as int),
{
    hour < 24 && minute < 60 && second < 60
}

/// Builds the date and time with `Date::from_calendar_date` and `with_hms`,
/// assumes the offset with `assume_offset` and reads `unix_timestamp`, all of
/// the `time` crate. The date, the time and the offset must exist. The contract
/// says which second that is: the days from the beginning of 1970 to the date,
/// each of 86400 seconds, and the time of the day, less the offset.
#[verifier::external_body]
pub(crate) fn civil_instant(
    year: i32,
    month: u8,
    day: u8,
    hour: u8,
    minute: u8,
    second: u8,
    offset: i32,
) -> (r: i64)
    requires
        is_calendar_date(year as int, month as int, day as int),
        is_clock_time(hour as int, minute as int, second as int),
        -MAX_OFFSET_SECONDS <= offset <= MAX_OFFSET_SECONDS,
    ensures
        r == civil_unix_seconds(
            year as int,
            month as int,
            day as int,
            hour as int,
            minute as int,
            second as int,
            offset as int,
        ),
{
    let month = time::Month::try_from(month).unwrap();
    let date = time::Date::from_calendar_date(year, month, day).unwrap();
    let local = date.with_hms(hour, minute, second).unwrap();
    local.assume_offset(time::UtcOffset::from_whole_seconds(offset).unwrap()).unix_timestamp()
}

/// Looks the zone up with `timezones::get_by_name` and asks `assume_timezone`,
/// both of the `time_tz` crate, for the offsets of the date and time, which must
/// exist. The contract gives the outcome its name, and says that the offsets are
/// such as an instant can carry.
#[verifier::external_body]
pub(crate) fn offsets_in_zone(
    zone: &str,
    year: i32,
    month: u8,
    day: u8,
    hour: u8,
    minute: u8,
    second: u8,
) -> (r: ZoneOffsets)
    requires
        is_calendar_date(year as int, month as int, day as int),
        is_clock_time(hour as int, minute as int, second as int),
    ensures
        r == zone_offsets(
            zone@,
            year as int,
            month as int,
            day as int,
            hour as int,
            minute as int,
            second as int,
        ),
        r matches ZoneOffsets::One(a) ==> -MAX_OFFSET_SECONDS <= a <= MAX_OFFSET_SECONDS,
        r matches ZoneOffsets::Two(a, b) ==> -MAX_OFFSET_SECONDS <= a <= MAX_OFFSET_SECONDS
            && -MAX_OFFSET_SECONDS <= b <= MAX_OFFSET_SECONDS,
{
    let Some(tz) = time_tz::timezones::get_by_name(zone) else { return ZoneOffsets::Unknown };
    let month = time::Month::try_from(month).unwrap();
    let local = time::Date::from_calendar_date(year, month, day).unwrap();
    let local = local.with_hms(hour, minute, second).unwrap();
    match time_tz::PrimitiveDateTimeExt::assume_timezone(&local, tz) {
        time_tz::OffsetResult::Some(a) => ZoneOffsets::One(a.offset().whole_seconds()),
        time_tz::OffsetResult::Ambiguous(a, b) => {
            ZoneOffsets::Two(a.offset().whole_seconds(), b.offset().whole_seconds())
        },
        time_tz::OffsetResult::None => ZoneOffsets::Gap,
    }
}

impl Timestamp {
    /// The instant at which a clock that is `offset` seconds ahead of UTC shows
    /// the given date and time, which must exist, with that offset.
    pub fn from_civil(
        year: i32,
        month: u8,
        day: u8,
        hour: u8,
        minute: u8,
        second: u8,
        offset: i32,
    ) -> (r: Timestamp)
        requires
            is_calendar_date(year as int, month as int, day as int),
            is_clock_time(hour as int, minute as int, second as int),
            -MAX_OFFSET_SECONDS <= offset <= MAX_OFFSET_SECONDS,
        ensures
            r.spec_seconds() == civil_unix_seconds(
                year as int,
                month as int,
                day as int,
                hour as int,
                minute as int,
                second as int,
                offset as int,
            ),
            r.spec_nanos() == 0,
            r.spec_offset() == offset,
            r == Self::of_parts(r.spec_seconds(), 0, offset as int),
            -377_705_116_800 - MAX_OFFSET_SECONDS <= r.spec_seconds() <= 253_402_300_799
                + MAX_OFFSET_SECONDS,
    {
        proof {
            lemma_civil_seconds_bounded(
                year as int,
                month as int,
                day as int,
                hour as int,
                minute as int,
                second as int,
                offset as int,
            );
        }
        let seconds = civil_instant(year, month, day, hour, minute, second, offset);
        Timestamp { seconds, nanos: 0, offset }
    }
}

} // verus!
