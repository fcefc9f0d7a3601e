//! What a script hands back, as plain values, and how entries are read from it.

use vstd::prelude::*;
use vstd::slice::*;
use vstd::string::*;

use crate::extractor::{option_view, Field};
use crate::timestamp::{
    calendar_date_exists, civil_unix_seconds, clock_time_exists, is_calendar_date, is_clock_time,
    offsets_in_zone, zone_offsets, Timestamp, ZoneOffsets,
};

verus! {

/// A piece of text that is handed to a script and cannot be changed by it.
#[derive(Debug)]
pub struct Buffer {
    text: String,
}

impl View for Buffer {
    type V = Seq<char>;

    closed spec fn view(&self) -> Seq<char> {
        self.text@
    }
}

impl Buffer {
    /// A buffer that holds `text`.
    pub fn new(text: String) -> (r: Buffer)
        ensures
            r@ == text@,
    {
        Buffer { text }
    }

    /// The text of the buffer.
    pub fn as_str(&self) -> (r: &str)
        ensures
            r@ == self@,
    {
        self.text.as_str()
    }

    /// The text of the buffer as a string of its own.
    pub fn to_string(&self) -> (r: String)
        ensures
            r@ == self@,
    {
        self.text.clone()
    }

    /// The length of the text in bytes.
    pub fn len(&self) -> (r: usize)
        ensures
            r == vstd::utf8::encode_utf8(self@).len(),
    {
        self.text.as_str().as_bytes().len()
    }
}

/// What calling the `__tostring` metamethod of a value gave.
#[derive(Debug)]
pub enum Called {
    /// The call gave this string.
    Text(String),
    /// The call gave something that is no string.
    NotAString,
    /// The call failed.
    Failed,
}

/// A value of the script, as far as reading text from it needs to know it.
#[derive(Debug)]
pub enum ScriptValue {
    /// Nothing.
    Nil,
    /// A string or a number, as the text it is written as.
    Text(String),
    /// A table or a foreign object, with what its `__tostring` metamethod gave
    /// where it has one.
    Object(Option<Called>),
    /// A value of any other kind.
    Other,
    /// A value that could not be read.
    Unreadable,
}

/// `ScriptValue` as plain values.
pub enum ScriptValueView {
    Nil,
    Text(Seq<char>),
    ObjectText(Seq<char>),
    ObjectNotAString,
    ObjectFailed,
    ObjectPlain,
    Other,
    Unreadable,
}

impl View for ScriptValue {
    type V = ScriptValueView;

    open spec fn view(&self) -> ScriptValueView {
        match self {
            ScriptValue::Nil => ScriptValueView::Nil,
            ScriptValue::Text(s) => ScriptValueView::Text(s@),
            ScriptValue::Object(Some(Called::Text(s))) => ScriptValueView::ObjectText(s@),
            ScriptValue::Object(Some(Called::NotAString)) => ScriptValueView::ObjectNotAString,
            ScriptValue::Object(Some(Called::Failed)) => ScriptValueView::ObjectFailed,
            ScriptValue::Object(None) => ScriptValueView::ObjectPlain,
            ScriptValue::Other => ScriptValueView::Other,
            ScriptValue::Unreadable => ScriptValueView::Unreadable,
        }
    }
}

/// Why no text could be read from a value.
#[derive(Debug, Clone, Copy, PartialEq, Eq, Structural)]
pub enum CoerceError {
    /// The value is neither a string, a number, nor an object with `__tostring`.
    WrongType,
    /// The value could not be read.
    Unreadable,
    /// Calling `__tostring` failed.
    ToStringFailed,
    /// `__tostring` gave something that is no string.
    ToStringNotAString,
    /// The text is empty and may not be.
    Empty,
}

/// The text of a value: a string or a number gives itself as text, an object
/// what its `__tostring` gives, which must be a string.
pub open spec fn text_of(value: ScriptValueView) -> Result<Seq<char>, CoerceError> {
    match value {
        ScriptValueView::Text(s) => Ok(s),
        ScriptValueView::ObjectText(s) => Ok(s),
        ScriptValueView::ObjectNotAString => Err(CoerceError::ToStringNotAString),
        ScriptValueView::ObjectFailed => Err(CoerceError::ToStringFailed),
        ScriptValueView::Unreadable => Err(CoerceError::Unreadable),
        _ => Err(CoerceError::WrongType),
    }
}

/// The text of a value, which may not be empty.
pub open spec fn non_empty_text_of(value: ScriptValueView) -> Result<Seq<char>, CoerceError> {
    match text_of(value) {
        Ok(s) => if s.len() == 0 {
            Err(CoerceError::Empty)
        } else {
            Ok(s)
        },
        Err(e) => Err(e),
    }
}

/// The text of a value that may be missing.
pub open spec fn optional_text_of(value: ScriptValueView) -> Result<
    Option<Seq<char>>,
    CoerceError,
> {
    match value {
        ScriptValueView::Nil => Ok(None),
        _ => match text_of(value) {
            Ok(s) => Ok(Some(s)),
            Err(e) => Err(e),
        },
    }
}

/// Reads the text of a value.
pub fn stringified(value: &ScriptValue) -> (r: Result<String, CoerceError>)
    ensures
        match text_of(value@) {
            Ok(s) => r is Ok && r->Ok_0@ == s,
            Err(e) => r == Err::<String, CoerceError>(e),
        },
{
    match value {
        ScriptValue::Text(s) => Ok(s.clone()),
        ScriptValue::Object(Some(Called::Text(s))) => Ok(s.clone()),
        ScriptValue::Object(Some(Called::NotAString)) => Err(CoerceError::ToStringNotAString),
        ScriptValue::Object(Some(Called::Failed)) => Err(CoerceError::ToStringFailed),
        ScriptValue::Unreadable => Err(CoerceError::Unreadable),
        _ => Err(CoerceError::WrongType),
    }
}

/// Reads the text of a value, which may not be empty.
pub fn non_empty_string(value: &ScriptValue) -> (r: Result<String, CoerceError>)
    ensures
        match non_empty_text_of(value@) {
            Ok(s) => r is Ok && r->Ok_0@ == s,
            Err(e) => r == Err::<String, CoerceError>(e),
        },
{
    match stringified(value) {
        Ok(s) => {
            if s.as_str().is_empty() {
                Err(CoerceError::Empty)
            } else {
                Ok(s)
            }
        },
        Err(e) => Err(e),
    }
}

/// Reads the text of a value that may be missing.
pub fn optional_string(value: &ScriptValue) -> (r: Result<Option<String>, CoerceError>)
    ensures
        match optional_text_of(value@) {
            Ok(s) => r is Ok && option_view(r->Ok_0) == s,
            Err(e) => r == Err::<Option<String>, CoerceError>(e),
        },
{
    match value {
        ScriptValue::Nil => Ok(None),
        _ => match stringified(value) {
            Ok(s) => Ok(Some(s)),
            Err(e) => Err(e),
        },
    }
}

/// A number of a table that may be missing.
#[derive(Debug, Clone, Copy, PartialEq, Eq, Structural)]
pub enum OffsetField {
    /// The table does not have it.
    Absent,
    /// It is this many minutes.
    Minutes(i16),
    /// It is no number that fits.
    Invalid,
}

/// The table that a script gives for a publication date. A number that is
/// missing, or that is no number of the width that is asked for, is `None`.
#[derive(Debug)]
pub struct PubDateTable {
    pub year: Option<i32>,
    pub month: Option<u8>,
    pub day: Option<u8>,
    pub hour: Option<u8>,
    pub minute: Option<u8>,
    pub second: Option<u8>,
    /// Minutes ahead of UTC.
    pub utc_offset: OffsetField,
    /// The name of a time zone.
    pub tz: ScriptValue,
}

/// A part of a publication date.
#[derive(Debug, Clone, Copy, PartialEq, Eq, Structural)]
pub enum DatePart {
    Year,
    Month,
    Day,
    Hour,
    Minute,
    Second,
    UtcOffset,
    Tz,
}

/// Why a table is no publication date.
#[derive(Debug, Clone, Copy, PartialEq, Eq, Structural)]
pub enum PubDateError {
    /// The part is missing or of the wrong kind.
    BadPart(DatePart),
    /// The name of the time zone cannot be read as a text that is not empty.
    BadZoneName(CoerceError),
    /// The month is not one of the twelve.
    InvalidMonth,
    /// The calendar does not have the day.
    InvalidDate,
    /// The clock does not have the time.
    InvalidTime,
    /// No time zone of that name is known.
    UnknownTimezone,
    /// The clock of the time zone never shows that time.
    InvalidInTimezone,
    /// The offset is beyond what can be counted in hours.
    OffsetTooLarge,
    /// The offset is beyond what an instant can carry.
    InvalidOffset,
    /// Neither a time zone nor an offset is given.
    NoZone,
}

/// A publication date read from a table.
#[derive(Debug, Clone, Copy, PartialEq, Eq, Structural)]
pub struct PubDate {
    pub at: Timestamp,
    /// Whether the time zone shows the time twice; `at` is then the earlier of
    /// the two instants.
    pub ambiguous: bool,
}

/// The smallest and the largest offset, in minutes, that is counted in hours
/// and minutes at all.
pub const MIN_COUNTED_OFFSET: i16 = -7680;

pub const MAX_COUNTED_OFFSET: i16 = 7679;

/// The smallest and the largest offset, in minutes, that a date can have: one
/// minute short of twenty-six hours behind UTC or ahead of it.
pub const MIN_OFFSET_MINUTES: i16 = -1559;

pub const MAX_OFFSET_MINUTES: i16 = 1559;

/// `PubDateTable` as plain values.
pub struct PubDateTableView {
    pub year: Option<i32>,
    pub month: Option<u8>,
    pub day: Option<u8>,
    pub hour: Option<u8>,
    pub minute: Option<u8>,
    pub second: Option<u8>,
    pub utc_offset: OffsetField,
    pub tz: ScriptValueView,
}

impl View for PubDateTable {
    type V = PubDateTableView;

    open spec fn view(&self) -> PubDateTableView {
        PubDateTableView {
            year: self.year,
            month: self.month,
            day: self.day,
            hour: self.hour,
            minute: self.minute,
            second: self.second,
            utc_offset: self.utc_offset,
            tz: self.tz@,
        }
    }
}

/// The first part of the table, in the order year, month, day, hour, minute,
/// second, offset, time zone, that cannot be read; `None` where all can.
pub open spec fn unreadable_part(table: PubDateTableView) -> Option<PubDateError> {
    if table.year is None {
        Some(PubDateError::BadPart(DatePart::Year))
    } else if table.month is None {
        Some(PubDateError::BadPart(DatePart::Month))
    } else if table.day is None {
        Some(PubDateError::BadPart(DatePart::Day))
    } else if table.hour is None {
        Some(PubDateError::BadPart(DatePart::Hour))
    } else if table.minute is None {
        Some(PubDateError::BadPart(DatePart::Minute))
    } else if table.second is None {
        Some(PubDateError::BadPart(DatePart::Second))
    } else if table.utc_offset is Invalid {
        Some(PubDateError::BadPart(DatePart::UtcOffset))
    } else {
        match table.tz {
            ScriptValueView::Nil => None,
            tz => match non_empty_text_of(tz) {
                Ok(_) => None,
                Err(e) => Some(PubDateError::BadZoneName(e)),
            },
        }
    }
}

/// The offset that a time zone gives to a date and time on its clock, the
/// first where it gives two, and whether it gives two.
pub open spec fn offset_in_zone(
    zone: Seq<char>,
    year: i32,
    month: u8,
    day: u8,
    hour: u8,
    minute: u8,
    second: u8,
) -> Result<(int, bool), PubDateError> {
    match zone_offsets(
        zone,
        year as int,
        month as int,
        day as int,
        hour as int,
        minute as int,
        second as int,
    ) {
        ZoneOffsets::Unknown => Err(PubDateError::UnknownTimezone),
        ZoneOffsets::Gap => Err(PubDateError::InvalidInTimezone),
        ZoneOffsets::One(a) => Ok((a as int, false)),
        ZoneOffsets::Two(a, b) => Ok((a as int, true)),
    }
}

/// The offset in seconds that an offset in minutes stands for, where a date can
/// have it.
pub open spec fn offset_seconds(minutes: i16) -> Result<int, PubDateError> {
    if minutes < MIN_COUNTED_OFFSET || minutes > MAX_COUNTED_OFFSET {
        Err(PubDateError::OffsetTooLarge)
    } else if minutes < MIN_OFFSET_MINUTES || minutes > MAX_OFFSET_MINUTES {
        Err(PubDateError::InvalidOffset)
    } else {
        Ok(minutes * 60)
    }
}

/// The offset of the date that the table writes, and whether the time zone
/// allows a second one, or why the table writes no date.
///
/// All parts must be readable. The month, the day and the time must exist. A
/// time zone, where one is named, decides the offset, and of two offsets the
/// first; else the offset in minutes does; one of the two must be there.
pub open spec fn read_offset_of(table: PubDateTableView) -> Result<(int, bool), PubDateError> {
    match unreadable_part(table) {
        Some(e) => Err(e),
        None => {
            let year = table.year->0;
            let month = table.month->0;
            let day = table.day->0;
            let hour = table.hour->0;
            let minute = table.minute->0;
            let second = table.second->0;
            if !(1 <= month <= 12) {
                Err(PubDateError::InvalidMonth)
            } else if !is_calendar_date(year as int, month as int, day as int) {
                Err(PubDateError::InvalidDate)
            } else if !is_clock_time(hour as int, minute as int, second as int) {
                Err(PubDateError::InvalidTime)
            } else {
                match table.tz {
                    ScriptValueView::Nil => match table.utc_offset {
                        OffsetField::Minutes(m) => match offset_seconds(m) {
                            Ok(offset) => Ok((offset, false)),
                            Err(e) => Err(e),
                        },
                        _ => Err(PubDateError::NoZone),
                    },
                    tz => offset_in_zone(
                        non_empty_text_of(tz)->Ok_0,
                        year,
                        month,
                        day,
                        hour,
                        minute,
                        second,
                    ),
                }
            }
        },
    }
}

/// The instant at which a clock that is `offset` seconds ahead of UTC shows the
/// date and time of the table, with that offset.
pub open spec fn instant_of(table: PubDateTableView, offset: int) -> Timestamp {
    Timestamp::of_parts(
        civil_unix_seconds(
            table.year->0 as int,
            table.month->0 as int,
            table.day->0 as int,
            table.hour->0 as int,
            table.minute->0 as int,
            table.second->0 as int,
            offset,
        ),
        0,
        offset,
    )
}

/// The publication date that the table writes, or why it writes none.
pub open spec fn read_pub_date(table: PubDateTableView) -> Result<PubDate, PubDateError> {
    match read_offset_of(table) {
        Ok((offset, ambiguous)) => Ok(PubDate { at: instant_of(table, offset), ambiguous }),
        Err(e) => Err(e),
    }
}

/// Reads the offset in minutes of a date.
fn read_offset(minutes: i16) -> (r: Result<i32, PubDateError>)
    ensures
        match offset_seconds(minutes) {
            Ok(offset) => r == Ok::<i32, PubDateError>(offset as i32) && -crate::timestamp::MAX_OFFSET_SECONDS
                <= offset <= crate::timestamp::MAX_OFFSET_SECONDS,
            Err(e) => r == Err::<i32, PubDateError>(e),
        },
{
    if minutes < MIN_COUNTED_OFFSET || minutes > MAX_COUNTED_OFFSET {
        Err(PubDateError::OffsetTooLarge)
    } else if minutes < MIN_OFFSET_MINUTES || minutes > MAX_OFFSET_MINUTES {
        Err(PubDateError::InvalidOffset)
    } else {
        Ok((minutes as i32) * 60)
    }
}

/// Reads the publication date that a table writes.
pub fn pub_date_from_table(table: &PubDateTable) -> (r: Result<PubDate, PubDateError>)
    ensures
        r == read_pub_date(table@),
        r matches Ok(date) ==> date.at.spec_offset() == read_offset_of(table@)->Ok_0.0
            && date.at.spec_nanos() == 0 && date.at.spec_seconds() == civil_unix_seconds(
            table@.year->0 as int,
            table@.month->0 as int,
            table@.day->0 as int,
            table@.hour->0 as int,
            table@.minute->0 as int,
            table@.second->0 as int,
            read_offset_of(table@)->Ok_0.0,
        ),
{
    let year = match table.year {
        Some(v) => v,
        None => {
            return Err(PubDateError::BadPart(DatePart::Year));
        },
    };
    let month = match table.month {
        Some(v) => v,
        None => {
            return Err(PubDateError::BadPart(DatePart::Month));
        },
    };
    let day = match table.day {
        Some(v) => v,
        None => {
            return Err(PubDateError::BadPart(DatePart::Day));
        },
    };
    let hour = match table.hour {
        Some(v) => v,
        None => {
            return Err(PubDateError::BadPart(DatePart::Hour));
        },
    };
    let minute = match table.minute {
        Some(v) => v,
        None => {
            return Err(PubDateError::BadPart(DatePart::Minute));
        },
    };
    let second = match table.second {
        Some(v) => v,
        None => {
            return Err(PubDateError::BadPart(DatePart::Second));
        },
    };
    match table.utc_offset {
        OffsetField::Invalid => {
            return Err(PubDateError::BadPart(DatePart::UtcOffset));
        },
        _ => {},
    }
    let zone: Option<String> = match &table.tz {
        ScriptValue::Nil => None,
        tz => match non_empty_string(tz) {
            Ok(name) => Some(name),
            Err(e) => {
                return Err(PubDateError::BadZoneName(e));
            },
        },
    };
    if month < 1 || month > 12 {
        return Err(PubDateError::InvalidMonth);
    }
    if !calendar_date_exists(year, month, day) {
        return Err(PubDateError::InvalidDate);
    }
    if !clock_time_exists(hour, minute, second) {
        return Err(PubDateError::InvalidTime);
    }
    match zone {
        Some(name) => {
            match offsets_in_zone(name.as_str(), year, month, day, hour, minute, second) {
                ZoneOffsets::Unknown => Err(PubDateError::UnknownTimezone),
                ZoneOffsets::Gap => Err(PubDateError::InvalidInTimezone),
                ZoneOffsets::One(offset) => Ok(
                    PubDate {
                        at: Timestamp::from_civil(year, month, day, hour, minute, second, offset),
                        ambiguous: false,
                    },
                ),
                ZoneOffsets::Two(offset, _) => Ok(
                    PubDate {
                        at: Timestamp::from_civil(year, month, day, hour, minute, second, offset),
                        ambiguous: true,
                    },
                ),
            }
        },
        None => match table.utc_offset {
            OffsetField::Minutes(m) => match read_offset(m) {
                Ok(offset) => Ok(
                    PubDate {
                        at: Timestamp::from_civil(year, month, day, hour, minute, second, offset),
                        ambiguous: false,
                    },
                ),
                Err(e) => Err(e),
            },
            _ => Err(PubDateError::NoZone),
        },
    }
}

/// The publication date of an entry, as a script gives it.
#[derive(Debug)]
pub enum PubDateValue {
    /// The entry has none.
    Nil,
    /// A table that writes it.
    Table(PubDateTable),
    /// Something that is no table.
    Other,
}

/// The table that a script gives for an entry.
#[derive(Debug)]
pub struct EntryTable {
    pub id: ScriptValue,
    pub title: ScriptValue,
    pub description: ScriptValue,
    pub url: ScriptValue,
    pub author: ScriptValue,
    pub pub_date: PubDateValue,
}

/// Why a table is no entry.
#[derive(Debug, Clone, Copy, PartialEq, Eq, Structural)]
pub enum EntryError {
    /// What should be the table of an entry is no table.
    NotATable,
    /// The text of the field cannot be read, or is empty and may not be.
    Text(Field, CoerceError),
    /// The publication date is no table.
    DateNotATable,
    /// The table of the publication date writes no date.
    Date(PubDateError),
    /// The URL cannot be resolved against the URL of the page.
    Url,
}

/// An entry as a script gives it: the URL still as the script wrote it.
#[derive(Debug)]
pub struct LuaEntry {
    pub id: String,
    pub title: String,
    pub description: String,
    pub url: String,
    pub author: Option<String>,
    pub pub_date: Option<Timestamp>,
}

/// What reading an entry from a table gives besides the entry: whether its
/// publication date was one of two that the time zone allows.
#[derive(Debug)]
pub struct ReadEntry {
    pub entry: LuaEntry,
    pub ambiguous_date: bool,
}

/// `PubDateValue` as plain values.
pub enum PubDateValueView {
    Nil,
    Table(PubDateTableView),
    Other,
}

impl View for PubDateValue {
    type V = PubDateValueView;

    open spec fn view(&self) -> PubDateValueView {
        match self {
            PubDateValue::Nil => PubDateValueView::Nil,
            PubDateValue::Table(t) => PubDateValueView::Table(t@),
            PubDateValue::Other => PubDateValueView::Other,
        }
    }
}

/// `EntryTable` as plain values.
pub struct EntryTableView {
    pub id: ScriptValueView,
    pub title: ScriptValueView,
    pub description: ScriptValueView,
    pub url: ScriptValueView,
    pub author: ScriptValueView,
    pub pub_date: PubDateValueView,
}

impl View for EntryTable {
    type V = EntryTableView;

    open spec fn view(&self) -> EntryTableView {
        EntryTableView {
            id: self.id@,
            title: self.title@,
            description: self.description@,
            url: self.url@,
            author: self.author@,
            pub_date: self.pub_date@,
        }
    }
}

/// `LuaEntry` as plain values.
pub struct LuaEntryView {
    pub id: Seq<char>,
    pub title: Seq<char>,
    pub description: Seq<char>,
    pub url: Seq<char>,
    pub author: Option<Seq<char>>,
    pub pub_date: Option<Timestamp>,
}

impl View for LuaEntry {
    type V = LuaEntryView;

    open spec fn view(&self) -> LuaEntryView {
        LuaEntryView {
            id: self.id@,
            title: self.title@,
            description: self.description@,
            url: self.url@,
            author: option_view(self.author),
            pub_date: self.pub_date,
        }
    }
}

/// The first text of the table, in the order id, title, description, url,
/// author, that cannot be read; `None` where all can. Id, title and url may not
/// be empty.
pub open spec fn unreadable_text(table: EntryTableView) -> Option<EntryError> {
    if non_empty_text_of(table.id) is Err {
        Some(EntryError::Text(Field::Id, non_empty_text_of(table.id)->Err_0))
    } else if non_empty_text_of(table.title) is Err {
        Some(EntryError::Text(Field::Title, non_empty_text_of(table.title)->Err_0))
    } else if text_of(table.description) is Err {
        Some(EntryError::Text(Field::Description, text_of(table.description)->Err_0))
    } else if non_empty_text_of(table.url) is Err {
        Some(EntryError::Text(Field::Url, non_empty_text_of(table.url)->Err_0))
    } else if optional_text_of(table.author) is Err {
        Some(EntryError::Text(Field::Author, optional_text_of(table.author)->Err_0))
    } else {
        None
    }
}

/// The author that a value stands for: none where it is missing or empty.
pub open spec fn author_text(author: ScriptValueView) -> Option<Seq<char>> {
    match optional_text_of(author) {
        Ok(Some(s)) => if s.len() == 0 {
            None
        } else {
            Some(s)
        },
        _ => None,
    }
}

/// The publication date of an entry: none where the table has none, else what
/// the table of the date writes. The flag says whether the time zone allows a
/// second date.
pub open spec fn entry_date(value: PubDateValueView) -> Result<(Option<Timestamp>, bool), EntryError> {
    match value {
        PubDateValueView::Nil => Ok((None, false)),
        PubDateValueView::Other => Err(EntryError::DateNotATable),
        PubDateValueView::Table(t) => match read_pub_date(t) {
            Ok(date) => Ok((Some(date.at), date.ambiguous)),
            Err(e) => Err(EntryError::Date(e)),
        },
    }
}

/// The entry that a table writes, and whether its date is one of two, or why the
/// table writes none.
///
/// The texts are read first, in the order id, title, description, url, author,
/// then the publication date; the first that cannot be read is the error.
pub open spec fn read_entry(table: EntryTableView) -> Result<(LuaEntryView, bool), EntryError> {
    match unreadable_text(table) {
        Some(e) => Err(e),
        None => match entry_date(table.pub_date) {
            Err(e) => Err(e),
            Ok((pub_date, ambiguous)) => Ok(
                (
                    LuaEntryView {
                        id: non_empty_text_of(table.id)->Ok_0,
                        title: non_empty_text_of(table.title)->Ok_0,
                        description: text_of(table.description)->Ok_0,
                        url: non_empty_text_of(table.url)->Ok_0,
                        author: author_text(table.author),
                        pub_date,
                    },
                    ambiguous,
                ),
            ),
        },
    }
}

impl LuaEntry {
    /// Reads an entry from the table that a script gives for it.
    pub fn from_table(table: &EntryTable) -> (r: Result<ReadEntry, EntryError>)
        ensures
            match read_entry(table@) {
                Ok((entry, ambiguous)) => r is Ok && r->Ok_0.entry@ == entry
                    && r->Ok_0.ambiguous_date == ambiguous,
                Err(e) => r == Err::<ReadEntry, EntryError>(e),
            },
    {
        let id = match non_empty_string(&table.id) {
            Ok(s) => s,
            Err(e) => {
                return Err(EntryError::Text(Field::Id, e));
            },
        };
        let title = match non_empty_string(&table.title) {
            Ok(s) => s,
            Err(e) => {
                return Err(EntryError::Text(Field::Title, e));
            },
        };
        let description = match stringified(&table.description) {
            Ok(s) => s,
            Err(e) => {
                return Err(EntryError::Text(Field::Description, e));
            },
        };
        let url = match non_empty_string(&table.url) {
            Ok(s) => s,
            Err(e) => {
                return Err(EntryError::Text(Field::Url, e));
            },
        };
        let author = match optional_string(&table.author) {
            Ok(Some(s)) => {
                if s.as_str().is_empty() {
                    None
                } else {
                    Some(s)
                }
            },
            Ok(None) => None,
            Err(e) => {
                return Err(EntryError::Text(Field::Author, e));
            },
        };
        let (pub_date, ambiguous_date) = match &table.pub_date {
            PubDateValue::Nil => (None, false),
            PubDateValue::Other => {
                return Err(EntryError::DateNotATable);
            },
            PubDateValue::Table(date) => match pub_date_from_table(date) {
                Ok(read) => (Some(read.at), read.ambiguous),
                Err(e) => {
                    return Err(EntryError::Date(e));
                },
            },
        };
        Ok(
            ReadEntry {
                entry: LuaEntry { id, title, description, url, author, pub_date },
                ambiguous_date,
            },
        )
    }
}

} // verus!
