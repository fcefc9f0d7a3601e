use feedgen::extractor::lua::api::{
    args_to_string, get_caller_info, next_node, print_level, Argument, CallSite, LogLevel,
    NodeKind, WarningEmitter,
};
use feedgen::extractor::lua::types::{
    non_empty_string, optional_string, pub_date_from_table, stringified, Called, CoerceError,
    DatePart, EntryError, EntryTable, LuaEntry, OffsetField, PubDateError, PubDateTable,
    PubDateValue, ScriptValue,
};
use feedgen::config::LuaExtractorConfig;
use feedgen::extractor::lua::{entry_from_lua, extract, EntryValue, LuaExtractor, ScriptRejection};
use feedgen::extractor::{Context, Field};
use feedgen::url::Url;

fn text(s: &str) -> ScriptValue {
    ScriptValue::Text(s.to_string())
}

fn date(year: i32, month: u8, day: u8, hour: u8, minute: u8, second: u8) -> PubDateTable {
    PubDateTable {
        year: Some(year),
        month: Some(month),
        day: Some(day),
        hour: Some(hour),
        minute: Some(minute),
        second: Some(second),
        utc_offset: OffsetField::Absent,
        tz: ScriptValue::Nil,
    }
}

fn table(id: &str, url: &str) -> EntryTable {
    EntryTable {
        id: text(id),
        title: text("Title"),
        description: text(""),
        url: text(url),
        author: ScriptValue::Nil,
        pub_date: PubDateValue::Nil,
    }
}

#[test]
fn text_is_read_from_strings_numbers_and_objects() {
    assert_eq!(stringified(&text("abc")), Ok("abc".to_string()));
    assert_eq!(stringified(&text("")), Ok(String::new()));
    assert_eq!(stringified(&text("12.5")), Ok("12.5".to_string()));
    let object = ScriptValue::Object(Some(Called::Text("shown".to_string())));
    assert_eq!(stringified(&object), Ok("shown".to_string()));
    assert_eq!(
        stringified(&ScriptValue::Object(Some(Called::NotAString))),
        Err(CoerceError::ToStringNotAString)
    );
    assert_eq!(stringified(&ScriptValue::Object(Some(Called::Failed))), Err(CoerceError::ToStringFailed));
    assert_eq!(stringified(&ScriptValue::Object(None)), Err(CoerceError::WrongType));
    assert_eq!(stringified(&ScriptValue::Other), Err(CoerceError::WrongType));
    assert_eq!(stringified(&ScriptValue::Nil), Err(CoerceError::WrongType));
    assert_eq!(stringified(&ScriptValue::Unreadable), Err(CoerceError::Unreadable));
}

#[test]
fn text_that_may_not_be_empty_is_checked() {
    assert_eq!(non_empty_string(&text("a")), Ok("a".to_string()));
    assert_eq!(non_empty_string(&text("")), Err(CoerceError::Empty));
    assert_eq!(non_empty_string(&ScriptValue::Nil), Err(CoerceError::WrongType));
    assert_eq!(optional_string(&ScriptValue::Nil), Ok(None));
    assert_eq!(optional_string(&text("")), Ok(Some(String::new())));
    assert_eq!(optional_string(&ScriptValue::Other), Err(CoerceError::WrongType));
}

#[test]
fn script_extractor_with_tz_ambiguous_pub_date() {
    let mut table = date(2023, 10, 29, 2, 30, 0);
    table.tz = text("Europe/Berlin");
    let read = pub_date_from_table(&table).unwrap();
    assert!(read.ambiguous);
    assert_eq!(read.at.offset(), 7200);
    assert_eq!(read.at.seconds(), 1_698_539_400);
    assert_eq!(read.at.nanos(), 0);
}

#[test]
fn a_time_zone_decides_the_offset() {
    let mut table = date(2023, 7, 1, 12, 0, 0);
    table.tz = text("Europe/Berlin");
    table.utc_offset = OffsetField::Minutes(0);
    let read = pub_date_from_table(&table).unwrap();
    assert!(!read.ambiguous);
    assert_eq!((read.at.seconds(), read.at.offset()), (1_688_205_600, 7200));
    table = date(2023, 1, 1, 12, 0, 0);
    table.tz = text("America/New_York");
    let read = pub_date_from_table(&table).unwrap();
    assert_eq!((read.at.seconds(), read.at.offset()), (1_672_592_400, -18_000));
}

#[test]
fn a_time_that_the_zone_skips_is_an_error() {
    let mut table = date(2023, 3, 26, 2, 30, 0);
    table.tz = text("Europe/Berlin");
    assert_eq!(pub_date_from_table(&table), Err(PubDateError::InvalidInTimezone));
    table.tz = text("Mars/Olympus_Mons");
    assert_eq!(pub_date_from_table(&table), Err(PubDateError::UnknownTimezone));
    table.tz = text("");
    assert_eq!(pub_date_from_table(&table), Err(PubDateError::BadZoneName(CoerceError::Empty)));
    table.tz = ScriptValue::Other;
    assert_eq!(pub_date_from_table(&table), Err(PubDateError::BadZoneName(CoerceError::WrongType)));
}

#[test]
fn an_offset_is_counted_in_minutes() {
    let mut table = date(2024, 1, 1, 0, 0, 0);
    table.utc_offset = OffsetField::Minutes(-90);
    let read = pub_date_from_table(&table).unwrap();
    assert_eq!((read.at.seconds(), read.at.offset(), read.ambiguous), (1_704_072_600, -5400, false));
    table.utc_offset = OffsetField::Minutes(330);
    let read = pub_date_from_table(&table).unwrap();
    assert_eq!((read.at.seconds(), read.at.offset()), (1_704_047_400, 19_800));
    table.utc_offset = OffsetField::Minutes(0);
    assert_eq!(pub_date_from_table(&table).unwrap().at.seconds(), 1_704_067_200);
    table.utc_offset = OffsetField::Minutes(1559);
    assert_eq!(pub_date_from_table(&table).unwrap().at.offset(), 93_540);
    table.utc_offset = OffsetField::Minutes(-1500);
    assert_eq!(pub_date_from_table(&table).unwrap().at.offset(), -90_000);
    table.utc_offset = OffsetField::Minutes(-1559);
    assert_eq!(pub_date_from_table(&table).unwrap().at.offset(), -93_540);
}

#[test]
fn an_offset_must_be_one_that_a_date_can_have() {
    let mut table = date(2024, 1, 1, 0, 0, 0);
    table.utc_offset = OffsetField::Minutes(1560);
    assert_eq!(pub_date_from_table(&table), Err(PubDateError::InvalidOffset));
    table.utc_offset = OffsetField::Minutes(-1560);
    assert_eq!(pub_date_from_table(&table), Err(PubDateError::InvalidOffset));
    table.utc_offset = OffsetField::Minutes(7679);
    assert_eq!(pub_date_from_table(&table), Err(PubDateError::InvalidOffset));
    table.utc_offset = OffsetField::Minutes(7680);
    assert_eq!(pub_date_from_table(&table), Err(PubDateError::OffsetTooLarge));
    table.utc_offset = OffsetField::Minutes(-7681);
    assert_eq!(pub_date_from_table(&table), Err(PubDateError::OffsetTooLarge));
    table.utc_offset = OffsetField::Invalid;
    assert_eq!(pub_date_from_table(&table), Err(PubDateError::BadPart(DatePart::UtcOffset)));
    table.utc_offset = OffsetField::Absent;
    assert_eq!(pub_date_from_table(&table), Err(PubDateError::NoZone));
}

#[test]
fn the_date_and_the_time_must_exist() {
    let with_offset = |mut t: PubDateTable| {
        t.utc_offset = OffsetField::Minutes(0);
        t
    };
    assert_eq!(pub_date_from_table(&with_offset(date(2024, 0, 1, 0, 0, 0))), Err(PubDateError::InvalidMonth));
    assert_eq!(pub_date_from_table(&with_offset(date(2024, 13, 1, 0, 0, 0))), Err(PubDateError::InvalidMonth));
    assert_eq!(pub_date_from_table(&with_offset(date(2023, 2, 29, 0, 0, 0))), Err(PubDateError::InvalidDate));
    assert!(pub_date_from_table(&with_offset(date(2024, 2, 29, 0, 0, 0))).is_ok());
    assert_eq!(pub_date_from_table(&with_offset(date(1900, 2, 29, 0, 0, 0))), Err(PubDateError::InvalidDate));
    assert!(pub_date_from_table(&with_offset(date(2000, 2, 29, 0, 0, 0))).is_ok());
    assert_eq!(pub_date_from_table(&with_offset(date(2024, 4, 31, 0, 0, 0))), Err(PubDateError::InvalidDate));
    assert_eq!(pub_date_from_table(&with_offset(date(2024, 1, 0, 0, 0, 0))), Err(PubDateError::InvalidDate));
    assert_eq!(pub_date_from_table(&with_offset(date(10_000, 1, 1, 0, 0, 0))), Err(PubDateError::InvalidDate));
    assert!(pub_date_from_table(&with_offset(date(-9999, 1, 1, 0, 0, 0))).is_ok());
    assert_eq!(pub_date_from_table(&with_offset(date(2024, 1, 1, 24, 0, 0))), Err(PubDateError::InvalidTime));
    assert_eq!(pub_date_from_table(&with_offset(date(2024, 1, 1, 0, 60, 0))), Err(PubDateError::InvalidTime));
    assert_eq!(pub_date_from_table(&with_offset(date(2024, 1, 1, 0, 0, 60))), Err(PubDateError::InvalidTime));
    assert!(pub_date_from_table(&with_offset(date(2024, 12, 31, 23, 59, 59))).is_ok());
}

#[test]
fn the_first_part_that_cannot_be_read_is_reported() {
    let mut table = date(2024, 1, 1, 0, 0, 0);
    table.second = None;
    assert_eq!(pub_date_from_table(&table), Err(PubDateError::BadPart(DatePart::Second)));
    table.minute = None;
    assert_eq!(pub_date_from_table(&table), Err(PubDateError::BadPart(DatePart::Minute)));
    table.hour = None;
    assert_eq!(pub_date_from_table(&table), Err(PubDateError::BadPart(DatePart::Hour)));
    table.day = None;
    assert_eq!(pub_date_from_table(&table), Err(PubDateError::BadPart(DatePart::Day)));
    table.month = None;
    assert_eq!(pub_date_from_table(&table), Err(PubDateError::BadPart(DatePart::Month)));
    table.year = None;
    assert_eq!(pub_date_from_table(&table), Err(PubDateError::BadPart(DatePart::Year)));
}

#[test]
fn an_entry_is_read_from_its_table() {
    let mut t = table("e1", "/posts/1");
    t.description = text("About");
    t.author = text("Ann");
    let mut d = date(2024, 1, 1, 0, 0, 0);
    d.utc_offset = OffsetField::Minutes(60);
    t.pub_date = PubDateValue::Table(d);
    let read = LuaEntry::from_table(&t).unwrap();
    assert!(!read.ambiguous_date);
    assert_eq!(read.entry.id, "e1");
    assert_eq!(read.entry.title, "Title");
    assert_eq!(read.entry.description, "About");
    assert_eq!(read.entry.url, "/posts/1");
    assert_eq!(read.entry.author.as_deref(), Some("Ann"));
    assert_eq!(read.entry.pub_date.unwrap().seconds(), 1_704_063_600);
}

#[test]
fn an_empty_author_is_no_author() {
    let mut t = table("e1", "/posts/1");
    t.author = text("");
    assert_eq!(LuaEntry::from_table(&t).unwrap().entry.author, None);
    t.author = ScriptValue::Other;
    assert_eq!(
        LuaEntry::from_table(&t).unwrap_err(),
        EntryError::Text(Field::Author, CoerceError::WrongType)
    );
}

#[test]
fn the_first_field_that_cannot_be_read_is_reported() {
    let mut t = table("e1", "");
    assert_eq!(LuaEntry::from_table(&t).unwrap_err(), EntryError::Text(Field::Url, CoerceError::Empty));
    t.description = ScriptValue::Nil;
    assert_eq!(
        LuaEntry::from_table(&t).unwrap_err(),
        EntryError::Text(Field::Description, CoerceError::WrongType)
    );
    t.title = text("");
    assert_eq!(LuaEntry::from_table(&t).unwrap_err(), EntryError::Text(Field::Title, CoerceError::Empty));
    t.id = ScriptValue::Unreadable;
    assert_eq!(LuaEntry::from_table(&t).unwrap_err(), EntryError::Text(Field::Id, CoerceError::Unreadable));
    let mut t = table("e1", "/x");
    t.pub_date = PubDateValue::Other;
    assert_eq!(LuaEntry::from_table(&t).unwrap_err(), EntryError::DateNotATable);
    t.pub_date = PubDateValue::Table(date(2024, 1, 1, 0, 0, 0));
    assert_eq!(LuaEntry::from_table(&t).unwrap_err(), EntryError::Date(PubDateError::NoZone));
}

#[test]
fn urls_of_a_script_are_resolved_against_the_page() {
    let fetch_url = Url::parse("https://ex.test/blog/index.html").unwrap();
    let ctx = Context::new(&fetch_url);
    for (written, expected) in [
        ("post.html", "https://ex.test/blog/post.html"),
        ("/about", "https://ex.test/about"),
        ("../up", "https://ex.test/up"),
        ("?page=2", "https://ex.test/blog/index.html?page=2"),
        ("https://other.test/x", "https://other.test/x"),
    ] {
        let entry = LuaEntry::from_table(&table("e", written)).unwrap().entry;
        let made = entry_from_lua(&ctx, entry).unwrap();
        assert_eq!(made.url.as_str(), expected);
        assert_eq!(made.url.as_str(), fetch_url.join(written).unwrap().as_str());
    }
    let entry = LuaEntry::from_table(&table("e", "https://")).unwrap().entry;
    assert!(entry_from_lua(&ctx, entry).is_none());
}

#[test]
fn a_bad_item_is_dropped_and_the_others_stay() {
    let fetch_url = Url::parse("https://ex.test/page").unwrap();
    let ctx = Context::new(&fetch_url);
    let mut ambiguous = table("e4", "/4");
    let mut d = date(2023, 10, 29, 2, 30, 0);
    d.tz = text("Europe/Berlin");
    ambiguous.pub_date = PubDateValue::Table(d);
    let values = vec![
        EntryValue::Table(table("e1", "/1")),
        EntryValue::Other,
        EntryValue::Table(table("", "/3")),
        EntryValue::Table(ambiguous),
        EntryValue::Table(table("e5", "https://")),
    ];
    let extraction = extract(&ctx, &values);
    let ids: Vec<&str> = extraction.entries.iter().map(|e| e.id.as_str()).collect();
    assert_eq!(ids, vec!["e1", "e4"]);
    assert_eq!(extraction.entries[0].url.as_str(), "https://ex.test/1");
    assert_eq!(extraction.entries[1].pub_date.unwrap().offset(), 7200);
    assert_eq!(
        extraction.rejected,
        vec![
            ScriptRejection { index: 2, cause: EntryError::NotATable },
            ScriptRejection { index: 3, cause: EntryError::Text(Field::Id, CoerceError::Empty) },
            ScriptRejection { index: 5, cause: EntryError::Url },
        ]
    );
    assert_eq!(extraction.ambiguous_dates, vec![4]);
}

#[test]
fn log_arguments_are_joined_by_the_separator() {
    let values = vec![
        Argument::Text("a".to_string()),
        Argument::Text("".to_string()),
        Argument::Failed("no __tostring".to_string()),
        Argument::Text("12".to_string()),
    ];
    assert_eq!(args_to_string(&values, " "), "a  <conversion of arg #3 failed: no __tostring> 12");
    assert_eq!(args_to_string(&vec![], " "), "");
    assert_eq!(args_to_string(&vec![Argument::Text("x".to_string())], ", "), "x");
    let many: Vec<Argument> = (0..12).map(|_| Argument::Failed("e".to_string())).collect();
    assert!(args_to_string(&many, "").ends_with("<conversion of arg #12 failed: e>"));
}

#[test]
fn the_caller_is_named_by_source_and_line() {
    let site = |src: Option<&str>, line: i64| Some(CallSite { short_src: src.map(String::from), line });
    assert_eq!(get_caller_info(&None), "<unknown>");
    assert_eq!(get_caller_info(&site(Some("feed.lua"), 12)), "feed.lua:12");
    assert_eq!(get_caller_info(&site(Some("feed.lua"), 0)), "feed.lua");
    assert_eq!(get_caller_info(&site(Some("feed.lua"), -1)), "feed.lua");
    assert_eq!(get_caller_info(&site(None, 7)), "<unknown>:7");
    assert_eq!(get_caller_info(&site(Some("x"), 1_000_000)), "x:1000000");
    assert_eq!(get_caller_info(&site(Some("x"), i64::MAX)), "x:9223372036854775807");
}

#[test]
fn warnings_are_marked_as_continued() {
    let mut emitter = WarningEmitter::new();
    assert_eq!(emitter.emit("first ", true), "Lua warning: first ");
    assert_eq!(emitter.emit("second ", true), "Lua warning (cont.): second ");
    assert_eq!(emitter.emit("last", false), "Lua warning (cont.): last");
    assert_eq!(emitter.emit("next", false), "Lua warning: next");
}

#[test]
fn log_levels_and_node_kinds_have_their_names() {
    let levels = [LogLevel::Trace, LogLevel::Debug, LogLevel::Info, LogLevel::Warn, LogLevel::Error];
    let names: Vec<&str> = levels.iter().map(|l| l.name()).collect();
    assert_eq!(names, vec!["trace", "debug", "info", "warn", "error"]);
    assert_eq!(print_level(), LogLevel::Info);
    let kinds = [
        NodeKind::Document,
        NodeKind::Fragment,
        NodeKind::Doctype,
        NodeKind::Comment,
        NodeKind::Text,
        NodeKind::Element,
        NodeKind::ProcessingInstruction,
    ];
    let names: Vec<&str> = kinds.iter().map(|k| k.kind_name()).collect();
    assert_eq!(
        names,
        vec!["document", "fragment", "doctype", "comment", "text", "element", "processing instruction"]
    );
}

#[test]
fn an_iterator_over_elements_skips_other_nodes() {
    let kinds = vec![NodeKind::Text, NodeKind::Element, NodeKind::Comment, NodeKind::Element, NodeKind::Text];
    assert_eq!(next_node(&kinds, 0, true), Some(1));
    assert_eq!(next_node(&kinds, 2, true), Some(3));
    assert_eq!(next_node(&kinds, 4, true), None);
    assert_eq!(next_node(&kinds, 0, false), Some(0));
    assert_eq!(next_node(&kinds, 4, false), Some(4));
    assert_eq!(next_node(&kinds, 5, false), None);
    assert_eq!(next_node(&kinds, 9, true), None);
}

#[test]
fn a_script_extractor_reads_what_its_script_hands_back() {
    let extractor = LuaExtractor::from_cfg(&LuaExtractorConfig { path: "feeds/news.lua".to_string() });
    assert_eq!(extractor.script_path(), "feeds/news.lua");
    let fetch_url = Url::parse("https://ex.test/page").unwrap();
    let ctx = Context::new(&fetch_url);
    let values = vec![EntryValue::Table(table("e1", "/1")), EntryValue::Other];
    let extraction = extractor.extract(&ctx, &values);
    assert_eq!(extraction.entries.len(), 1);
    assert_eq!(extraction.entries[0].url.as_str(), "https://ex.test/1");
    assert_eq!(extraction.rejected, vec![ScriptRejection { index: 2, cause: EntryError::NotATable }]);
    assert_eq!(format!("{:?}", extractor.extract(&ctx, &values)), format!("{:?}", extraction));
}
