//! The index of feeds, the channel of one feed, and forced updates.

use vstd::prelude::*;
use vstd::string::*;

use crate::extractor::{clone_option, option_view, Entry, EntryView};
use crate::names::NameMap;
use crate::server::responses::FeedCannotBeUpdated;
use crate::state::Feed;
use crate::storage::entities::FeedInfo;
use crate::order::{instants, is_newest_first, newest_first, newest_first_order};
use crate::timestamp::{datetime_text, format_by, format_rfc2822, rfc2822_text, Timestamp};

verus! {

/// The most entries that the channel of a feed holds.
pub const MAX_FEED_ENTRY_COUNT: usize = 100;

/// How the index shows the time of the last update.
pub const INDEX_DATE_FORMAT: &'static str =
    "[year]-[month]-[day] [hour]:[minute]:[second].[subsecond digits:3] [offset_hour sign:mandatory]:[offset_minute]";

/// What the index shows for a feed that was never updated.
pub const NEVER: &'static str = "never";

/// What the local address of a feed starts with.
pub const FEED_PATH_PREFIX: &'static str = "/feeds/";

/// What the identifier of an item starts with.
pub const GUID_PREFIX: &'static str = "feedgen/";

/// What the generator of a channel starts with.
pub const GENERATOR_PREFIX: &'static str = "Feedgen ";

/// Whether a byte is written as it is in a percent-encoded text: letters,
/// digits, `-`, `.`, `_` and `~`.
pub open spec fn is_unreserved(b: u8) -> bool {
    ||| 48 <= b <= 57
    ||| 65 <= b <= 90
    ||| 97 <= b <= 122
    ||| b == 45
    ||| b == 46
    ||| b == 95
    ||| b == 126
}

/// The upper-case hexadecimal digit for a number below sixteen.
pub open spec fn hex_digit(d: u8) -> u8 {
    if d <= 9 {
        (48 + d) as u8
    } else {
        (55 + d) as u8
    }
}

/// A byte as it stands in a percent-encoded text.
pub open spec fn encode_byte(b: u8) -> Seq<u8> {
    if is_unreserved(b) {
        seq![b]
    } else {
        seq![37u8, hex_digit(b / 16), hex_digit(b % 16)]
    }
}

/// The percent-encoding of a run of bytes.
pub open spec fn percent_encoded(bytes: Seq<u8>) -> Seq<u8>
    decreases bytes.len(),
{
    if bytes.len() == 0 {
        Seq::empty()
    } else {
        percent_encoded(bytes.drop_last()) + encode_byte(bytes.last())
    }
}

/// The characters that are written as they are, and among them the digits
/// of the sixteen: the place of each is that of its byte in `plain_place`.
pub const PLAIN: &'static str = "0123456789ABCDEFGHIJKLMNOPQRSTUVWXYZabcdefghijklmnopqrstuvwxyz-._~";

/// The place in `PLAIN` of a byte that is written as it is.
pub open spec fn plain_place(b: u8) -> int {
    if 48 <= b <= 57 {
        b - 48
    } else if 65 <= b <= 90 {
        b - 55
    } else if 97 <= b <= 122 {
        b - 61
    } else if b == 45 {
        62
    } else if b == 46 {
        63
    } else if b == 95 {
        64
    } else {
        65
    }
}

/// `PLAIN` holds 66 characters of ASCII: at the place of each byte that is
/// written as it is stands the character of that byte, and at each place below
/// sixteen its digit.
proof fn lemma_plain()
    ensures
        PLAIN@.len() == 66,
        vstd::utf8::is_ascii_chars(PLAIN@),
        forall|b: u8| is_unreserved(b) ==> PLAIN@[#[trigger] plain_place(b)] as u8 == b,
        forall|d: u8| d < 16 ==> PLAIN@[d as int] as u8 == #[trigger] hex_digit(d),
{
    reveal_strlit("0123456789ABCDEFGHIJKLMNOPQRSTUVWXYZabcdefghijklmnopqrstuvwxyz-._~");
    let table = PLAIN@;
    assert(table.len() == 66);
    assert forall|k: int| 0 <= k < 66 implies '\0' <= #[trigger] table[k] <= '\u{7f}' && table[k] as u8 == (
    if k < 10 {
        48 + k
    } else if k < 36 {
        55 + k
    } else if k < 62 {
        61 + k
    } else if k == 62 {
        45
    } else if k == 63 {
        46
    } else if k == 64 {
        95
    } else {
        126
    }) by {
    }
    assert forall|b: u8| is_unreserved(b) implies PLAIN@[#[trigger] plain_place(b)] as u8 == b by {
        let k = plain_place(b);
        assert(0 <= k < 66);
        assert('\0' <= table[k] <= '\u{7f}');
    }
    assert forall|d: u8| d < 16 implies PLAIN@[d as int] as u8 == #[trigger] hex_digit(d) by {
        assert('\0' <= table[d as int] <= '\u{7f}');
    }
}

/// The encoding of one character of ASCII is its byte.
proof fn lemma_ascii_byte(piece: Seq<char>)
    requires
        piece.len() == 1,
        '\0' <= piece[0] <= '\u{7f}',
    ensures
        vstd::utf8::encode_utf8(piece) == seq![piece[0] as u8],
{
    vstd::utf8::is_ascii_chars_encode_utf8(piece);
    assert(vstd::utf8::encode_utf8(piece) =~= seq![piece[0] as u8]);
}

/// Whether a byte is written as it is in a percent-encoded text.
fn unreserved(b: u8) -> (r: bool)
    ensures
        r == is_unreserved(b),
{
    (48 <= b && b <= 57) || (65 <= b && b <= 90) || (97 <= b && b <= 122) || b == 45 || b == 46
        || b == 95 || b == 126
}

/// The character of `PLAIN` at a place, as text.
fn plain_at(place: usize) -> (r: &'static str)
    requires
        place < 66,
    ensures
        r@.len() == 1,
        r@[0] == PLAIN@[place as int],
        '\0' <= r@[0] <= '\u{7f}',
{
    proof {
        lemma_plain();
    }
    let piece = PLAIN.substring_ascii(place, place + 1);
    proof {
        assert(piece@ =~= seq![PLAIN@[place as int]]);
    }
    piece
}

/// The text with every byte percent-encoded but letters, digits, `-`, `.`,
/// `_` and `~`, with upper-case digits of the sixteen.
pub fn percent_encode(text: &str) -> (r: String)
    ensures
        vstd::utf8::encode_utf8(r@) == percent_encoded(vstd::utf8::encode_utf8(text@)),
{
    let bytes = text.as_bytes();
    let mut out = String::new();
    let mut i: usize = 0;
    proof {
        lemma_plain();
        reveal_strlit("%");
        assert(bytes@.take(0) =~= Seq::<u8>::empty());
        assert(vstd::utf8::encode_utf8(out@) =~= Seq::<u8>::empty());
    }
    while i < bytes.len()
        invariant
            i <= bytes@.len(),
            bytes@ == vstd::utf8::encode_utf8(text@),
            vstd::utf8::encode_utf8(out@) == percent_encoded(bytes@.take(i as int)),
        decreases bytes@.len() - i,
    {
        let b = bytes[i];
        let ghost before = out@;
        proof {
            lemma_plain();
            assert(bytes@.take(i as int + 1).drop_last() =~= bytes@.take(i as int));
            assert(bytes@.take(i as int + 1).last() == b);
        }
        if unreserved(b) {
            let place: usize = if b <= 57 && b >= 48 {
                (b - 48) as usize
            } else if 65 <= b && b <= 90 {
                (b - 55) as usize
            } else if 97 <= b && b <= 122 {
                (b - 61) as usize
            } else if b == 45 {
                62
            } else if b == 46 {
                63
            } else if b == 95 {
                64
            } else {
                65
            };
            let piece = plain_at(place);
            out.append(piece);
            proof {
                assert(place == plain_place(b));
                lemma_ascii_byte(piece@);
                lemma_bytes_of_concat(before, piece@);
            }
        } else {
            let high = plain_at((b / 16) as usize);
            let low = plain_at((b % 16) as usize);
            out.append("%");
            out.append(high);
            out.append(low);
            proof {
                reveal_strlit("%");
                lemma_ascii_byte("%"@);
                lemma_ascii_byte(high@);
                lemma_ascii_byte(low@);
                lemma_bytes_of_concat(before, "%"@);
                lemma_bytes_of_concat(before + "%"@, high@);
                lemma_bytes_of_concat(before + "%"@ + high@, low@);
                assert(vstd::utf8::encode_utf8(out@) =~= vstd::utf8::encode_utf8(before) + encode_byte(
                    b,
                ));
            }
        }
        i = i + 1;
    }
    proof {
        assert(bytes@.take(bytes@.len() as int) =~= bytes@);
    }
    out
}

/// One line of the index.
#[derive(Debug)]
pub struct FeedDescription {
    pub name: String,
    pub last_updated: String,
    pub entry_count: usize,
    pub rss_url: String,
    pub fetch_url: String,
}

/// The record that the store holds under `name`: the last of that name.
pub open spec fn stored_info(stored: Seq<FeedInfo>, name: Seq<char>) -> Option<FeedInfo>
    decreases stored.len(),
{
    if stored.len() == 0 {
        None
    } else if stored.last().name@ == name {
        Some(stored.last())
    } else {
        stored_info(stored.drop_last(), name)
    }
}

/// Whether `line` is the line of the index for the feed `name`: its last update
/// as the store knows it, written in the index format, or `never`; the number of
/// its entries, zero where the store does not know the feed; its local address,
/// the name percent-encoded after `/feeds/`; and the page it is made from.
pub open spec fn describes(
    line: FeedDescription,
    name: Seq<char>,
    feed: Feed,
    stored: Seq<FeedInfo>,
) -> bool {
    &&& line.name@ == name
    &&& line.fetch_url@ == feed.request_url@
    &&& vstd::utf8::encode_utf8(line.rss_url@) == vstd::utf8::encode_utf8(FEED_PATH_PREFIX@)
        + percent_encoded(vstd::utf8::encode_utf8(name))
    &&& match stored_info(stored, name) {
        Some(info) => line.entry_count == info.entry_count && datetime_text(
            info.last_updated,
            INDEX_DATE_FORMAT@,
        ) == Some(line.last_updated@),
        None => line.entry_count == 0 && line.last_updated@ == NEVER@,
    }
}

/// Whether the last update of the feed `name`, as the store knows it, can be
/// written in the index format.
pub open spec fn describable(name: Seq<char>, stored: Seq<FeedInfo>) -> bool {
    match stored_info(stored, name) {
        Some(info) => datetime_text(info.last_updated, INDEX_DATE_FORMAT@) is Some,
        None => true,
    }
}

/// The index could not be made: the place, in the order of names, of the first
/// feed whose last update cannot be written.
#[derive(Debug, Clone, Copy, PartialEq, Eq, Structural)]
pub struct IndexError {
    pub feed: usize,
}

/// Finds the record that the store holds under `name`.
fn find_info<'a>(stored: &'a Vec<FeedInfo>, name: &str) -> (r: Option<&'a FeedInfo>)
    ensures
        match stored_info(stored@, name@) {
            Some(info) => r == Some(&info),
            None => r is None,
        },
{
    let mut i: usize = stored.len();
    proof {
        assert(stored@.take(stored@.len() as int) =~= stored@);
    }
    while i > 0
        invariant
            i <= stored@.len(),
            stored_info(stored@, name@) == stored_info(stored@.take(i as int), name@),
        decreases i,
    {
        proof {
            assert(stored@.take(i as int).drop_last() =~= stored@.take(i as int - 1));
        }
        if crate::names::same_name(stored[i - 1].name.as_str(), name) {
            return Some(&stored[i - 1]);
        }
        i = i - 1;
    }
    None
}

/// The lines of the index: one for each configured feed, in the order of their
/// names. Fails where the last update of a feed cannot be written, and then
/// names the first such feed.
pub fn index(feeds: &NameMap<Feed>, stored: &Vec<FeedInfo>) -> (r: Result<
    Vec<FeedDescription>,
    IndexError,
>)
    ensures
        match r {
            Ok(lines) => {
                &&& lines@.len() == feeds.names().len()
                &&& forall|i: int|
                    0 <= i < lines@.len() ==> describes(
                        #[trigger] lines@[i],
                        feeds.names()[i],
                        feeds.values()[i],
                        stored@,
                    )
                &&& crate::names::ascending(feeds.names())
            },
            Err(e) => {
                &&& e.feed < feeds.names().len()
                &&& !describable(feeds.names()[e.feed as int], stored@)
                &&& forall|i: int| 0 <= i < e.feed ==> describable(#[trigger] feeds.names()[i], stored@)
            },
        },
{
    let n = feeds.len();
    let mut lines: Vec<FeedDescription> = Vec::new();
    let mut i: usize = 0;
    while i < n
        invariant
            i <= n,
            n == feeds.names().len(),
            n == feeds.values().len(),
            lines@.len() == i,
            forall|k: int|
                0 <= k < i ==> describes(
                    #[trigger] lines@[k],
                    feeds.names()[k],
                    feeds.values()[k],
                    stored@,
                ),
            forall|k: int| 0 <= k < i ==> describable(#[trigger] feeds.names()[k], stored@),
        decreases n - i,
    {
        let name = feeds.name_at(i);
        let feed = feeds.value_at(i);
        let (last_updated, entry_count) = match find_info(stored, name) {
            Some(info) => match format_by(&info.last_updated, INDEX_DATE_FORMAT) {
                Some(text) => (text, info.entry_count),
                None => {
                    return Err(IndexError { feed: i });
                },
            },
            None => (String::from_str(NEVER), 0),
        };
        let mut rss_url = String::from_str(FEED_PATH_PREFIX);
        let encoded = percent_encode(name);
        rss_url.append(encoded.as_str());
        proof {
            lemma_bytes_of_concat(FEED_PATH_PREFIX@, encoded@);
        }
        lines.push(
            FeedDescription {
                name: String::from_str(name),
                last_updated,
                entry_count,
                rss_url,
                fetch_url: String::from_str(feed.request_url.as_str()),
            },
        );
        i = i + 1;
    }
    Ok(lines)
}

/// The bytes of two texts joined are the bytes of the one followed by the
/// bytes of the other.
pub proof fn lemma_bytes_of_concat(a: Seq<char>, b: Seq<char>)
    ensures
        vstd::utf8::encode_utf8(a + b) == vstd::utf8::encode_utf8(a) + vstd::utf8::encode_utf8(b),
    decreases a.len(),
{
    reveal_with_fuel(vstd::utf8::encode_utf8, 2);
    if a.len() == 0 {
        assert(a + b =~= b);
        assert(vstd::utf8::encode_utf8(a) =~= Seq::<u8>::empty());
        assert(vstd::utf8::encode_utf8(a) + vstd::utf8::encode_utf8(b) =~= vstd::utf8::encode_utf8(
            b,
        ));
    } else {
        lemma_bytes_of_concat(a.drop_first(), b);
        assert((a + b).drop_first() =~= a.drop_first() + b);
        assert((a + b)[0] == a[0]);
        assert(vstd::utf8::encode_utf8(a + b) =~= vstd::utf8::encode_utf8(a)
            + vstd::utf8::encode_utf8(b));
    }
}

/// Whether every entry has a publication date.
pub open spec fn all_dated(entries: Seq<Entry>) -> bool {
    forall|i: int| 0 <= i < entries.len() ==> (#[trigger] entries[i]).pub_date is Some
}

/// The instants at which the entries were published.
pub open spec fn published_at(entries: Seq<Entry>) -> Seq<int> {
    entries.map_values(|e: Entry| e.pub_date->0.instant())
}

/// The publication dates of the entries.
fn publication_dates(entries: &Vec<Entry>) -> (r: Vec<Timestamp>)
    requires
        all_dated(entries@),
    ensures
        instants(r@) == published_at(entries@),
{
    let mut dates: Vec<Timestamp> = Vec::new();
    let mut i: usize = 0;
    while i < entries.len()
        invariant
            i <= entries@.len(),
            all_dated(entries@),
            dates@.len() == i,
            forall|k: int| 0 <= k < i ==> dates@[k] == (#[trigger] entries@[k]).pub_date->0,
        decreases entries@.len() - i,
    {
        dates.push(entries[i].pub_date.unwrap());
        i = i + 1;
    }
    proof {
        assert(instants(dates@) =~= published_at(entries@));
    }
    dates
}

/// One item of a channel.
#[derive(Debug)]
pub struct FeedItem {
    pub title: String,
    pub link: String,
    pub description: String,
    pub author: Option<String>,
    /// Identifies the item; it is no address.
    pub guid: String,
    /// The publication date as RFC 2822 writes it, where it can be written.
    pub pub_date: Option<String>,
}

/// The channel of one feed.
#[derive(Debug)]
pub struct FeedChannel {
    pub title: String,
    pub link: String,
    /// The time the channel was made as RFC 2822 writes it, where it can be written.
    pub last_build_date: Option<String>,
    pub generator: String,
    pub items: Vec<FeedItem>,
}

/// Whether `item` is the item that the feed `name` has for `entry`.
pub open spec fn item_of(item: FeedItem, name: Seq<char>, entry: EntryView) -> bool {
    &&& item.title@ == entry.title
    &&& item.link@ == entry.url
    &&& item.description@ == entry.description
    &&& option_view(item.author) == entry.author
    &&& item.guid@ == GUID_PREFIX@ + name + "/"@ + entry.id
    &&& option_view(item.pub_date) == rfc2822_text(entry.pub_date->0)
}

/// The item that the feed `name` has for `entry`.
fn make_item(name: &str, entry: &Entry) -> (r: FeedItem)
    requires
        entry.pub_date is Some,
    ensures
        item_of(r, name@, entry@),
{
    let mut guid = String::from_str(GUID_PREFIX);
    guid.append(name);
    guid.append("/");
    guid.append(entry.id.as_str());
    let at = entry.pub_date.unwrap();
    FeedItem {
        title: entry.title.clone(),
        link: String::from_str(entry.url.as_str()),
        description: entry.description.clone(),
        author: clone_option(&entry.author),
        guid,
        pub_date: format_rfc2822(&at),
    }
}

/// How many of `count` entries a channel shows: all of them, up to
/// `MAX_FEED_ENTRY_COUNT`.
pub open spec fn shown(count: nat) -> nat {
    if count <= MAX_FEED_ENTRY_COUNT {
        count
    } else {
        MAX_FEED_ENTRY_COUNT as nat
    }
}

/// The channel of the feed `name`, made at `now` by the given version of the
/// program from the entries that the store holds for it: title and link are
/// those of the feed, and the items stand newest first. Of more entries than
/// `MAX_FEED_ENTRY_COUNT` the channel shows that many, those published last.
pub fn get_feed(name: &str, feed: &Feed, entries: &Vec<Entry>, now: &Timestamp, version: &str) -> (r:
    FeedChannel)
    requires
        all_dated(entries@),
    ensures
        r.title@ == name@,
        r.link@ == feed.request_url@,
        option_view(r.last_build_date) == rfc2822_text(*now),
        r.generator@ == GENERATOR_PREFIX@ + version@,
        r.items@.len() == shown(entries@.len()),
        r.items@.len() <= MAX_FEED_ENTRY_COUNT,
        forall|j: int|
            0 <= j < r.items@.len() ==> item_of(
                #[trigger] r.items@[j],
                name@,
                entries@[newest_first_order(published_at(entries@))[j] as int]@,
            ),
        is_newest_first(published_at(entries@), newest_first_order(published_at(entries@))),
{
    let dates = publication_dates(entries);
    let order = newest_first(&dates);
    let mut items: Vec<FeedItem> = Vec::new();
    let mut j: usize = 0;
    while j < order.len() && j < MAX_FEED_ENTRY_COUNT
        invariant
            j <= order@.len(),
            j <= MAX_FEED_ENTRY_COUNT,
            order@.len() == entries@.len(),
            all_dated(entries@),
            is_newest_first(published_at(entries@), order@),
            items@.len() == j,
            forall|k: int|
                0 <= k < j ==> item_of(#[trigger] items@[k], name@, entries@[order@[k] as int]@),
        decreases order@.len() - j,
    {
        let item = make_item(name, &entries[order[j]]);
        items.push(item);
        j = j + 1;
    }
    let mut generator = String::from_str(GENERATOR_PREFIX);
    generator.append(version);
    FeedChannel {
        title: String::from_str(name),
        link: String::from_str(feed.request_url.as_str()),
        last_build_date: format_rfc2822(now),
        generator,
        items,
    }
}

/// The HTTP status of an update that was taken on.
pub const NO_CONTENT: u16 = 204;

/// The HTTP status for a feed that is not configured.
pub const NOT_FOUND: u16 = 404;

/// The feed whose channel is asked for under `name`: the feed that is
/// configured under that name, or the status for one that is not.
pub fn find_feed<'a>(feeds: &'a NameMap<Feed>, name: &str) -> (r: Result<&'a Feed, u16>)
    ensures
        match feeds.lookup(name@) {
            Some(feed) => r == Ok::<&Feed, u16>(&feed),
            None => r == Err::<&Feed, u16>(NOT_FOUND),
        },
{
    match feeds.get(name) {
        Some(feed) => Ok(feed),
        None => Err(NOT_FOUND),
    }
}

/// What becomes of a request to update a feed at once.
#[derive(Debug)]
pub enum UpdateOutcome {
    /// The feed is to be told to update.
    Accepted,
    /// No feed of that name is configured.
    Unknown,
    /// The feed is disabled and cannot be updated.
    Disabled(FeedCannotBeUpdated),
}

impl UpdateOutcome {
    /// The HTTP status that answers the request.
    pub fn status(&self) -> (r: u16)
        ensures
            r == (match self {
                UpdateOutcome::Accepted => NO_CONTENT,
                UpdateOutcome::Unknown => NOT_FOUND,
                UpdateOutcome::Disabled(_) => crate::server::responses::FORBIDDEN,
            }),
    {
        match self {
            UpdateOutcome::Accepted => NO_CONTENT,
            UpdateOutcome::Unknown => NOT_FOUND,
            UpdateOutcome::Disabled(refusal) => refusal.status(),
        }
    }
}

/// Decides a request to update the feed `name` at once: only a feed that is
/// configured and enabled is told to update.
pub fn update_feed(feeds: &NameMap<Feed>, name: String) -> (r: UpdateOutcome)
    ensures
        match feeds.lookup(name@) {
            None => r is Unknown,
            Some(feed) => if feed.can_force_update() {
                r is Accepted
            } else {
                r matches UpdateOutcome::Disabled(refusal) && refusal.name@ == name@
            },
        },
{
    match feeds.get(name.as_str()) {
        None => UpdateOutcome::Unknown,
        Some(feed) => {
            if feed.enabled {
                UpdateOutcome::Accepted
            } else {
                UpdateOutcome::Disabled(FeedCannotBeUpdated { name })
            }
        },
    }
}

#[verifier::external_type_specification]
#[verifier::external_body]
pub struct ExChannel(rss::Channel);

/// The title, the link, the last build date and the generator that a channel
/// of the `rss` crate holds, in that order; what is not set is `None`.
pub uninterp spec fn channel_head(channel: rss::Channel) -> Seq<Option<Seq<char>>>;

/// The items that a channel of the `rss` crate holds, in their order: of each
/// the title, the link, the description, the author, the value of the guid,
/// which is no permalink, and the publication date, in that order; what is
/// not set is `None`.
pub uninterp spec fn channel_items(channel: rss::Channel) -> Seq<Seq<Option<Seq<char>>>>;

/// Whether a channel of the `rss` crate holds its head and its items and
/// nothing else: the rest of the channel, and of each item, is as `default`
/// makes it.
pub uninterp spec fn channel_is_bare(channel: rss::Channel) -> bool;

/// The text that the `rss` crate writes for a channel that holds just this head
/// and these items.
pub uninterp spec fn rss_text(
    head: Seq<Option<Seq<char>>>,
    items: Seq<Seq<Option<Seq<char>>>>,
) -> Seq<char>;

/// The head of a channel with the given texts.
pub open spec fn head_of(
    title: Seq<char>,
    link: Seq<char>,
    last_build_date: Option<Seq<char>>,
    generator: Seq<char>,
) -> Seq<Option<Seq<char>>> {
    seq![Some(title), Some(link), last_build_date, Some(generator)]
}

/// The fields of an item of a channel.
pub open spec fn fields_of_item(item: FeedItem) -> Seq<Option<Seq<char>>> {
    seq![
        Some(item.title@),
        Some(item.link@),
        Some(item.description@),
        option_view(item.author),
        Some(item.guid@),
        option_view(item.pub_date),
    ]
}

/// The fields of the items of a channel.
pub open spec fn fields_of_items(items: Seq<FeedItem>) -> Seq<Seq<Option<Seq<char>>>> {
    items.map_values(|i: FeedItem| fields_of_item(i))
}

/// Makes a channel of the `rss` crate with `Channel::default` and sets its
/// title, link, last build date and generator with the setters of the crate.
/// The channel holds those and no items.
#[verifier::external_body]
fn new_channel(title: &str, link: &str, last_build_date: Option<&str>, generator: &str) -> (r:
    rss::Channel)
    ensures
        channel_head(r) == head_of(
            title@,
            link@,
            match last_build_date {
                Some(d) => Some(d@),
                None => None,
            },
            generator@,
        ),
        channel_items(r) == Seq::<Seq<Option<Seq<char>>>>::empty(),
        channel_is_bare(r),
{
    let mut channel = rss::Channel::default();
    channel.set_title(title);
    channel.set_link(link);
    channel.set_last_build_date(last_build_date.map(String::from));
    channel.set_generator(Some(generator.to_string()));
    channel
}

/// Makes an item of the `rss` crate with `Item::default`, sets its fields with
/// the setters of the crate, the guid as one that is no permalink, and adds it
/// to the items of the channel. The channel then holds it after the items it
/// held, and the same head.
#[verifier::external_body]
fn add_item(channel: &mut rss::Channel, item: &FeedItem, permalink: bool)
    requires
        !permalink,
    ensures
        channel_items(*final(channel)) == channel_items(*old(channel)).push(fields_of_item(*item)),
        channel_head(*final(channel)) == channel_head(*old(channel)),
        channel_is_bare(*final(channel)) == channel_is_bare(*old(channel)),
{
    let mut made = rss::Item::default();
    made.set_title(Some(item.title.clone()));
    made.set_link(Some(item.link.clone()));
    made.set_description(Some(item.description.clone()));
    made.set_author(item.author.clone());
    made.set_guid(Some(rss::Guid { value: item.guid.clone(), permalink }));
    made.set_pub_date(item.pub_date.clone());
    channel.items.push(made);
}

/// Calls `to_string` on a channel of the `rss` crate, which writes it as an
/// RSS document. The contract gives the text its name, for a channel that
/// holds nothing but its head and its items.
#[verifier::external_body]
fn channel_text(channel: &rss::Channel) -> (r: String)
    requires
        channel_is_bare(*channel),
    ensures
        r@ == rss_text(channel_head(*channel), channel_items(*channel)),
{
    channel.to_string()
}

impl FeedChannel {
    /// The channel as an RSS document: what the `rss` crate writes for a
    /// channel with the title, the link, the last build date, the generator
    /// and the items of this one, the guid of each item marked as no permalink.
    pub fn to_rss(&self) -> (r: String)
        ensures
            r@ == rss_text(
                head_of(
                    self.title@,
                    self.link@,
                    option_view(self.last_build_date),
                    self.generator@,
                ),
                fields_of_items(self.items@),
            ),
    {
        let last_build_date = match &self.last_build_date {
            Some(d) => Some(d.as_str()),
            None => None,
        };
        let mut channel = new_channel(
            self.title.as_str(),
            self.link.as_str(),
            last_build_date,
            self.generator.as_str(),
        );
        let mut i: usize = 0;
        while i < self.items.len()
            invariant
                i <= self.items@.len(),
                channel_head(channel) == head_of(
                    self.title@,
                    self.link@,
                    option_view(self.last_build_date),
                    self.generator@,
                ),
                channel_items(channel) == fields_of_items(self.items@).take(i as int),
                channel_is_bare(channel),
            decreases self.items@.len() - i,
        {
            add_item(&mut channel, &self.items[i], false);
            proof {
                assert(fields_of_items(self.items@).take(i as int + 1) =~= fields_of_items(
                    self.items@,
                ).take(i as int).push(fields_of_item(self.items@[i as int])));
            }
            i = i + 1;
        }
        proof {
            assert(fields_of_items(self.items@).take(self.items@.len() as int) =~= fields_of_items(
                self.items@,
            ));
        }
        channel_text(&channel)
    }
}

} // verus!
