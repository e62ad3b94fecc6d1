//! The calls into other crates and into parts of the standard library that have no specification.
//!
//! What these functions promise is believed, not proved. Each says what the call that it makes does.

use crate::text;
use crate::tui::ui::Rect;
use chrono::{DateTime, SecondsFormat, Utc};
use pulldown_cmark::{Event, Options, Parser, Tag};
use ratatui::layout;
use std::collections::BTreeMap;
use unicode_width::{UnicodeWidthChar, UnicodeWidthStr};
use uuid::Uuid;
use vstd::prelude::*;

verus! {

/// What `{:?}` writes for a string.
pub uninterp spec fn debug_form(s: Seq<char>) -> Seq<char>;

/// Formats a string with `{:?}`: in quotation marks, with escapes.
#[verifier::external_body]
pub(crate) fn debug_quoted(s: &str) -> (r: String)
    ensures
        r@ == debug_form(s@),
{
    format!("{s:?}")
}

/// The lowercase form of a string by the rules of Unicode.
pub uninterp spec fn lowercase(s: Seq<char>) -> Seq<char>;

/// `str::to_lowercase`.
#[verifier::external_body]
pub(crate) fn lowercased(s: &str) -> (r: String)
    ensures
        r@ == lowercase(s@),
{
    s.to_lowercase()
}

/// The Markdown constructs that the library looks at.
#[derive(Clone, Copy, Debug, PartialEq, Eq, Structural)]
pub enum MarkKind {
    /// The start of a heading.
    Heading,
    /// The marker of a task-list item.
    Task,
    /// A piece of an HTML block.
    Html,
    /// Anything else.
    Other,
}

/// A construct that the Markdown parser found, with its range of bytes.
#[derive(Clone, Copy, Debug, PartialEq, Eq, Structural)]
pub struct RawMark {
    pub kind: MarkKind,
    pub start: usize,
    pub end: usize,
}

/// The events that the CommonMark parser with task lists reports for a text, in its order.
pub uninterp spec fn commonmark(text: Seq<char>) -> Seq<RawMark>;

/// Runs `pulldown_cmark::Parser::new_ext` with task lists enabled over the text and collects its
/// offset iterator: the kind of each event and its range of bytes in the text. Of the ranges nothing
/// is claimed. Texts with a NUL or a vertical tab are left out: the parser's offset iterator can
/// panic on them.
#[verifier::external_body]
pub(crate) fn parse_commonmark(text: &str) -> (r: Vec<RawMark>)
    requires
        !text@.contains('\0'),
        !text@.contains('\u{b}'),
    ensures
        r@ == commonmark(text@),
{
    Parser::new_ext(text, Options::ENABLE_TASKLISTS).into_offset_iter().map(
        |(event, range)|
            {
                let kind = match event {
                    Event::Start(Tag::Heading { .. }) => MarkKind::Heading,
                    Event::TaskListMarker(_) => MarkKind::Task,
                    Event::Html(_) => MarkKind::Html,
                    _ => MarkKind::Other,
                };
                RawMark { kind, start: range.start, end: range.end }
            },
    ).collect()
}

/// The entries of a mapping of strings to strings, as specifications speak of them.
pub open spec fn entry_views(entries: Seq<(String, String)>) -> Seq<(Seq<char>, Seq<char>)> {
    entries.map_values(|e: (String, String)| (e.0@, e.1@))
}

/// The entries of the mapping of strings to strings that a YAML text stands for, by key.
pub uninterp spec fn yaml_strings(yaml: Seq<char>) -> Option<Seq<(Seq<char>, Seq<char>)>>;

/// Reads a YAML text with `serde_saphyr::from_str` as a mapping of strings to strings. The result is
/// none where the text is no such mapping.
#[verifier::external_body]
pub(crate) fn read_yaml_strings(yaml: &str) -> (r: Option<Vec<(String, String)>>)
    ensures
        match r {
            Some(entries) => yaml_strings(yaml@) == Some(entry_views(entries@)),
            None => yaml_strings(yaml@) is None,
        },
{
    let entries: BTreeMap<String, String> = serde_saphyr::from_str(yaml).ok()?;
    Some(entries.into_iter().collect())
}

/// The entries of a mapping of strings to small numbers, as specifications speak of them.
pub open spec fn number_views(entries: Seq<(String, u8)>) -> Seq<(Seq<char>, u8)> {
    entries.map_values(|e: (String, u8)| (e.0@, e.1))
}

/// The entries of the mapping of strings to small numbers that a YAML text stands for, by key.
pub uninterp spec fn yaml_numbers(yaml: Seq<char>) -> Option<Seq<(Seq<char>, u8)>>;

/// Reads a YAML text with `serde_saphyr::from_str` as a mapping of strings to numbers of eight bits.
/// The result is none where the text is no such mapping.
#[verifier::external_body]
pub(crate) fn read_yaml_numbers(yaml: &str) -> (r: Option<Vec<(String, u8)>>)
    ensures
        match r {
            Some(entries) => yaml_numbers(yaml@) == Some(number_views(entries@)),
            None => yaml_numbers(yaml@) is None,
        },
{
    let entries: BTreeMap<String, u8> = serde_saphyr::from_str(yaml).ok()?;
    Some(entries.into_iter().collect())
}

/// The YAML text of a mapping with one entry, a string.
pub uninterp spec fn yaml_string_line(key: Seq<char>, value: Seq<char>) -> Option<Seq<char>>;

/// Writes a mapping with one entry, a string, with `serde_saphyr::to_string`. The result is none
/// where that fails.
#[verifier::external_body]
pub(crate) fn write_yaml_string(key: &str, value: &str) -> (r: Option<String>)
    ensures
        match r {
            Some(line) => yaml_string_line(key@, value@) == Some(line@),
            None => yaml_string_line(key@, value@) is None,
        },
{
    serde_saphyr::to_string(&BTreeMap::from([(key, value)])).ok()
}

/// The YAML text of a mapping with one entry, a small number.
pub uninterp spec fn yaml_number_line(key: Seq<char>, value: u8) -> Option<Seq<char>>;

/// Writes a mapping with one entry, a number of eight bits, with `serde_saphyr::to_string`. The
/// result is none where that fails.
#[verifier::external_body]
pub(crate) fn write_yaml_number(key: &str, value: u8) -> (r: Option<String>)
    ensures
        match r {
            Some(line) => yaml_number_line(key@, value) == Some(line@),
            None => yaml_number_line(key@, value) is None,
        },
{
    serde_saphyr::to_string(&BTreeMap::from([(key, value)])).ok()
}

/// A hexadecimal digit.
pub open spec fn hex_digit(n: nat) -> char {
    if n < 10 {
        ('0' as u32 + n) as char
    } else {
        ('a' as u32 + (n - 10)) as char
    }
}

/// The last `count` hexadecimal digits of a number.
pub open spec fn hex(n: nat, count: nat) -> Seq<char>
    decreases count,
{
    if count == 0 {
        Seq::empty()
    } else {
        hex(n / 16, (count - 1) as nat).push(hex_digit(n % 16))
    }
}

/// A UUID in its hyphenated form with small letters.
pub open spec fn hyphenated(uuid: u128) -> Seq<char> {
    let digits = hex(uuid as nat, 32);
    digits.subrange(0, 8) + seq!['-'] + digits.subrange(8, 12) + seq!['-'] + digits.subrange(12, 16)
        + seq!['-'] + digits.subrange(16, 20) + seq!['-'] + digits.subrange(20, 32)
}

/// The version field of a UUID: the thirteenth of its hexadecimal digits.
pub open spec fn version_field(uuid: u128) -> int {
    (uuid as int / 0x1000_0000_0000_0000_0000) % 16
}

/// The UUID that a text stands for, in any of the forms that the `uuid` crate reads.
pub uninterp spec fn uuid_value(text: Seq<char>) -> Option<u128>;

/// Reads a UUID with `uuid::Uuid::parse_str`.
#[verifier::external_body]
pub(crate) fn parse_uuid(text: &str) -> (r: Option<u128>)
    ensures
        r == uuid_value(text@),
{
    Uuid::parse_str(text).ok().map(|uuid| uuid.as_u128())
}

/// `uuid::Uuid::get_version_num`: the version field.
#[verifier::external_body]
pub(crate) fn uuid_version(uuid: u128) -> (r: usize)
    ensures
        r == version_field(uuid),
{
    Uuid::from_u128(uuid).get_version_num()
}

/// The `Display` form of `uuid::Uuid`: hyphenated, with small letters. `parse_str` reads it back.
#[verifier::external_body]
pub(crate) fn uuid_text(uuid: u128) -> (r: String)
    ensures
        r@ == hyphenated(uuid),
        uuid_value(r@) == Some(uuid),
{
    Uuid::from_u128(uuid).to_string()
}

/// `uuid::Uuid::now_v7`: a UUID of version seven. Which one rests on the clock and on chance.
#[verifier::external_body]
pub(crate) fn new_uuid() -> (r: u128)
    ensures
        version_field(r) == 7,
{
    Uuid::now_v7().as_u128()
}

/// The offset from UTC, in seconds, of the time that a text stands for by RFC 3339.
pub uninterp spec fn rfc3339_offset(text: Seq<char>) -> Option<i32>;

/// Reads a time with `chrono::DateTime::parse_from_rfc3339` and gives its offset from UTC.
#[verifier::external_body]
pub(crate) fn time_offset(text: &str) -> (r: Option<i32>)
    ensures
        r == rfc3339_offset(text@),
{
    DateTime::parse_from_rfc3339(text).ok().map(|time| time.offset().local_minus_utc())
}

/// Whether a text has the shape of a time in UTC: it has at least the given size and a `Z` at its
/// end, and one of just that size, whose year has four digits, is a time by RFC 3339 with no offset.
pub open spec fn is_utc(text: Seq<char>, size: nat) -> bool {
    &&& text.len() >= size
    &&& text.last() == 'Z'
    &&& text.len() == size ==> rfc3339_offset(text) == Some(0i32)
}

/// The present time as `chrono::DateTime::to_rfc3339_opts` writes it, in UTC with seconds: a year of
/// at least four digits, month, day, hour, minute and second, each of two, and a `Z` at the end. A
/// year of more digits has a sign before them, so the text is longer; one of four digits is read
/// back by `chrono::DateTime::parse_from_rfc3339`. Which time it is rests on the clock.
#[verifier::external_body]
pub(crate) fn timestamp_in_seconds() -> (r: String)
    ensures
        is_utc(r@, 20),
{
    Utc::now().to_rfc3339_opts(SecondsFormat::Secs, true)
}

/// The present time as `chrono::DateTime::to_rfc3339_opts` writes it, in UTC with milliseconds: as
/// with seconds, with a point and three more digits before the `Z`. Which time it is rests on the
/// clock.
#[verifier::external_body]
pub(crate) fn timestamp() -> (r: String)
    ensures
        is_utc(r@, 24),
{
    Utc::now().to_rfc3339_opts(SecondsFormat::Millis, true)
}

/// The JSON text of the value that a YAML text stands for.
pub uninterp spec fn yaml_value(yaml: Seq<char>) -> Option<Seq<char>>;

/// Reads a YAML text with `serde_saphyr::from_str` as a JSON value, and gives the JSON text of that.
/// The result is none where the text is no such value.
#[verifier::external_body]
pub(crate) fn read_yaml_value(yaml: &str) -> (r: Option<String>)
    ensures
        match r {
            Some(json) => yaml_value(yaml@) == Some(json@),
            None => yaml_value(yaml@) is None,
        },
{
    serde_saphyr::from_str::<serde_json::Value>(yaml).ok().map(|value| value.to_string())
}

/// The YAML text of the value that a JSON text stands for.
pub uninterp spec fn value_yaml(json: Seq<char>) -> Option<Seq<char>>;

/// Writes the value that a JSON text stands for with `serde_saphyr::to_string`. The result is none
/// where the text is no JSON or that fails.
#[verifier::external_body]
pub(crate) fn write_value_yaml(json: &str) -> (r: Option<String>)
    ensures
        match r {
            Some(yaml) => value_yaml(json@) == Some(yaml@),
            None => value_yaml(json@) is None,
        },
{
    let value: serde_json::Value = serde_json::from_str(json).ok()?;
    serde_saphyr::to_string(&value).ok()
}

/// The JSON text of a string.
pub uninterp spec fn string_json(s: Seq<char>) -> Seq<char>;

/// Writes a string as `serde_json::Value::String` does: in quotation marks, with JSON escapes.
#[verifier::external_body]
pub(crate) fn write_string_json(s: &str) -> (r: String)
    ensures
        r@ == string_json(s@),
{
    serde_json::Value::String(s.to_owned()).to_string()
}

/// The columns on the screen that a text takes.
pub uninterp spec fn text_width(s: Seq<char>) -> usize;

/// Measures a text with `unicode_width::UnicodeWidthStr::width`.
#[verifier::external_body]
pub(crate) fn width_of_text(s: &str) -> (r: usize)
    ensures
        r == text_width(s@),
{
    UnicodeWidthStr::width(s)
}

/// The columns on the screen that a character takes.
pub uninterp spec fn char_width(c: char) -> Option<usize>;

/// Measures a character with `unicode_width::UnicodeWidthChar::width`. The result is none for the
/// control characters, and for no others.
#[verifier::external_body]
pub(crate) fn width_of_char(c: char) -> (r: Option<usize>)
    ensures
        r == char_width(c),
        r is None == text::is_control(c),
{
    UnicodeWidthChar::width(c)
}

/// Whether an area is divided into rows or into columns.
#[derive(Clone, Copy, Debug, PartialEq, Eq, Structural)]
pub enum Direction {
    Rows,
    Columns,
}

/// How large a part of a divided area is to be.
#[derive(Clone, Copy, Debug, PartialEq, Eq, Structural)]
pub enum Extent {
    /// So large.
    Length(u16),
    /// At least so large.
    Min(u16),
}

impl Extent {
    /// The least size that meets the extent.
    pub open spec fn least(self) -> int {
        match self {
            Extent::Length(size) => size as int,
            Extent::Min(size) => size as int,
        }
    }
}

impl Direction {
    /// Where an area begins in the direction in which it is divided.
    pub open spec fn start(self, area: Rect) -> int {
        match self {
            Direction::Rows => area.y as int,
            Direction::Columns => area.x as int,
        }
    }

    /// How large an area is in the direction in which it is divided.
    pub open spec fn size(self, area: Rect) -> int {
        match self {
            Direction::Rows => area.height as int,
            Direction::Columns => area.width as int,
        }
    }
}

/// The least size of an area whose parts meet the extents, with a space between any two.
pub open spec fn needed(extents: Seq<Extent>, spacing: u16) -> int
    decreases extents.len(),
{
    if extents.len() == 0 {
        0
    } else if extents.len() == 1 {
        extents[0].least()
    } else {
        needed(extents.drop_last(), spacing) + spacing + extents.last().least()
    }
}

/// Whether just one of the extents leaves its part room to grow.
pub open spec fn one_grows(extents: Seq<Extent>) -> bool {
    exists|i: int|
        0 <= i < extents.len() && (#[trigger] extents[i]) is Min && forall|j: int|
            0 <= j < extents.len() && j != i ==> (#[trigger] extents[j]) is Length
}

/// Divides an area with `ratatui::layout::Layout::split`. There is one part for each extent. Rows
/// are as wide as the area, and columns as high; either end within machine numbers. Where the
/// extents can be met and just one part can grow, the parts follow each other with the spaces
/// between them, from one end of the area to the other, and all but the one have the length that is
/// asked for. The least size of a part that can grow and the spacing are held as signed numbers of
/// 16 bits. Nothing is claimed of how large the parts are elsewhere: where not all extents can be
/// met, that rests on the order in which the solver walks its hash maps.
#[verifier::external_body]
pub(crate) fn split_area(
    direction: Direction,
    extents: &Vec<Extent>,
    spacing: u16,
    area: Rect,
) -> (r: Vec<Rect>)
    requires
        area.fits(),
    ensures
        r@.len() == extents@.len(),
        forall|i: int| 0 <= i < r@.len() ==> (#[trigger] r@[i]).fits(),
        direction == Direction::Rows ==> forall|i: int|
            0 <= i < r@.len() ==> (#[trigger] r@[i]).x == area.x && r@[i].width == area.width,
        direction == Direction::Columns ==> forall|i: int|
            0 <= i < r@.len() ==> (#[trigger] r@[i]).y == area.y && r@[i].height == area.height,
        one_grows(extents@) && needed(extents@, spacing) <= direction.size(area) && needed(
            extents@,
            spacing,
        ) <= i16::MAX ==> {
            &&& direction.start(r@[0]) == direction.start(area)
            &&& direction.start(r@.last()) + direction.size(r@.last()) == direction.start(area)
                + direction.size(area)
            &&& forall|i: int|
                0 < i < r@.len() ==> direction.start(#[trigger] r@[i]) == direction.start(
                    r@[i - 1],
                ) + direction.size(r@[i - 1]) + spacing
            &&& forall|i: int|
                0 <= i < r@.len() && extents@[i] is Length ==> direction.size(#[trigger] r@[i])
                    == extents@[i].least()
        },
{
    let constraints = extents.iter().map(|extent| match extent {
        Extent::Length(size) => layout::Constraint::Length(*size),
        Extent::Min(size) => layout::Constraint::Min(*size),
    });
    let layout = match direction {
        Direction::Rows => layout::Layout::vertical(constraints),
        Direction::Columns => layout::Layout::horizontal(constraints),
    };
    let area = layout::Rect { x: area.x, y: area.y, width: area.width, height: area.height };
    let parts = layout.spacing(spacing).split(area);
    parts.iter().map(|r| Rect { x: r.x, y: r.y, width: r.width, height: r.height }).collect()
}

} // verus!
