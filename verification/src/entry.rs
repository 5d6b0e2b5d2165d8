//! Records and their line format.
//!
//! A record is a timestamp and a message. Its line holds two
//! comma-separated fields: the timestamp in RFC 3339 and the message as a
//! JSON string. Splitting a line, reading a timestamp and reading a JSON
//! string are left to the crates that define those formats; what each of
//! them returns has a name here, and the rules around them are verified.

use vstd::prelude::*;
use vstd::slice::slice_to_vec;
use vstd::string::StringSliceAdditionalSpecFns;
use vstd::utf8::{decode_utf8, valid_utf8};
use crate::error::{from_str, Error};
use crate::stream::LINE_FEED;

verus! {

/// A point in time with the offset from UTC that it was written with.
///
/// `secs` and `nanos` count from 1970-01-01T00:00:00 UTC and alone decide
/// which of two timestamps is earlier; `offset` is the zone's distance east
/// of UTC in seconds.
#[derive(Clone, Copy, Debug, PartialEq, Eq, Structural)]
pub struct Timestamp {
    pub secs: i64,
    pub nanos: u32,
    pub offset: i32,
}

impl Timestamp {
    /// Whether `self` is an earlier instant than `other`.
    pub open spec fn precedes(self, other: Timestamp) -> bool {
        self.secs < other.secs || (self.secs == other.secs && self.nanos < other.nanos)
    }

    /// Whether `self` is an earlier instant than `other`.
    pub fn is_before(&self, other: &Timestamp) -> (b: bool)
        ensures
            b == self.precedes(*other),
    {
        self.secs < other.secs || (self.secs == other.secs && self.nanos < other.nanos)
    }

    /// This moment, in UTC.
    pub fn now() -> (t: Timestamp)
        ensures
            t.offset == 0,
    {
        now_utc()
    }

    /// The timestamp that `text` denotes in RFC 3339.
    pub fn from_rfc3339(text: &str) -> (r: Result<Timestamp, Error>)
        ensures
            match rfc3339_instant(text@) {
                Some(t) => r matches Ok(x) && x == t,
                None => r matches Err(Error::ChronoParse(_)),
            },
    {
        match parse_rfc3339(text) {
            Ok(t) => Ok(t),
            Err(e) => Err(Error::ChronoParse(e)),
        }
    }

    /// The RFC 3339 text of the timestamp, where it has one.
    pub fn to_rfc3339(&self) -> (r: Option<String>)
        ensures
            match rfc3339_text(*self) {
                Some(s) => r matches Some(x) && x@ == s,
                None => r.is_none(),
            },
    {
        format_rfc3339(self)
    }
}

/// One record of the journal.
#[derive(Clone, Debug)]
pub struct Entry {
    datetime: Timestamp,
    message: String,
}

/// What a record holds.
pub struct EntryView {
    pub datetime: Timestamp,
    pub message: Seq<char>,
}

impl View for Entry {
    type V = EntryView;

    closed spec fn view(&self) -> EntryView {
        EntryView { datetime: self.datetime, message: self.message@ }
    }
}

/// The fields of the first row of `line`, as `quick_csv` splits it, or
/// `None` where it reports an error.
pub uninterp spec fn csv_fields(line: Seq<u8>) -> Option<Seq<Seq<u8>>>;

/// The timestamp that `text` denotes in RFC 3339, as `chrono` reads it, or
/// `None` where it does not denote one.
pub uninterp spec fn rfc3339_instant(text: Seq<char>) -> Option<Timestamp>;

/// The string that the JSON document `text` holds, as `serde_json` reads it,
/// or `None` where it is not a JSON string.
pub uninterp spec fn json_string(text: Seq<char>) -> Option<Seq<char>>;

/// The RFC 3339 text of a timestamp, as `chrono` writes it, or `None` where
/// `chrono` cannot represent the timestamp.
pub uninterp spec fn rfc3339_text(t: Timestamp) -> Option<Seq<char>>;

/// The JSON document for a string, as `serde_json` writes it.
pub uninterp spec fn json_text(message: Seq<char>) -> Option<Seq<char>>;

/// The line for a record of two fields, as `csv` writes it.
pub uninterp spec fn csv_record(date: Seq<char>, message: Seq<char>) -> Option<Seq<u8>>;

/// `text` without the white space at its start and at its end, as
/// `str::trim` returns it.
pub uninterp spec fn trimmed(text: Seq<char>) -> Seq<char>;

/// Whether `needle` occurs in `text` as a contiguous run.
pub open spec fn occurs_in(needle: Seq<char>, text: Seq<char>) -> bool {
    exists|i: int|
        0 <= i && i + needle.len() <= text.len() && #[trigger] text.subrange(
            i,
            i + needle.len(),
        ) == needle
}

/// The views of the fields of a row.
pub open spec fn field_views(fields: Seq<Vec<u8>>) -> Seq<Seq<u8>> {
    Seq::new(fields.len(), |i: int| fields[i]@)
}

/// `line` with a line feed at its end, added where it lacks one.
pub open spec fn terminated(line: Seq<u8>) -> Seq<u8> {
    if line.len() > 0 && line.last() == LINE_FEED {
        line
    } else {
        line.push(LINE_FEED)
    }
}

/// How the decoding of a line ends.
pub enum Decoded {
    /// The line holds this record.
    Record(EntryView),
    /// The line cannot be split into fields.
    Unsplit,
    /// The line has fewer than two fields.
    Malformed,
    /// One of the first two fields is not valid UTF-8.
    NotText,
    /// The first field is not a timestamp.
    BadTimestamp,
    /// The second field is not an encoded message.
    BadMessage,
}

/// How the decoding of a row of fields ends: the first two fields are the
/// timestamp and the message, and further fields are ignored.
pub open spec fn decode_fields(fields: Seq<Seq<u8>>) -> Decoded {
    if fields.len() < 2 {
        Decoded::Malformed
    } else if !valid_utf8(fields[0]) || !valid_utf8(fields[1]) {
        Decoded::NotText
    } else {
        match rfc3339_instant(decode_utf8(fields[0])) {
            None => Decoded::BadTimestamp,
            Some(t) => match json_string(decode_utf8(fields[1])) {
                None => Decoded::BadMessage,
                Some(m) => Decoded::Record(EntryView { datetime: t, message: m }),
            },
        }
    }
}

/// How the decoding of a line ends.
pub open spec fn decode_line(line: Seq<u8>) -> Decoded {
    match csv_fields(terminated(line)) {
        None => Decoded::Unsplit,
        Some(fields) => decode_fields(fields),
    }
}

/// Whether `e` is the error that belongs to the outcome `d`: the variant of
/// the step that failed.
pub open spec fn is_fault_of(e: Error, d: Decoded) -> bool {
    match d {
        Decoded::Record(_) => false,
        Decoded::Unsplit => e is QuickCsv,
        Decoded::Malformed => e matches Error::String(m) && m@ == "malformed CSV"@,
        Decoded::NotText => e is Utf8,
        Decoded::BadTimestamp => e is ChronoParse,
        Decoded::BadMessage => e is SerdeJson,
    }
}

/// Whether `r` reports the outcome `d`: the record itself, or the error
/// that belongs to the step that failed.
pub open spec fn reports(r: Result<Entry, Error>, d: Decoded) -> bool {
    match r {
        Ok(e) => d matches Decoded::Record(v) && e@ == v,
        Err(e) => is_fault_of(e, d),
    }
}

/// How the encoding of a record ends: its line, or the step that failed.
pub enum Encoded {
    /// The record's line.
    Line(Seq<char>),
    /// The timestamp has no RFC 3339 text.
    NoTimestamp,
    /// The message has no JSON text.
    NoMessage,
    /// The two fields could not be written as a line.
    Unwritten,
    /// The line written is not valid UTF-8.
    NotText,
}

/// How the encoding of a record ends.
pub open spec fn encode_entry(v: EntryView) -> Encoded {
    match rfc3339_text(v.datetime) {
        None => Encoded::NoTimestamp,
        Some(date) => match json_text(v.message) {
            None => Encoded::NoMessage,
            Some(message) => match csv_record(date, message) {
                None => Encoded::Unwritten,
                Some(bytes) => if valid_utf8(bytes) {
                    Encoded::Line(decode_utf8(bytes))
                } else {
                    Encoded::NotText
                },
            },
        },
    }
}

/// Splits the first row of `line` into its fields with
/// `quick_csv::Csv::from_reader`, `Csv::next` and `Row::bytes_columns`.
/// Trusted: the result is what `csv_fields` names, an error where that is
/// `None`. The line must end in a line feed: `bytes_columns` fails on a
/// quote that opens a field at the very end of the input.
#[verifier::external_body]
fn split_row(line: &[u8]) -> (r: Result<Vec<Vec<u8>>, String>)
    requires
        line@.len() > 0,
        line@.last() == LINE_FEED,
    ensures
        match r {
            Ok(fields) => csv_fields(line@) == Some(field_views(fields@)),
            Err(_) => csv_fields(line@).is_none(),
        },
{
    match quick_csv::Csv::from_reader(line).next() {
        Some(Ok(row)) => Ok(row.bytes_columns().map(|c| c.to_vec()).collect()),
        Some(Err(e)) => Err(e.to_string()),
        None => Ok(Vec::new()),
    }
}

/// Reads bytes as text with `std::str::from_utf8`. Trusted: it succeeds
/// exactly on valid UTF-8 and then yields the text that the bytes encode.
#[verifier::external_body]
fn text_of(bytes: &[u8]) -> (r: Result<&str, String>)
    ensures
        match r {
            Ok(s) => valid_utf8(bytes@) && s@ == decode_utf8(bytes@),
            Err(_) => !valid_utf8(bytes@),
        },
{
    std::str::from_utf8(bytes).map_err(|e| e.to_string())
}

/// Reads a timestamp with `chrono::DateTime::parse_from_rfc3339`. Trusted:
/// the result is what `rfc3339_instant` names, an error where that is
/// `None`.
#[verifier::external_body]
fn parse_rfc3339(text: &str) -> (r: Result<Timestamp, String>)
    ensures
        match r {
            Ok(t) => rfc3339_instant(text@) == Some(t),
            Err(_) => rfc3339_instant(text@).is_none(),
        },
{
    match chrono::DateTime::parse_from_rfc3339(text) {
        Ok(dt) => Ok(
            Timestamp {
                secs: dt.timestamp(),
                nanos: dt.timestamp_subsec_nanos(),
                offset: dt.offset().local_minus_utc(),
            },
        ),
        Err(e) => Err(e.to_string()),
    }
}

/// Reads a JSON string with `serde_json::from_str`. Trusted: the result is
/// what `json_string` names, an error where that is `None`.
#[verifier::external_body]
fn parse_json_string(text: &str) -> (r: Result<String, String>)
    ensures
        match r {
            Ok(s) => json_string(text@) == Some(s@),
            Err(_) => json_string(text@).is_none(),
        },
{
    serde_json::from_str::<String>(text).map_err(|e| e.to_string())
}

/// Writes a timestamp with `chrono::DateTime::to_rfc3339`, after
/// `DateTime::from_timestamp`, `FixedOffset::east_opt` and
/// `DateTime::with_timezone` have rebuilt it. Trusted: the result is what
/// `rfc3339_text` names.
#[verifier::external_body]
fn format_rfc3339(t: &Timestamp) -> (r: Option<String>)
    ensures
        match r {
            Some(s) => rfc3339_text(*t) == Some(s@),
            None => rfc3339_text(*t).is_none(),
        },
{
    let utc = chrono::DateTime::from_timestamp(t.secs, t.nanos)?;
    let zone = chrono::FixedOffset::east_opt(t.offset)?;
    Some(utc.with_timezone(&zone).to_rfc3339())
}

/// Writes a string as JSON with `serde_json::to_string`. Trusted: the
/// result is what `json_text` names, an error where that is `None`.
#[verifier::external_body]
fn format_json_string(message: &str) -> (r: Result<String, String>)
    ensures
        match r {
            Ok(s) => json_text(message@) == Some(s@),
            Err(_) => json_text(message@).is_none(),
        },
{
    serde_json::to_string(message).map_err(|e| e.to_string())
}

/// Writes a record of two fields with `csv::Writer::write_record`.
/// Trusted: the result is what `csv_record` names, an error where that is
/// `None`.
#[verifier::external_body]
fn write_record(date: &str, message: &str) -> (r: Result<Vec<u8>, String>)
    ensures
        match r {
            Ok(bytes) => csv_record(date@, message@) == Some(bytes@),
            Err(_) => csv_record(date@, message@).is_none(),
        },
{
    let mut writer = csv::Writer::from_writer(Vec::new());
    match writer.write_record(&[date, message]) {
        Ok(()) => writer.into_inner().map_err(|e| e.to_string()),
        Err(e) => Err(e.to_string()),
    }
}

/// Reads the clock with `chrono::Utc::now`. Trusted: the timestamp is in
/// UTC, so its offset is 0; which instant it is depends on the clock.
#[verifier::external_body]
fn now_utc() -> (t: Timestamp)
    ensures
        t.offset == 0,
{
    let now = chrono::Utc::now();
    Timestamp {
        secs: now.timestamp(),
        nanos: now.timestamp_subsec_nanos(),
        offset: chrono::Offset::fix(now.offset()).local_minus_utc(),
    }
}

/// Strips white space from both ends with `str::trim`. Trusted: the result
/// is what `trimmed` names.
#[verifier::external_body]
fn trim_text(text: &str) -> (t: &str)
    ensures
        t@ == trimmed(text@),
{
    text.trim()
}

/// Looks for a substring with `str::contains`. Trusted: it tells whether
/// `needle` occurs in `text`.
#[verifier::external_body]
fn str_contains(text: &str, needle: &str) -> (b: bool)
    ensures
        b == occurs_in(needle@, text@),
{
    text.contains(needle)
}

impl Entry {
    /// A record with this timestamp and message.
    pub fn new(datetime: Timestamp, message: String) -> (e: Self)
        ensures
            e@ == (EntryView { datetime, message: message@ }),
    {
        Entry { datetime, message }
    }

    /// A record of this moment, in UTC, with `message` stripped of the
    /// white space at its ends.
    pub fn with_message(message: &str) -> (e: Self)
        ensures
            e@.message == trimmed(message@),
            e@.datetime.offset == 0,
    {
        Entry { datetime: Timestamp::now(), message: trim_text(message).to_owned() }
    }

    /// The record's timestamp.
    pub fn datetime(&self) -> (t: &Timestamp)
        ensures
            *t == self@.datetime,
    {
        &self.datetime
    }

    /// The record's message.
    pub fn message(&self) -> (m: &str)
        ensures
            m@ == self@.message,
    {
        self.message.as_str()
    }

    /// Whether `s` occurs in the message.
    pub fn contains(&self, s: &str) -> (b: bool)
        ensures
            b == occurs_in(s@, self@.message),
    {
        str_contains(self.message.as_str(), s)
    }

    /// The record's line, with its line feed.
    pub fn to_csv_row(&self) -> (r: Result<String, Error>)
        ensures
            match encode_entry(self@) {
                Encoded::Line(text) => r matches Ok(s) && s@ == text,
                Encoded::NoTimestamp => r matches Err(Error::String(m)) && m@
                    == "timestamp out of range"@,
                Encoded::NoMessage => r matches Err(Error::SerdeJson(_)),
                Encoded::Unwritten => r matches Err(Error::Csv(_)),
                Encoded::NotText => r matches Err(Error::Utf8(_)),
            },
    {
        let date = match format_rfc3339(&self.datetime) {
            Some(d) => d,
            None => {
                return Err(from_str("timestamp out of range"));
            },
        };
        let message = match format_json_string(self.message.as_str()) {
            Ok(m) => m,
            Err(e) => {
                return Err(Error::SerdeJson(e));
            },
        };
        let bytes = match write_record(date.as_str(), message.as_str()) {
            Ok(b) => b,
            Err(e) => {
                return Err(Error::Csv(e));
            },
        };
        match text_of(bytes.as_slice()) {
            Ok(s) => Ok(s.to_owned()),
            Err(e) => Err(Error::Utf8(e)),
        }
    }

    /// The record that a row of fields holds: the first field is its
    /// timestamp, the second its message.
    pub fn from_fields(fields: &Vec<Vec<u8>>) -> (r: Result<Entry, Error>)
        ensures
            reports(r, decode_fields(field_views(fields@))),
    {
        if fields.len() < 2 {
            return Err(from_str("malformed CSV"));
        }
        let date = match text_of(fields[0].as_slice()) {
            Ok(s) => s,
            Err(e) => {
                return Err(Error::Utf8(e));
            },
        };
        let message = match text_of(fields[1].as_slice()) {
            Ok(s) => s,
            Err(e) => {
                return Err(Error::Utf8(e));
            },
        };
        let datetime = match parse_rfc3339(date) {
            Ok(t) => t,
            Err(e) => {
                return Err(Error::ChronoParse(e));
            },
        };
        match parse_json_string(message) {
            Ok(m) => Ok(Entry { datetime, message: m }),
            Err(e) => Err(Error::SerdeJson(e)),
        }
    }

    /// The record that a line holds. The line may lack its line feed.
    pub fn from_line(line: &[u8]) -> (r: Result<Entry, Error>)
        ensures
            reports(r, decode_line(line@)),
    {
        let n = line.len();
        let split = if n > 0 && line[n - 1] == LINE_FEED {
            split_row(line)
        } else {
            let mut padded = slice_to_vec(line);
            padded.push(LINE_FEED);
            split_row(padded.as_slice())
        };
        match split {
            Ok(fields) => Entry::from_fields(&fields),
            Err(e) => Err(Error::QuickCsv(e)),
        }
    }

    /// The record that a line of text holds.
    pub fn try_from_str(s: &str) -> (r: Result<Entry, Error>)
        ensures
            reports(r, decode_line(s.spec_bytes())),
    {
        Entry::from_line(s.as_bytes())
    }
}

} // verus!
