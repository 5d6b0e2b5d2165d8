//! The rules of a query over the journal: how a date argument is read,
//! which options go together, where the cursor starts and which records
//! are shown.

use vstd::prelude::*;
use vstd::string::StringExecFns;
use crate::entries::{bisect, Bisection, Entries};
use crate::entry::{is_fault_of, occurs_in, Entry, Timestamp};
use crate::entries::record_at;
use crate::error::{from_str, Error};
use crate::seek::{line_end, line_start, prev_line_start};

verus! {

/// The instant that `text` denotes as a date and time without zone, read
/// by `format` in `strftime` notation and taken as UTC, as `chrono` reads
/// it, or `None` where `text` does not fit `format`.
pub uninterp spec fn naive_instant(text: Seq<char>, format: Seq<char>) -> Option<Timestamp>;

/// Reads a date and time without zone with
/// `chrono::NaiveDateTime::parse_from_str` and takes it as UTC with
/// `NaiveDateTime::and_utc`. Trusted: the result is what `naive_instant`
/// names, an error where that is `None`.
#[verifier::external_body]
fn parse_naive(text: &str, format: &str) -> (r: Result<Timestamp, String>)
    ensures
        match r {
            Ok(t) => naive_instant(text@, format@) == Some(t),
            Err(_) => naive_instant(text@, format@).is_none(),
        },
{
    match chrono::NaiveDateTime::parse_from_str(text, format) {
        Ok(naive) => Ok(
            Timestamp {
                secs: naive.and_utc().timestamp(),
                nanos: naive.and_utc().timestamp_subsec_nanos(),
                offset: chrono::Offset::fix(naive.and_utc().offset()).local_minus_utc(),
            },
        ),
        Err(e) => Err(e.to_string()),
    }
}

/// The format of a full date argument.
pub open spec fn date_format() -> Seq<char> {
    "%Y-%m-%dT%H:%M:%S"@
}

/// The instant that `s` denotes once `rest` completes it.
pub open spec fn completed(s: Seq<char>, rest: Seq<char>) -> Option<Timestamp> {
    naive_instant(s + rest, date_format())
}

/// The instant that a date argument denotes. An argument may stop after
/// the year, the month, the day, the hour or the minute: what is left out
/// is the first month, the first day, and zero hours, minutes and seconds.
/// The shortest reading that fits is taken.
pub open spec fn date_arg_instant(s: Seq<char>) -> Option<Timestamp> {
    if completed(s, "-01-01T00:00:00"@).is_some() {
        completed(s, "-01-01T00:00:00"@)
    } else if completed(s, "-01T00:00:00"@).is_some() {
        completed(s, "-01T00:00:00"@)
    } else if completed(s, "T00:00:00"@).is_some() {
        completed(s, "T00:00:00"@)
    } else if completed(s, ":00:00"@).is_some() {
        completed(s, ":00:00"@)
    } else if completed(s, ":00"@).is_some() {
        completed(s, ":00"@)
    } else {
        naive_instant(s, date_format())
    }
}

/// What is said of a date argument that denotes no instant.
pub open spec fn unrecognised(s: Seq<char>) -> Seq<char> {
    "unrecognised date format: \""@ + s
        + "\", accepted formats include things like:\n  - 2012\n  - 2012-01\n  - 2012-01-24\n  - 2012-01-24T16\n  - 2012-01-24T16:20\n  - 2012-01-24T16:20:30"@
}

fn complete(s: &str, rest: &str) -> (t: Option<Timestamp>)
    ensures
        t == completed(s@, rest@),
{
    let text = String::from_str(s).concat(rest);
    match parse_naive(text.as_str(), "%Y-%m-%dT%H:%M:%S") {
        Ok(t) => Some(t),
        Err(_) => None,
    }
}

/// Reads a date argument.
pub fn parse_date_arg(s: &str) -> (r: Result<Timestamp, Error>)
    ensures
        match date_arg_instant(s@) {
            Some(t) => r matches Ok(x) && x == t,
            None => r matches Err(Error::String(m)) && m@ == unrecognised(s@),
        },
{
    if let Some(t) = complete(s, "-01-01T00:00:00") {
        return Ok(t);
    }
    if let Some(t) = complete(s, "-01T00:00:00") {
        return Ok(t);
    }
    if let Some(t) = complete(s, "T00:00:00") {
        return Ok(t);
    }
    if let Some(t) = complete(s, ":00:00") {
        return Ok(t);
    }
    if let Some(t) = complete(s, ":00") {
        return Ok(t);
    }
    if let Ok(t) = parse_naive(s, "%Y-%m-%dT%H:%M:%S") {
        return Ok(t);
    }
    let message = String::from_str("unrecognised date format: \"").concat(s).concat(
        "\", accepted formats include things like:\n  - 2012\n  - 2012-01\n  - 2012-01-24\n  - 2012-01-24T16\n  - 2012-01-24T16:20\n  - 2012-01-24T16:20:30",
    );
    Err(Error::String(message))
}

/// What a query asks for.
#[derive(Debug, Clone, Default)]
pub struct Query {
    /// Show no more than this many records, from the start.
    pub first: Option<i64>,
    /// Show this many records at the end.
    pub last: Option<i64>,
    /// Show records from this instant on.
    pub start: Option<Timestamp>,
    /// Show records before this instant.
    pub end: Option<Timestamp>,
    /// Show records whose message holds this text.
    pub contains: Option<String>,
}

/// What becomes of a record that a query has read.
#[derive(Clone, Copy, Debug, PartialEq, Eq, Structural)]
pub enum Verdict {
    /// It is shown and counted.
    Show,
    /// It is passed over.
    Skip,
    /// It ends the query, as do all records behind it.
    Stop,
}

/// Where the cursor stands after `steps` moves to the line before, each
/// of which stays at the start of the stream where there is no line before.
pub open spec fn stepped_back(data: Seq<u8>, pos: int, steps: nat) -> int
    decreases steps,
{
    if steps == 0 {
        pos
    } else {
        stepped_back(
            data,
            match prev_line_start(data, pos) {
                Some(p) => p,
                None => 0,
            },
            (steps - 1) as nat,
        )
    }
}

impl Query {
    /// Whether the two filters go together: a text to look for and a pattern
    /// to match exclude one another.
    pub fn check_filters(&self, has_pattern: bool) -> (r: Result<(), Error>)
        ensures
            has_pattern && self.contains.is_some() ==> (r matches Err(Error::String(m)) && m@
                == "You can only specify one of --contains and --regex"@),
            !(has_pattern && self.contains.is_some()) ==> r.is_ok(),
    {
        if has_pattern && self.contains.is_some() {
            return Err(from_str("You can only specify one of --contains and --regex"));
        }
        Ok(())
    }

    /// What is wrong with the limits, if anything: the first of these that
    /// holds. Both limits are given; the limit from the start is below 1;
    /// the limit at the end is below 1.
    pub open spec fn limits_fault(self) -> Option<Seq<char>> {
        if self.first.is_some() && self.last.is_some() {
            Some("cannot specify --first and --last at the same time"@)
        } else if self.first matches Some(n) && n < 1 {
            Some("--first must be greater than 0"@)
        } else if self.last matches Some(n) && n < 1 {
            Some("--last must be greater than 0"@)
        } else {
            None
        }
    }

    /// Whether the limits make sense.
    pub fn check_limits(&self) -> (r: Result<(), Error>)
        ensures
            match self.limits_fault() {
                Some(text) => r matches Err(Error::String(m)) && m@ == text,
                None => r.is_ok(),
            },
    {
        if self.first.is_some() && self.last.is_some() {
            return Err(from_str("cannot specify --first and --last at the same time"));
        }
        if let Some(first) = self.first {
            if first < 1 {
                return Err(from_str("--first must be greater than 0"));
            }
        }
        if let Some(last) = self.last {
            if last < 1 {
                return Err(from_str("--last must be greater than 0"));
            }
        }
        Ok(())
    }

    /// Whether `count` records are all that the query asks for.
    pub fn is_full(&self, count: i64) -> (b: bool)
        ensures
            b == (self.first matches Some(n) && count >= n),
    {
        match self.first {
            Some(n) => count >= n,
            None => false,
        }
    }

    /// What becomes of a record of the given timestamp and message:
    /// `matched` tells whether the message fits the pattern, and is true
    /// where there is none. A record at or behind the end ends the query; one
    /// that lacks the text or does not fit the pattern is passed over.
    pub open spec fn verdict(self, at: Timestamp, message: Seq<char>, matched: bool) -> Verdict {
        if self.end matches Some(end) && !at.precedes(end) {
            Verdict::Stop
        } else if self.contains matches Some(text) && !occurs_in(text@, message) {
            Verdict::Skip
        } else if !matched {
            Verdict::Skip
        } else {
            Verdict::Show
        }
    }

    /// What becomes of `entry`.
    pub fn judge(&self, entry: &Entry, matched: bool) -> (v: Verdict)
        ensures
            v == self.verdict(entry@.datetime, entry@.message, matched),
    {
        if let Some(end) = &self.end {
            if !entry.datetime().is_before(end) {
                return Verdict::Stop;
            }
        }
        if let Some(text) = &self.contains {
            if !entry.contains(text.as_str()) {
                return Verdict::Skip;
            }
        }
        if !matched {
            return Verdict::Skip;
        }
        Verdict::Show
    }

    /// How far the positioning of a cursor gets on `data`, and where it
    /// leaves the cursor that stood at `pos`.
    ///
    /// With a start, the cursor seeks to the first record that is not
    /// before it. With a limit at the end, the cursor then goes to where
    /// the output ends, which is the first record that is not before the
    /// end of the query or else the end of the stream, and from there as
    /// many lines back as the limit says. A line that does not decode on
    /// the way stops the positioning.
    pub open spec fn positioned(self, data: Seq<u8>, pos: int) -> Bisection {
        let len = data.len() as int;
        let from_start = match self.start {
            Some(date) => bisect(data, date, 0, len),
            None => Bisection::Reached(pos),
        };
        match (from_start, self.last) {
            (Bisection::Reached(_), Some(n)) => {
                let from_end = match self.end {
                    Some(date) => bisect(data, date, 0, len),
                    None => {
                        let last = line_start(data, len);
                        if last < len && !(record_at(data, last) is Record) {
                            Bisection::Stopped(last)
                        } else if last < len {
                            Bisection::Reached(len)
                        } else {
                            Bisection::Reached(len + 1)
                        }
                    },
                };
                match from_end {
                    Bisection::Reached(at) => Bisection::Reached(
                        stepped_back(
                            data,
                            at,
                            if n > 0 {
                                n as nat
                            } else {
                                0
                            },
                        ),
                    ),
                    stopped => stopped,
                }
            },
            (reached_or_stopped, _) => reached_or_stopped,
        }
    }

    /// Puts the cursor where the output of the query starts.
    pub fn position(&self, entries: &mut Entries) -> (r: Result<(), Error>)
        ensures
            final(entries).bytes() == old(entries).bytes(),
            match self.positioned(old(entries).bytes(), old(entries).offset() as int) {
                Bisection::Reached(at) => r.is_ok() && final(entries).offset() == at,
                Bisection::Stopped(s) => r matches Err(e) && is_fault_of(
                    e,
                    record_at(old(entries).bytes(), s),
                ) && final(entries).offset() == line_end(old(entries).bytes(), s),
            },
    {
        let ghost data = entries.bytes();
        if let Some(start) = &self.start {
            match entries.seek_to_first(start) {
                Ok(()) => {},
                Err(e) => {
                    return Err(e);
                },
            }
        }
        if let Some(last) = self.last {
            match &self.end {
                Some(end) => {
                    match entries.seek_to_first(end) {
                        Ok(()) => {},
                        Err(e) => {
                            return Err(e);
                        },
                    }
                },
                None => {
                    let len = entries.len();
                    proof {
                        crate::seek::lemma_line_start_bounds(data, len as int);
                        if line_start(data, len as int) < len {
                            crate::entries::lemma_last_line_ends_at_end(data);
                        }
                    }
                    match entries.at(len) {
                        Ok(_) => {},
                        Err(e) => {
                            return Err(e);
                        },
                    }
                },
            }
            let ghost from = entries.offset() as int;
            let mut i: i64 = 0;
            while i < last
                invariant
                    entries.bytes() == data,
                    0 <= i,
                    last > 0 ==> i <= last,
                    stepped_back(
                        data,
                        entries.offset() as int,
                        if last > i {
                            (last - i) as nat
                        } else {
                            0
                        },
                    ) == stepped_back(
                        data,
                        from,
                        if last > 0 {
                            last as nat
                        } else {
                            0
                        },
                    ),
                decreases last - i,
            {
                entries.seek_to_prev();
                i = i + 1;
            }
        }
        Ok(())
    }
}

} // verus!
