//! The rule that keeps a journal sorted when a record is added at its end.

use vstd::prelude::*;
use crate::entries::{prev_target, read_at, record_at, Entries};
use crate::entry::{is_fault_of, Decoded, Entry, Timestamp};
use crate::error::{from_str, Error};
use crate::seek::{lemma_line_start_bounds, line_start};
use crate::traversal::complete;

verus! {

/// What is said where the clock is behind the last record.
pub open spec fn clock_skew() -> Seq<char> {
    "clock skew detected, writing an entry now would break the ordering of your hmm file, please try again in a moment"@
}

/// Whether a record stamped `now` may follow `last`: it may unless it
/// would be the earlier of the two.
pub fn check_order(last: &Entry, now: &Timestamp) -> (r: Result<(), Error>)
    ensures
        now.precedes(last@.datetime) ==> (r matches Err(Error::String(m)) && m@ == clock_skew()),
        !now.precedes(last@.datetime) ==> r.is_ok(),
{
    if now.is_before(last.datetime()) {
        return Err(
            from_str(
                "clock skew detected, writing an entry now would break the ordering of your hmm file, please try again in a moment",
            ),
        );
    }
    Ok(())
}

/// Where the cursor stands once it has moved to the end of a stream that
/// holds bytes: parked behind the end of a stream of whole lines, at the
/// end behind an unterminated last line.
pub open spec fn end_position(data: Seq<u8>) -> int {
    if line_start(data, data.len() as int) == data.len() {
        data.len() as int + 1
    } else {
        data.len() as int
    }
}

/// What looking for the last record comes to.
pub enum LastRead {
    /// There is no line to read.
    Nothing,
    /// The line that starts here is read.
    Line(int),
    /// The last line, which starts here, lacks its line feed and does not
    /// decode: moving to the end fails on it.
    Broken(int),
}

/// What looking for the last record comes to: the cursor moves to the end
/// and steps back once.
pub open spec fn last_read(data: Seq<u8>) -> LastRead {
    let last = line_start(data, data.len() as int);
    if data.len() == 0 {
        LastRead::Nothing
    } else if last < data.len() && !(record_at(data, last) is Record) {
        LastRead::Broken(last)
    } else {
        match prev_target(data, end_position(data)) {
            Some(t) => LastRead::Line(t),
            None => LastRead::Nothing,
        }
    }
}

/// In a stream of whole lines the line read is the last one.
pub proof fn lemma_last_read_is_last_line(data: Seq<u8>)
    requires
        complete(data),
        data.len() > 0,
    ensures
        last_read(data) == LastRead::Line(line_start(data, data.len() - 1)),
        0 <= line_start(data, data.len() - 1) < data.len(),
{
    let len = data.len() as int;
    lemma_line_start_bounds(data, len);
    lemma_line_start_bounds(data, len - 1);
    crate::seek::lemma_line_start_past_end(data, len + 1);
    crate::seek::lemma_line_start_fixed(data, len);
}

/// Reads the record that stepping back from the end yields: in a stream
/// of whole lines, the last record. An empty stream has none. Where the
/// last line lacks its line feed, moving to the end reads over it, and
/// fails if it does not decode.
pub fn last_entry(entries: &mut Entries) -> (r: Result<Option<Entry>, Error>)
    ensures
        final(entries).bytes() == old(entries).bytes(),
        match last_read(old(entries).bytes()) {
            LastRead::Nothing => r matches Ok(None) && final(entries).offset() == 0,
            LastRead::Line(t) => read_at(
                old(entries).bytes(),
                t,
                r,
                final(entries).offset() as int,
            ),
            LastRead::Broken(s) => r matches Err(e) && is_fault_of(
                e,
                record_at(old(entries).bytes(), s),
            ) && final(entries).offset() == old(entries).bytes().len(),
        },
{
    proof {
        let data = entries.bytes();
        let len = data.len() as int;
        if len > 0 {
            lemma_line_start_bounds(data, len);
        } else {
            assert(prev_target(data, 0).is_none());
        }
    }
    match entries.seek_to_end() {
        Ok(()) => {},
        Err(e) => {
            return Err(e);
        },
    }
    entries.prev_entry()
}

/// Whether a record stamped `now` may be added at the end of the stream:
/// it may unless the record that `last_entry` yields is later than `now`.
/// A stream without such a record takes any; a line that does not decode
/// on the way is an error.
pub fn check_append(entries: &mut Entries, now: &Timestamp) -> (r: Result<(), Error>)
    ensures
        final(entries).bytes() == old(entries).bytes(),
        match last_read(old(entries).bytes()) {
            LastRead::Nothing => r.is_ok(),
            LastRead::Line(t) => t < old(entries).bytes().len() && (match record_at(
                old(entries).bytes(),
                t,
            ) {
                Decoded::Record(v) => if now.precedes(v.datetime) {
                    r matches Err(Error::String(m)) && m@ == clock_skew()
                } else {
                    r.is_ok()
                },
                d => r matches Err(e) && is_fault_of(e, d),
            }),
            LastRead::Broken(s) => r matches Err(e) && is_fault_of(
                e,
                record_at(old(entries).bytes(), s),
            ),
        },
{
    proof {
        let data = entries.bytes();
        if prev_target(data, end_position(data)).is_some() {
            crate::traversal::lemma_prev_target_before(data, end_position(data));
        }
    }
    match last_entry(entries) {
        Ok(Some(last)) => check_order(&last, now),
        Ok(None) => Ok(()),
        Err(e) => Err(e),
    }
}

} // verus!
