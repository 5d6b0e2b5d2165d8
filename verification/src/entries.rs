//! Entry cursor: forward, backward and random navigation over the records
//! of a stream, and seeking by timestamp.
//!
//! The read position is the only state. Reading at or behind the end yields
//! nothing and parks the position one byte behind the end; from there, and
//! only from there, stepping back yields the last record rather than the one
//! before it.

use vstd::prelude::*;
use crate::entry::{decode_line, is_fault_of, Decoded, Entry, Timestamp};
use crate::error::Error;
use crate::seek::{
    is_line_start,
    lemma_line_start_bounds,
    lemma_line_start_greatest,
    lemma_next_line_start_bounds,
    line_end,
    line_start,
    next_line_start,
    prev_line_start,
    start_of_current_line,
    start_of_next_line,
    start_of_prev_line,
};
use crate::stream::ByteStream;

verus! {

/// The bytes of the line that starts at `s`, with its line feed if it has
/// one.
pub open spec fn line_at(data: Seq<u8>, s: int) -> Seq<u8> {
    data.subrange(s, line_end(data, s))
}

/// How the decoding of the line that starts at `s` ends.
pub open spec fn record_at(data: Seq<u8>, s: int) -> Decoded {
    decode_line(line_at(data, s))
}

/// Whether `r` reports the outcome `d` of decoding a line that was read:
/// its record, or the error that belongs to the step that failed.
pub open spec fn yields(r: Result<Option<Entry>, Error>, d: Decoded) -> bool {
    match r {
        Ok(Some(e)) => d matches Decoded::Record(v) && e@ == v,
        Ok(None) => false,
        Err(e) => is_fault_of(e, d),
    }
}

/// What reading forward at `pos` gives: at or behind the end nothing, with
/// the position parked one byte behind the end; else the record of the line
/// read, or the error of its decoding, with the position behind that line.
pub open spec fn read_at(
    data: Seq<u8>,
    pos: int,
    r: Result<Option<Entry>, Error>,
    after: int,
) -> bool {
    if pos >= data.len() {
        r matches Ok(None) && after == data.len() + 1
    } else {
        yields(r, record_at(data, pos)) && after == line_end(data, pos)
    }
}

/// Whether `pos` is between lines: at the start of a line, or at or behind
/// the end of the stream.
pub open spec fn on_boundary(data: Seq<u8>, pos: int) -> bool {
    pos >= data.len() || is_line_start(data, pos)
}

/// Where a cursor stands: at an offset within the stream or at its end, or
/// parked behind the end after a read that found nothing.
#[derive(Clone, Copy, Debug, PartialEq, Eq, Structural)]
pub enum Cursor {
    Offset(u64),
    PastEnd,
}

/// The start of the line that stepping back from `pos` reads, if there is
/// one. At or before the end of the stream the line that holds `pos` was
/// just read, or is about to be: the step goes to the line before it. One
/// byte behind the end nothing was read: the step goes to the last line.
pub open spec fn prev_target(data: Seq<u8>, pos: int) -> Option<int> {
    let from = if pos <= data.len() {
        match prev_line_start(data, pos) {
            Some(p) => p,
            None => 0,
        }
    } else {
        pos
    };
    prev_line_start(data, from)
}

/// Whether a record's line starts at `s`.
pub open spec fn is_record_start(data: Seq<u8>, s: int) -> bool {
    is_line_start(data, s) && 0 <= s < data.len()
}

/// The timestamp of the record at `s`, where its line decodes.
pub open spec fn stamp_at(data: Seq<u8>, s: int) -> Option<Timestamp> {
    match record_at(data, s) {
        Decoded::Record(v) => Some(v.datetime),
        _ => None,
    }
}

/// Every line of the stream decodes.
pub open spec fn all_decode(data: Seq<u8>) -> bool {
    forall|s: int| #[trigger] is_record_start(data, s) ==> stamp_at(data, s).is_some()
}

/// The timestamps of the records do not decrease from line to line.
pub open spec fn stamps_sorted(data: Seq<u8>) -> bool {
    forall|s: int, t: int|
        #![trigger is_record_start(data, s), is_record_start(data, t)]
        is_record_start(data, s) && is_record_start(data, t) && s <= t ==> (match (
            stamp_at(data, s),
            stamp_at(data, t),
        ) {
            (Some(a), Some(b)) => !b.precedes(a),
            _ => true,
        })
}

/// `at` is where the first record that is not before `date` starts, or the
/// end of the stream where all records are before it.
pub open spec fn first_not_before(data: Seq<u8>, date: Timestamp, at: int) -> bool {
    &&& at == data.len() || is_record_start(data, at)
    &&& at < data.len() ==> (stamp_at(data, at) matches Some(t) && !t.precedes(date))
    &&& forall|s: int|
        #[trigger] is_record_start(data, s) && s < at ==> (stamp_at(data, s) matches Some(t)
            && t.precedes(date))
}

/// How a bisection for a timestamp ends.
pub enum Bisection {
    /// At this offset: the start of a record, or the end of the stream.
    Reached(int),
    /// On the line that starts here, which does not decode.
    Stopped(int),
}

/// How the bisection for `date` ends that is left with the bytes from `lo`
/// to `hi`. Each step takes the line that holds the midpoint: if it does
/// not decode, the bisection stops there; if its record is before `date`,
/// the bytes up to the midpoint are dropped; else those from the start of
/// that line on.
pub open spec fn bisect(data: Seq<u8>, date: Timestamp, lo: int, hi: int) -> Bisection
    decreases
            (if hi > lo {
                hi - lo
            } else {
                0
            }),
{
    if lo < 0 || lo >= hi {
        Bisection::Reached(hi)
    } else {
        let mid = lo + (hi - lo) / 2;
        let s = line_start(data, mid);
        proof {
            lemma_line_start_bounds(data, mid);
        }
        match stamp_at(data, s) {
            None => Bisection::Stopped(s),
            Some(t) => if t.precedes(date) {
                bisect(data, date, mid + 1, hi)
            } else {
                bisect(data, date, lo, s)
            },
        }
    }
}

/// A bisection that is left with a range whose ends are as the search
/// keeps them finds, where every line decodes and the timestamps are
/// sorted, the first record that is not before `date`.
pub proof fn lemma_bisect_finds_first(data: Seq<u8>, date: Timestamp, lo: int, hi: int)
    requires
        all_decode(data),
        stamps_sorted(data),
        0 <= lo,
        hi <= data.len(),
        hi == data.len() || is_record_start(data, hi),
        hi < data.len() ==> (stamp_at(data, hi) matches Some(t) && !t.precedes(date)),
        forall|s: int| #[trigger]
            is_record_start(data, s) && s < lo ==> (stamp_at(data, s) matches Some(t)
                && t.precedes(date)),
    ensures
        bisect(data, date, lo, hi) matches Bisection::Reached(at) && first_not_before(
            data,
            date,
            at,
        ),
    decreases
            (if hi > lo {
                hi - lo
            } else {
                0
            }),
{
    if lo < hi {
        let mid = lo + (hi - lo) / 2;
        let s = line_start(data, mid);
        lemma_line_start_bounds(data, mid);
        assert(is_record_start(data, s));
        let t = stamp_at(data, s).unwrap();
        if t.precedes(date) {
            assert forall|x: int| #[trigger]
                is_record_start(data, x) && x < mid + 1 implies (stamp_at(
                data,
                x,
            ) matches Some(y) && y.precedes(date)) by {
                lemma_line_start_greatest(data, x, mid);
                assert(is_record_start(data, s));
            }
            lemma_bisect_finds_first(data, date, mid + 1, hi);
        } else {
            lemma_bisect_finds_first(data, date, lo, s);
        }
    } else {
        assert forall|s: int| #[trigger] is_record_start(data, s) && s < hi implies (stamp_at(
            data,
            s,
        ) matches Some(t) && t.precedes(date)) by {}
    }
}

/// A bisection ends at the start of a record or at the end of the stream,
/// or stops on a record that does not decode.
pub proof fn lemma_bisect_ends_on_a_line(data: Seq<u8>, date: Timestamp, lo: int, hi: int)
    requires
        0 <= lo,
        hi <= data.len(),
        hi == data.len() || is_record_start(data, hi),
    ensures
        match bisect(data, date, lo, hi) {
            Bisection::Reached(at) => at == data.len() || is_record_start(data, at),
            Bisection::Stopped(s) => is_record_start(data, s) && stamp_at(data, s).is_none(),
        },
    decreases
            (if hi > lo {
                hi - lo
            } else {
                0
            }),
{
    if lo < hi {
        let mid = lo + (hi - lo) / 2;
        let s = line_start(data, mid);
        lemma_line_start_bounds(data, mid);
        match stamp_at(data, s) {
            None => {},
            Some(t) => {
                if t.precedes(date) {
                    lemma_bisect_ends_on_a_line(data, date, mid + 1, hi);
                } else {
                    lemma_bisect_ends_on_a_line(data, date, lo, s);
                }
            },
        }
    }
}

/// The last line of a stream that does not end in a line feed ends where
/// the stream ends.
pub proof fn lemma_last_line_ends_at_end(data: Seq<u8>)
    requires
        line_start(data, data.len() as int) < data.len(),
    ensures
        line_end(data, line_start(data, data.len() as int)) == data.len(),
{
    let len = data.len() as int;
    let last = line_start(data, len);
    lemma_line_start_bounds(data, len);
    lemma_next_line_start_bounds(data, last);
    match next_line_start(data, last) {
        Some(n) => {
            assert(is_line_start(data, n));
            assert(last < n <= len);
        },
        None => {},
    }
}

/// Draws a number from `low` up to, and without, `high` with
/// `rand::thread_rng` and `rand::distributions::Uniform::new`, which needs
/// `low` below `high`. Trusted: the result lies in that range; nothing more
/// can be said of a random draw.
#[verifier::external_body]
fn random_between(low: u64, high: u64) -> (r: u64)
    requires
        low < high,
    ensures
        low <= r < high,
{
    rand::distributions::Distribution::sample(
        &rand::distributions::Uniform::new(low, high),
        &mut rand::thread_rng(),
    )
}

/// A cursor over the records of a stream that it owns.
pub struct Entries {
    f: ByteStream,
}

impl Entries {
    /// The bytes of the stream.
    pub closed spec fn bytes(&self) -> Seq<u8> {
        self.f.bytes()
    }

    /// The read position.
    pub closed spec fn offset(&self) -> nat {
        self.f.offset()
    }

    /// A cursor over `f`, at the position that `f` has.
    pub fn new(f: ByteStream) -> (e: Self)
        ensures
            e.bytes() == f.bytes(),
            e.offset() == f.offset(),
    {
        Entries { f }
    }

    /// Gives the stream back.
    pub fn into_inner(self) -> (f: ByteStream)
        ensures
            f.bytes() == self.bytes(),
            f.offset() == self.offset(),
    {
        self.f
    }

    /// The read position.
    pub fn position(&self) -> (p: u64)
        ensures
            p == self.offset(),
    {
        self.f.position()
    }

    /// Where the cursor stands.
    pub fn cursor(&self) -> (c: Cursor)
        ensures
            match c {
                Cursor::Offset(p) => p == self.offset() && p <= self.bytes().len(),
                Cursor::PastEnd => self.offset() > self.bytes().len(),
            },
    {
        let p = self.f.position();
        if p > self.f.len() {
            Cursor::PastEnd
        } else {
            Cursor::Offset(p)
        }
    }

    /// The length of the stream in bytes.
    pub fn len(&self) -> (n: u64)
        ensures
            n == self.bytes().len(),
            n < u64::MAX,
    {
        self.f.len()
    }

    /// Whether the stream holds no byte.
    pub fn is_empty(&self) -> (b: bool)
        ensures
            b == (self.bytes().len() == 0),
    {
        self.f.len() == 0
    }

    /// Reads the record of the line that holds offset `pos`, and leaves the
    /// position behind that line. Beyond the end there is no line: nothing
    /// is read and nothing moves. At the end, behind a final line feed,
    /// nothing is read either and the position is parked behind the end.
    pub fn at(&mut self, pos: u64) -> (r: Result<Option<Entry>, Error>)
        ensures
            final(self).bytes() == old(self).bytes(),
            pos > old(self).bytes().len() ==> (r matches Ok(None) && final(self).offset() == old(
                self,
            ).offset()),
            pos <= old(self).bytes().len() ==> read_at(
                old(self).bytes(),
                line_start(old(self).bytes(), pos as int),
                r,
                final(self).offset() as int,
            ) && on_boundary(old(self).bytes(), final(self).offset() as int),
    {
        if pos > self.f.len() {
            return Ok(None);
        }
        self.f.seek_to(pos);
        proof {
            lemma_line_start_bounds(self.f.bytes(), pos as int);
        }
        start_of_current_line(&mut self.f);
        self.next_entry()
    }

    /// Moves to the end, for stepping back from there. An empty stream has
    /// no end to step back from: the position is then its start. Else this
    /// is `at` at the length of the stream with the record dropped: behind a
    /// final line feed the position is parked one byte behind the end, and
    /// an unterminated last line is read over, which fails if it does not
    /// decode.
    pub fn seek_to_end(&mut self) -> (r: Result<(), Error>)
        ensures
            final(self).bytes() == old(self).bytes(),
            on_boundary(old(self).bytes(), final(self).offset() as int),
            old(self).bytes().len() == 0 ==> r.is_ok() && final(self).offset() == 0,
            old(self).bytes().len() > 0 ==> ({
                let data = old(self).bytes();
                let last = line_start(data, data.len() as int);
                if last == data.len() {
                    r.is_ok() && final(self).offset() == data.len() + 1
                } else {
                    &&& final(self).offset() == data.len()
                    &&& match r {
                        Ok(_) => record_at(data, last) is Record,
                        Err(e) => is_fault_of(e, record_at(data, last)),
                    }
                }
            }),
    {
        let len = self.len();
        if len == 0 {
            self.f.seek_to(0);
            return Ok(());
        }
        proof {
            lemma_line_start_bounds(self.f.bytes(), len as int);
            lemma_next_line_start_bounds(
                self.f.bytes(),
                line_start(self.f.bytes(), len as int),
            );
            if line_start(self.f.bytes(), len as int) < len {
                lemma_last_line_ends_at_end(self.f.bytes());
            }
        }
        match self.at(len) {
            Ok(_) => Ok(()),
            Err(e) => Err(e),
        }
    }

    /// Moves to the start of the next line; see
    /// `seek::start_of_next_line`.
    pub fn seek_to_next(&mut self) -> (next: Option<u64>)
        ensures
            final(self).bytes() == old(self).bytes(),
            on_boundary(old(self).bytes(), final(self).offset() as int),
            match next_line_start(old(self).bytes(), old(self).offset() as int) {
                Some(n) => next == Some(n as u64) && final(self).offset() == n,
                None => next.is_none() && final(self).offset() == if old(self).offset() > old(
                    self,
                ).bytes().len() {
                    old(self).offset()
                } else {
                    old(self).bytes().len()
                },
            },
    {
        proof {
            lemma_next_line_start_bounds(self.f.bytes(), self.f.offset() as int);
        }
        start_of_next_line(&mut self.f)
    }

    /// Moves to the start of the line before; see
    /// `seek::start_of_prev_line`.
    pub fn seek_to_prev(&mut self) -> (prev: Option<u64>)
        ensures
            final(self).bytes() == old(self).bytes(),
            on_boundary(old(self).bytes(), final(self).offset() as int),
            match prev_line_start(old(self).bytes(), old(self).offset() as int) {
                Some(p) => prev == Some(p as u64) && final(self).offset() == p,
                None => prev.is_none() && final(self).offset() == 0,
            },
    {
        proof {
            let data = self.f.bytes();
            let cur = line_start(data, self.f.offset() as int);
            lemma_line_start_bounds(data, self.f.offset() as int);
            if cur > 0 {
                lemma_line_start_bounds(data, cur - 1);
            }
        }
        start_of_prev_line(&mut self.f)
    }

    /// Reads the record of the line at the read position and moves behind
    /// that line. At or behind the end of the stream there is none: the
    /// position is then parked one byte behind the end. A line that does
    /// not decode is an error, with the position behind that line.
    pub fn next_entry(&mut self) -> (r: Result<Option<Entry>, Error>)
        ensures
            final(self).bytes() == old(self).bytes(),
            read_at(old(self).bytes(), old(self).offset() as int, r, final(self).offset() as int),
            on_boundary(old(self).bytes(), final(self).offset() as int),
    {
        let start = self.f.position();
        let len = self.f.len();
        if start >= len {
            self.f.seek_to(len + 1);
            return Ok(None);
        }
        let end = match start_of_next_line(&mut self.f) {
            Some(n) => n,
            None => len,
        };
        proof {
            lemma_next_line_start_bounds(self.f.bytes(), start as int);
        }
        self.f.seek_to(start);
        let line = self.f.read_to(end);
        match Entry::from_line(line.as_slice()) {
            Ok(e) => Ok(Some(e)),
            Err(e) => Err(e),
        }
    }

    /// Reads the record of a line drawn at random: as `at` at an offset
    /// drawn uniformly from the bytes of the stream, so that a longer line
    /// is drawn more often. An empty stream has no record: nothing is read
    /// and nothing moves.
    pub fn rand_entry(&mut self) -> (r: Result<Option<Entry>, Error>)
        ensures
            final(self).bytes() == old(self).bytes(),
            old(self).bytes().len() > 0 ==> on_boundary(
                old(self).bytes(),
                final(self).offset() as int,
            ),
            old(self).bytes().len() == 0 ==> (r matches Ok(None) && final(self).offset() == old(
                self,
            ).offset()),
            old(self).bytes().len() > 0 ==> exists|pos: int|
                0 <= pos < old(self).bytes().len() && #[trigger] read_at(
                    old(self).bytes(),
                    line_start(old(self).bytes(), pos),
                    r,
                    final(self).offset() as int,
                ),
    {
        let len = self.len();
        if len == 0 {
            return Ok(None);
        }
        let pos = random_between(0, len);
        self.at(pos)
    }

    /// Steps back: reads the record of the line that `prev_target` names
    /// and leaves the position behind it, so that the same call again reads
    /// the record before. Where there is no such line, nothing is read and
    /// the position is the start of the stream.
    pub fn prev_entry(&mut self) -> (r: Result<Option<Entry>, Error>)
        ensures
            final(self).bytes() == old(self).bytes(),
            on_boundary(old(self).bytes(), final(self).offset() as int),
            match prev_target(old(self).bytes(), old(self).offset() as int) {
                Some(t) => read_at(old(self).bytes(), t, r, final(self).offset() as int),
                None => r matches Ok(None) && final(self).offset() == 0,
            },
    {
        if self.f.position() <= self.f.len() {
            start_of_prev_line(&mut self.f);
        }
        if start_of_prev_line(&mut self.f).is_none() {
            return Ok(None);
        }
        self.next_entry()
    }

    /// Moves to the first record that is not before `date`, so that the
    /// next read yields it, or to the end of the stream where every record
    /// is before `date`.
    ///
    /// The search bisects the bytes as `bisect` describes: each step snaps
    /// the midpoint to the start of its line and decodes the record there.
    /// A line that does not decode ends the search with its error and with
    /// the position behind that line. Where every line decodes and the
    /// timestamps are sorted, the position reached is the one that
    /// `first_not_before` describes.
    pub fn seek_to_first(&mut self, date: &Timestamp) -> (r: Result<(), Error>)
        ensures
            final(self).bytes() == old(self).bytes(),
            match bisect(old(self).bytes(), *date, 0, old(self).bytes().len() as int) {
                Bisection::Reached(at) => r.is_ok() && final(self).offset() == at,
                Bisection::Stopped(s) => r matches Err(e) && is_fault_of(
                    e,
                    record_at(old(self).bytes(), s),
                ) && final(self).offset() == line_end(old(self).bytes(), s),
            },
            on_boundary(old(self).bytes(), final(self).offset() as int),
            all_decode(old(self).bytes()) && stamps_sorted(old(self).bytes()) ==> r.is_ok()
                && first_not_before(old(self).bytes(), *date, final(self).offset() as int),
    {
        let ghost data = self.f.bytes();
        let len = self.f.len();
        let mut lo: u64 = 0;
        let mut hi: u64 = len;
        proof {
            lemma_bisect_ends_on_a_line(data, *date, 0, len as int);
            if all_decode(data) && stamps_sorted(data) {
                lemma_bisect_finds_first(data, *date, 0, len as int);
            }
        }
        while lo < hi
            invariant
                self.f.bytes() == data,
                data == old(self).bytes(),
                len == data.len(),
                lo <= len,
                hi <= len,
                bisect(data, *date, lo as int, hi as int) == bisect(data, *date, 0, len as int),
                bisect(data, *date, 0, len as int) matches Bisection::Reached(at) ==> at
                    == data.len() || is_record_start(data, at),
                all_decode(data) && stamps_sorted(data) ==> (bisect(
                    data,
                    *date,
                    0,
                    len as int,
                ) matches Bisection::Reached(at) && first_not_before(data, *date, at)),
            decreases
                    (if hi > lo {
                        hi - lo
                    } else {
                        0
                    }),
        {
            let mid = lo + (hi - lo) / 2;
            self.f.seek_to(mid);
            let s = start_of_current_line(&mut self.f);
            proof {
                lemma_line_start_bounds(data, mid as int);
            }
            let entry = match self.next_entry() {
                Ok(Some(e)) => e,
                Ok(None) => {
                    return Ok(());
                },
                Err(e) => {
                    return Err(e);
                },
            };
            if entry.datetime().is_before(date) {
                lo = mid + 1;
            } else {
                hi = s;
            }
        }
        self.f.seek_to(hi);
        Ok(())
    }

    /// Reads the next record as an iterator would: `None` at the end, else
    /// the record or the error of its decoding.
    pub fn next(&mut self) -> (item: Option<Result<Entry, Error>>)
        ensures
            final(self).bytes() == old(self).bytes(),
            on_boundary(old(self).bytes(), final(self).offset() as int),
            read_at(
                old(self).bytes(),
                old(self).offset() as int,
                match item {
                    Some(Ok(e)) => Ok(Some(e)),
                    Some(Err(e)) => Err(e),
                    None => Ok(None),
                },
                final(self).offset() as int,
            ),
    {
        match self.next_entry() {
            Ok(Some(entry)) => Some(Ok(entry)),
            Ok(None) => None,
            Err(e) => Some(Err(e)),
        }
    }
}

} // verus!
