//! The order in which an entry cursor visits the lines of a stream, and the
//! laws that tie reading forward, stepping back and reading at an offset to
//! one another.
//!
//! A read is named by the offset at which its line starts: the record that
//! it yields is `record_at` of that offset.

use vstd::prelude::*;
use crate::entries::{
    first_not_before,
    is_record_start,
    prev_target,
    read_at,
    stamp_at,
};
use crate::entry::{Entry, Timestamp};
use crate::error::Error;
use crate::seek::{
    is_line_start,
    lemma_line_start_bounds,
    lemma_line_start_fixed,
    lemma_line_start_past_end,
    lemma_next_line_start_bounds,
    line_end,
    line_start,
    next_line_start,
};
use crate::stream::LINE_FEED;

verus! {

/// Every line of the stream ends in a line feed, as the lines of a stream
/// that was only ever appended to in whole records do.
pub open spec fn complete(data: Seq<u8>) -> bool {
    data.len() == 0 || data.last() == LINE_FEED
}

/// A line always ends behind its start.
pub proof fn lemma_line_end_behind(data: Seq<u8>, pos: int)
    requires
        0 <= pos < data.len(),
    ensures
        pos < line_end(data, pos) <= data.len(),
{
    lemma_next_line_start_bounds(data, pos);
}

/// The line starts that reading forward from `pos` visits, one read after
/// the other, until a read yields nothing.
pub open spec fn forward_reads(data: Seq<u8>, pos: int) -> Seq<int>
    decreases data.len() - pos,
{
    if pos < 0 || pos >= data.len() {
        Seq::empty()
    } else {
        proof {
            lemma_line_end_behind(data, pos);
        }
        seq![pos] + forward_reads(data, line_end(data, pos))
    }
}

/// Where the first line feed at or after `a` is at `b`, the next line
/// starts behind `b`.
proof fn lemma_next_line_start_at(data: Seq<u8>, a: int, b: int)
    requires
        0 <= a <= b < data.len(),
        data[b] == LINE_FEED,
        forall|i: int| a <= i < b ==> data[i] != LINE_FEED,
    ensures
        next_line_start(data, a) == Some(b + 1),
    decreases b - a,
{
    if a < b {
        lemma_next_line_start_at(data, a + 1, b);
    }
}

/// The line before a line start `c` ends at `c`.
pub proof fn lemma_line_before(data: Seq<u8>, c: int)
    requires
        is_line_start(data, c),
        c > 0,
    ensures
        0 <= line_start(data, c - 1) < c,
        is_line_start(data, line_start(data, c - 1)),
        line_end(data, line_start(data, c - 1)) == c,
{
    let t = line_start(data, c - 1);
    lemma_line_start_bounds(data, c - 1);
    assert forall|i: int| t <= i < c - 1 implies data[i] != LINE_FEED by {
        assert(!is_line_start(data, i + 1));
    }
    lemma_next_line_start_at(data, t, c - 1);
}

/// Stepping back from `pos` reads a line that ends before `pos`.
pub proof fn lemma_prev_target_before(data: Seq<u8>, pos: int)
    requires
        prev_target(data, pos).is_some(),
    ensures
        0 <= prev_target(data, pos).unwrap() < data.len(),
        is_line_start(data, prev_target(data, pos).unwrap()),
        0 < line_end(data, prev_target(data, pos).unwrap()) < pos,
{
    if pos <= data.len() {
        let c = line_start(data, pos);
        if pos > 0 {
            lemma_line_start_bounds(data, pos);
        }
        assert(c > 0);
        lemma_line_before(data, c);
        let from = line_start(data, c - 1);
        lemma_line_start_fixed(data, from);
        lemma_line_before(data, from);
    } else {
        lemma_line_start_bounds(data, pos);
        lemma_line_before(data, line_start(data, pos));
    }
}

/// The line starts that stepping back from `pos` visits, one step after the
/// other, until a step yields nothing.
pub open spec fn backward_reads(data: Seq<u8>, pos: int) -> Seq<int>
    decreases pos,
{
    match prev_target(data, pos) {
        None => Seq::empty(),
        Some(t) => {
            proof {
                lemma_prev_target_before(data, pos);
            }
            seq![t] + backward_reads(data, line_end(data, t))
        },
    }
}

/// The starts of the lines before the line start `c`, the nearest first.
pub open spec fn lines_before(data: Seq<u8>, c: int) -> Seq<int>
    decreases c,
{
    if c <= 0 {
        Seq::empty()
    } else {
        let t = line_start(data, c - 1);
        if 0 <= t < c {
            seq![t] + lines_before(data, t)
        } else {
            Seq::empty()
        }
    }
}

proof fn lemma_backward_from_line_start(data: Seq<u8>, c: int)
    requires
        is_line_start(data, c),
        0 <= c <= data.len(),
    ensures
        backward_reads(data, c) == if c == 0 {
            Seq::<int>::empty()
        } else {
            lines_before(data, line_start(data, c - 1))
        },
    decreases c,
{
    lemma_line_start_fixed(data, c);
    if c > 0 {
        lemma_line_before(data, c);
        let from = line_start(data, c - 1);
        lemma_line_start_fixed(data, from);
        if from > 0 {
            lemma_line_before(data, from);
            let t = line_start(data, from - 1);
            assert(prev_target(data, c) == Some(t));
            lemma_backward_from_line_start(data, from);
            assert(lines_before(data, from) == seq![t] + lines_before(data, t));
        } else {
            assert(prev_target(data, c).is_none());
        }
    }
}

proof fn lemma_backward_from_parked(data: Seq<u8>)
    requires
        complete(data),
    ensures
        backward_reads(data, data.len() as int + 1) == lines_before(data, data.len() as int),
{
    let len = data.len() as int;
    lemma_line_start_past_end(data, len + 1);
    if len > 0 {
        assert(is_line_start(data, len));
        lemma_line_start_fixed(data, len);
        lemma_line_before(data, len);
        let t = line_start(data, len - 1);
        assert(prev_target(data, len + 1) == Some(t));
        lemma_backward_from_line_start(data, len);
    } else {
        assert(prev_target(data, len + 1).is_none());
    }
}

proof fn lemma_forward_splits(data: Seq<u8>, c: int)
    requires
        is_line_start(data, c),
        0 <= c <= data.len(),
    ensures
        forward_reads(data, 0) == lines_before(data, c).reverse() + forward_reads(data, c),
    decreases c,
{
    if c > 0 {
        lemma_line_before(data, c);
        let t = line_start(data, c - 1);
        lemma_forward_splits(data, t);
        let before = lines_before(data, t);
        assert(lines_before(data, c) == seq![t] + before);
        assert(forward_reads(data, t) == seq![t] + forward_reads(data, c));
        assert((seq![t] + before).reverse() =~= before.reverse() + seq![t]);
        assert(before.reverse() + (seq![t] + forward_reads(data, c)) =~= (before.reverse()
            + seq![t]) + forward_reads(data, c));
    } else {
        assert(lines_before(data, c).reverse() =~= Seq::<int>::empty());
        assert(Seq::<int>::empty() + forward_reads(data, c) =~= forward_reads(data, c));
    }
}

/// Forward and backward are inverse: in a stream of whole lines, the reads
/// of stepping back from the position where reading forward parked, until
/// a step yields nothing, are the reads of reading forward from the start,
/// until a read yields nothing, in reverse order. No record is skipped and
/// none comes twice.
pub proof fn lemma_backward_reverses_forward(data: Seq<u8>)
    requires
        complete(data),
    ensures
        backward_reads(data, data.len() as int + 1) == forward_reads(data, 0).reverse(),
{
    let len = data.len() as int;
    lemma_backward_from_parked(data);
    assert(is_line_start(data, len));
    lemma_forward_splits(data, len);
    let before = lines_before(data, len);
    assert(forward_reads(data, len) =~= Seq::<int>::empty());
    assert(before.reverse() + Seq::<int>::empty() =~= before.reverse());
    assert(before.reverse().reverse() =~= before);
}

proof fn lemma_forward_reaches(data: Seq<u8>, a: int, s: int)
    requires
        is_record_start(data, a),
        is_record_start(data, s),
        a <= s,
    ensures
        forward_reads(data, a).contains(s),
    decreases s - a,
{
    let rest = forward_reads(data, line_end(data, a));
    assert(forward_reads(data, a) == seq![a] + rest);
    if a == s {
        assert((seq![a] + rest)[0] == s);
    } else {
        lemma_next_line_start_bounds(data, a);
        let e = line_end(data, a);
        assert(data[s - 1] == LINE_FEED);
        assert(e <= s);
        lemma_forward_reaches(data, e, s);
        let i = choose|i: int| 0 <= i < rest.len() && rest[i] == s;
        assert((seq![a] + rest)[i + 1] == s);
    }
}

/// Reading at an offset reads what a forward scan reads: the line that
/// holds `offset`, which `at` reads, is one of the lines that reading
/// forward from the start visits, and the only one of them that holds
/// `offset`.
pub proof fn lemma_at_agrees_with_forward_scan(data: Seq<u8>, offset: int)
    requires
        0 <= offset <= data.len(),
        line_start(data, offset) < data.len(),
    ensures
        forward_reads(data, 0).contains(line_start(data, offset)),
        forall|s: int|
            #[trigger] is_record_start(data, s) && s <= offset && offset < line_end(data, s)
                ==> s == line_start(data, offset),
{
    let at = line_start(data, offset);
    lemma_line_start_bounds(data, offset);
    lemma_forward_reaches(data, 0, at);
    assert forall|s: int|
        #[trigger] is_record_start(data, s) && s <= offset && offset < line_end(
            data,
            s,
        ) implies s == at by {
        crate::seek::lemma_line_start_greatest(data, s, offset);
        if s < at {
            lemma_next_line_start_bounds(data, s);
            assert(data[at - 1] == LINE_FEED);
        }
    }
}

/// Seeking to a timestamp and then reading yields the first record that is
/// not before the timestamp: the read at the position that
/// `first_not_before` describes yields a record that is not before `date`
/// while every record before it is, or yields nothing where every record of
/// the stream is before `date`.
pub proof fn lemma_read_after_seek_to_first(
    data: Seq<u8>,
    date: Timestamp,
    at: int,
    r: Result<Option<Entry>, Error>,
    after: int,
)
    requires
        first_not_before(data, date, at),
        read_at(data, at, r, after),
    ensures
        match r {
            Ok(Some(e)) => is_record_start(data, at) && stamp_at(data, at) == Some(e@.datetime)
                && !e@.datetime.precedes(date),
            Ok(None) => at == data.len() && forall|s: int| #[trigger]
                is_record_start(data, s) ==> (stamp_at(data, s) matches Some(t) && t.precedes(
                    date,
                )),
            Err(_) => false,
        },
        forall|s: int| #[trigger]
            is_record_start(data, s) && s < at ==> (stamp_at(data, s) matches Some(t)
                && t.precedes(date)),
{
}

} // verus!
