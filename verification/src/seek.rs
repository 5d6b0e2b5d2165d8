//! Cursor primitives: line boundaries around an arbitrary position.
//!
//! A line starts at offset 0 and after every line feed. A line feed belongs
//! to the line that it ends, so a position on a line feed lies inside the
//! line before it. The last line may lack its line feed; where the bytes end
//! in a line feed, the end of the stream is the start of an empty last line.

use vstd::prelude::*;
use crate::stream::{ByteStream, LINE_FEED};

verus! {

/// Whether a line starts at offset `s`.
pub open spec fn is_line_start(data: Seq<u8>, s: int) -> bool {
    s == 0 || (0 < s <= data.len() && data[s - 1] == LINE_FEED)
}

/// The start of the line that holds position `pos`: the last line start at
/// or before it. A position beyond the end belongs to the last line.
pub open spec fn line_start(data: Seq<u8>, pos: int) -> int
    decreases pos,
{
    if pos <= 0 {
        0
    } else if pos <= data.len() && data[pos - 1] == LINE_FEED {
        pos
    } else {
        line_start(data, pos - 1)
    }
}

/// The start of the line after the one that holds `pos`: the offset behind
/// the first line feed at or after `pos`, if there is one.
pub open spec fn next_line_start(data: Seq<u8>, pos: int) -> Option<int>
    decreases data.len() - pos,
{
    if pos < 0 || pos >= data.len() {
        None
    } else if data[pos] == LINE_FEED {
        Some(pos + 1)
    } else {
        next_line_start(data, pos + 1)
    }
}

/// The start of the line before the one that holds `pos`, if the line that
/// holds `pos` is not the first.
pub open spec fn prev_line_start(data: Seq<u8>, pos: int) -> Option<int> {
    let cur = line_start(data, pos);
    if cur == 0 {
        None
    } else {
        Some(line_start(data, cur - 1))
    }
}

/// The offset at which the line starting at `s` ends: behind its line feed,
/// or the end of the stream for an unterminated last line.
pub open spec fn line_end(data: Seq<u8>, s: int) -> int {
    match next_line_start(data, s) {
        Some(e) => e,
        None => if s > data.len() {
            s
        } else {
            data.len() as int
        },
    }
}

/// `line_start` yields a line start that is not behind the position, and no
/// line starts between the two.
pub proof fn lemma_line_start_bounds(data: Seq<u8>, pos: int)
    requires
        0 <= pos,
    ensures
        0 <= line_start(data, pos) <= pos,
        line_start(data, pos) <= data.len(),
        is_line_start(data, line_start(data, pos)),
        forall|s: int|
            line_start(data, pos) < s <= pos ==> !#[trigger] is_line_start(data, s),
    decreases pos,
{
    if pos > 0 && !(pos <= data.len() && data[pos - 1] == LINE_FEED) {
        lemma_line_start_bounds(data, pos - 1);
    }
}

/// A line start is the start of the line that holds it.
pub proof fn lemma_line_start_fixed(data: Seq<u8>, s: int)
    requires
        is_line_start(data, s),
    ensures
        line_start(data, s) == s,
{
}

/// Every line start at or before a position is at or before the start of
/// the line that holds the position.
pub proof fn lemma_line_start_greatest(data: Seq<u8>, s: int, pos: int)
    requires
        is_line_start(data, s),
        s <= pos,
    ensures
        s <= line_start(data, pos),
    decreases pos,
{
    if pos > 0 && !(pos <= data.len() && data[pos - 1] == LINE_FEED) {
        lemma_line_start_greatest(data, s, pos - 1);
    }
}

/// Snapping to the start of the line is idempotent: done twice, it yields
/// what it yields done once.
pub proof fn lemma_line_start_idempotent(data: Seq<u8>, pos: int)
    ensures
        line_start(data, line_start(data, pos)) == line_start(data, pos),
{
    if pos > 0 {
        lemma_line_start_bounds(data, pos);
        lemma_line_start_fixed(data, line_start(data, pos));
    }
}

/// Beyond the end every position belongs to the last line.
pub proof fn lemma_line_start_past_end(data: Seq<u8>, pos: int)
    requires
        pos >= data.len(),
    ensures
        line_start(data, pos) == line_start(data, data.len() as int),
    decreases pos,
{
    if pos > data.len() {
        lemma_line_start_past_end(data, pos - 1);
    }
}

/// What `next_line_start` yields is a line start behind the position, with
/// no line feed between the position and the one that it follows.
pub proof fn lemma_next_line_start_bounds(data: Seq<u8>, pos: int)
    requires
        0 <= pos,
    ensures
        match next_line_start(data, pos) {
            Some(n) => pos < n <= data.len() && is_line_start(data, n) && (forall|i: int|
                pos <= i < n - 1 ==> #[trigger] data[i] != LINE_FEED),
            None => forall|i: int| pos <= i < data.len() ==> #[trigger] data[i] != LINE_FEED,
        },
    decreases data.len() - pos,
{
    if pos < data.len() && data[pos] != LINE_FEED {
        lemma_next_line_start_bounds(data, pos + 1);
    }
}

/// Moves to the start of the line that holds the read position, and returns
/// that offset. On a line feed this is the start of the line that it ends;
/// at or beyond the end it is the start of the last line.
pub fn start_of_current_line(f: &mut ByteStream) -> (start: u64)
    ensures
        final(f).bytes() == old(f).bytes(),
        start == line_start(old(f).bytes(), old(f).offset() as int),
        final(f).offset() == start,
{
    let pos = f.position();
    let len = f.len();
    let mut p: u64 = if pos > len {
        len
    } else {
        pos
    };
    proof {
        if pos > len {
            lemma_line_start_past_end(f.bytes(), pos as int);
        }
    }
    while p > 0
        invariant
            f.bytes() == old(f).bytes(),
            p <= len,
            len == f.bytes().len(),
            line_start(f.bytes(), p as int) == line_start(old(f).bytes(), old(f).offset() as int),
        decreases p,
    {
        f.seek_to(p - 1);
        let b = f.read_byte();
        if b == Some(LINE_FEED) {
            return p;
        }
        p = p - 1;
    }
    f.seek_to(0);
    0
}

/// Moves behind the next line feed at or after the read position, and
/// returns that offset: the start of the next line. Where no line feed
/// follows, returns `None` and leaves the position at the end of the stream,
/// or where it was if that was beyond the end.
pub fn start_of_next_line(f: &mut ByteStream) -> (next: Option<u64>)
    ensures
        final(f).bytes() == old(f).bytes(),
        match next_line_start(old(f).bytes(), old(f).offset() as int) {
            Some(n) => next == Some(n as u64) && final(f).offset() == n,
            None => next.is_none() && final(f).offset() == if old(f).offset() > old(
                f,
            ).bytes().len() {
                old(f).offset()
            } else {
                old(f).bytes().len()
            },
        },
{
    loop
        invariant
            f.bytes() == old(f).bytes(),
            old(f).offset() <= f.offset(),
            f.offset() <= f.bytes().len() || f.offset() == old(f).offset(),
            next_line_start(f.bytes(), f.offset() as int) == next_line_start(
                old(f).bytes(),
                old(f).offset() as int,
            ),
        decreases f.bytes().len() - f.offset(),
    {
        let ghost at = f.offset() as int;
        match f.read_byte() {
            None => {
                return None;
            },
            Some(b) => {
                assert(next_line_start(f.bytes(), at) == if b == LINE_FEED {
                    Some(at + 1)
                } else {
                    next_line_start(f.bytes(), at + 1)
                });
                if b == LINE_FEED {
                    return Some(f.position());
                }
            },
        }
    }
}

/// Moves to the start of the line before the one that holds the read
/// position, and returns that offset. In the first line there is no line
/// before: returns `None` and leaves the position at offset 0.
pub fn start_of_prev_line(f: &mut ByteStream) -> (prev: Option<u64>)
    ensures
        final(f).bytes() == old(f).bytes(),
        match prev_line_start(old(f).bytes(), old(f).offset() as int) {
            Some(p) => prev == Some(p as u64) && final(f).offset() == p,
            None => prev.is_none() && final(f).offset() == 0,
        },
{
    let cur = start_of_current_line(f);
    if cur == 0 {
        return None;
    }
    f.seek_to(cur - 1);
    let prev = start_of_current_line(f);
    Some(prev)
}

} // verus!
