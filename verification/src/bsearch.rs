//! Prefix seeker: binary search over the bytes of a stream whose lines are
//! sorted by their leading bytes.
//!
//! The key of a line, for a query of `n` bytes, is the `n` bytes at its
//! start. A line closer than `n` bytes to the end of the stream has no key:
//! it counts as lying behind the last line. Keys compare as raw bytes.

use vstd::prelude::*;
use vstd::slice::slice_to_vec;
use vstd::string::StringSliceAdditionalSpecFns;
use crate::order::{
    at_most,
    below,
    compare,
    lemma_order_equal,
    lemma_order_flip,
    lemma_order_transitive,
    order,
    Order,
};
use crate::seek::{
    is_line_start,
    lemma_line_start_bounds,
    lemma_line_start_greatest,
    lemma_next_line_start_bounds,
    line_start,
    next_line_start,
    start_of_current_line,
    start_of_next_line,
    start_of_prev_line,
};
use crate::stream::ByteStream;

verus! {

/// Which line a search is to find.
#[derive(Clone, Copy, Debug, PartialEq, Eq, Structural)]
pub enum SeekType {
    /// The first line whose key is the query or greater: where the query
    /// occurs, the first line of its run.
    FirstGreaterThan,
    /// The last line whose key is the query or less: where the query
    /// occurs, the last line of its run.
    LastLessThan,
}

/// Whether a line with a key of `n` bytes starts at `s`.
pub open spec fn has_key(data: Seq<u8>, s: int, n: nat) -> bool {
    is_line_start(data, s) && 0 <= s < data.len() && s + n <= data.len()
}

/// The key of the line at `s`: its first `n` bytes.
pub open spec fn key_at(data: Seq<u8>, s: int, n: nat) -> Seq<u8> {
    data.subrange(s, s + n)
}

/// The keys of `n` bytes do not decrease from line to line.
pub open spec fn keys_sorted(data: Seq<u8>, n: nat) -> bool {
    forall|s: int, t: int|
        has_key(data, s, n) && has_key(data, t, n) && s <= t ==> at_most(
            #[trigger] key_at(data, s, n),
            #[trigger] key_at(data, t, n),
        )
}

/// The line at `s` is the first whose key is `query` or greater.
pub open spec fn first_at_least(data: Seq<u8>, query: Seq<u8>, s: int) -> bool {
    &&& has_key(data, s, query.len())
    &&& at_most(query, key_at(data, s, query.len()))
    &&& forall|t: int|
        has_key(data, t, query.len()) && t < s ==> below(
            #[trigger] key_at(data, t, query.len()),
            query,
        )
}

/// Every key is less than `query`.
pub open spec fn all_below(data: Seq<u8>, query: Seq<u8>) -> bool {
    forall|t: int|
        has_key(data, t, query.len()) ==> below(#[trigger] key_at(data, t, query.len()), query)
}

/// The line at `s` is the last whose key is `query` or less.
pub open spec fn last_at_most(data: Seq<u8>, query: Seq<u8>, s: int) -> bool {
    &&& has_key(data, s, query.len())
    &&& at_most(key_at(data, s, query.len()), query)
    &&& forall|t: int|
        has_key(data, t, query.len()) && s < t ==> below(
            query,
            #[trigger] key_at(data, t, query.len()),
        )
}

/// Every key is greater than `query`.
pub open spec fn all_above(data: Seq<u8>, query: Seq<u8>) -> bool {
    forall|t: int|
        has_key(data, t, query.len()) ==> below(query, #[trigger] key_at(data, t, query.len()))
}

/// What a search for `query` is to find in sorted `data`.
pub open spec fn seek_finds(
    data: Seq<u8>,
    query: Seq<u8>,
    seek_type: SeekType,
    found: Option<u64>,
) -> bool {
    match (seek_type, found) {
        (SeekType::FirstGreaterThan, Some(s)) => first_at_least(data, query, s as int),
        (SeekType::FirstGreaterThan, None) => all_below(data, query),
        (SeekType::LastLessThan, Some(s)) => last_at_most(data, query, s as int),
        (SeekType::LastLessThan, None) => all_above(data, query),
    }
}

/// A search has one answer: two results that both meet `seek_finds` are the
/// same.
pub proof fn lemma_seek_finds_unique(
    data: Seq<u8>,
    query: Seq<u8>,
    seek_type: SeekType,
    a: Option<u64>,
    b: Option<u64>,
)
    requires
        seek_finds(data, query, seek_type, a),
        seek_finds(data, query, seek_type, b),
    ensures
        a == b,
{
    let n = query.len();
    match (a, b) {
        (Some(x), Some(y)) => {
            lemma_order_flip(query, key_at(data, x as int, n));
            lemma_order_flip(query, key_at(data, y as int, n));
            lemma_order_flip(key_at(data, x as int, n), query);
            lemma_order_flip(key_at(data, y as int, n), query);
        },
        (Some(x), None) => {
            lemma_order_flip(query, key_at(data, x as int, n));
            lemma_order_flip(key_at(data, x as int, n), query);
        },
        (None, Some(y)) => {
            lemma_order_flip(query, key_at(data, y as int, n));
            lemma_order_flip(key_at(data, y as int, n), query);
        },
        (None, None) => {},
    }
}

/// Where the query occurs in sorted data, a search lands on its run: on the
/// first line whose key is the query under `FirstGreaterThan`, on the last
/// such line under `LastLessThan`, however long the run is and wherever in
/// the stream it lies.
pub proof fn lemma_seek_finds_end_of_run(
    data: Seq<u8>,
    query: Seq<u8>,
    seek_type: SeekType,
    found: Option<u64>,
    e: int,
)
    requires
        keys_sorted(data, query.len()),
        seek_finds(data, query, seek_type, found),
        has_key(data, e, query.len()),
        key_at(data, e, query.len()) == query,
    ensures
        found.is_some(),
        key_at(data, found.unwrap() as int, query.len()) == query,
        seek_type == SeekType::FirstGreaterThan ==> found.unwrap() <= e,
        seek_type == SeekType::LastLessThan ==> found.unwrap() >= e,
        forall|t: int|
            has_key(data, t, query.len()) && #[trigger] key_at(data, t, query.len()) == query ==> (
            match seek_type {
                SeekType::FirstGreaterThan => found.unwrap() <= t,
                SeekType::LastLessThan => t <= found.unwrap(),
            }),
{
    let n = query.len();
    lemma_order_equal(query, query);
    assert(order(key_at(data, e, n), query) == Order::Equal);
    let s = found.unwrap() as int;
    assert(found.is_some());
    let k = key_at(data, s, n);
    lemma_order_flip(k, query);
    lemma_order_flip(query, k);
    match seek_type {
        SeekType::FirstGreaterThan => {
            assert(s <= e);
            assert(at_most(k, key_at(data, e, n)));
        },
        SeekType::LastLessThan => {
            assert(s >= e);
            assert(at_most(key_at(data, e, n), k));
        },
    }
    lemma_order_equal(k, query);
    lemma_order_equal(query, k);
    assert forall|t: int|
        has_key(data, t, query.len()) && #[trigger] key_at(data, t, query.len())
            == query implies (match seek_type {
        SeekType::FirstGreaterThan => found.unwrap() <= t,
        SeekType::LastLessThan => t <= found.unwrap(),
    }) by {
        assert(order(key_at(data, t, n), query) == Order::Equal);
    }
}

/// Reads the key of the line at `s` and compares it with `query`. `None`
/// where the stream ends before the key does.
fn probe(f: &mut ByteStream, s: u64, query: &[u8], buf: &mut Vec<u8>) -> (o: Option<Order>)
    requires
        old(buf)@.len() == query@.len(),
    ensures
        final(f).bytes() == old(f).bytes(),
        final(buf)@.len() == query@.len(),
        s + query@.len() <= old(f).bytes().len() ==> o == Some(
            order(key_at(old(f).bytes(), s as int, query@.len()), query@),
        ),
        s + query@.len() > old(f).bytes().len() ==> o.is_none(),
{
    f.seek_to(s);
    if f.read_exact(buf) {
        Some(compare(buf.as_slice(), query))
    } else {
        None
    }
}

/// From a line whose key is the query, walks back line by line while the
/// line before has that key too, and returns the first line of the run.
fn first_of_run(f: &mut ByteStream, s: u64, query: &[u8], buf: &mut Vec<u8>) -> (first: u64)
    requires
        old(buf)@.len() == query@.len(),
        has_key(old(f).bytes(), s as int, query@.len()),
        key_at(old(f).bytes(), s as int, query@.len()) == query@,
    ensures
        final(f).bytes() == old(f).bytes(),
        final(f).offset() == first,
        final(buf)@.len() == query@.len(),
        first <= s,
        has_key(old(f).bytes(), first as int, query@.len()),
        key_at(old(f).bytes(), first as int, query@.len()) == query@,
        keys_sorted(old(f).bytes(), query@.len()) ==> first_at_least(
            old(f).bytes(),
            query@,
            first as int,
        ),
{
    let ghost data = f.bytes();
    let ghost n = query@.len();
    let mut cur = s;
    loop
        invariant
            f.bytes() == data,
            data == old(f).bytes(),
            n == query@.len(),
            buf@.len() == n,
            cur <= s,
            has_key(data, cur as int, n),
            key_at(data, cur as int, n) == query@,
        decreases cur,
    {
        proof {
            lemma_order_equal(query@, query@);
        }
        if cur == 0 {
            f.seek_to(0);
            return 0;
        }
        f.seek_to(cur);
        proof {
            lemma_line_start_bounds(data, cur as int - 1);
        }
        let prev = match start_of_prev_line(f) {
            Some(p) => p,
            None => {
                f.seek_to(cur);
                return cur;
            },
        };
        match probe(f, prev, query, buf) {
            Some(Order::Equal) => {
                proof {
                    lemma_order_equal(key_at(data, prev as int, n), query@);
                }
                cur = prev;
            },
            _ => {
                proof {
                    if keys_sorted(data, n) {
                        let kp = key_at(data, prev as int, n);
                        assert(at_most(kp, key_at(data, cur as int, n)));
                        assert(below(kp, query@));
                        assert forall|t: int| has_key(data, t, n) && t < cur implies below(
                            #[trigger] key_at(data, t, n),
                            query@,
                        ) by {
                            lemma_line_start_greatest(data, t, cur as int - 1);
                            assert(at_most(key_at(data, t, n), kp));
                            lemma_order_transitive(key_at(data, t, n), kp, query@);
                        }
                    }
                }
                f.seek_to(cur);
                return cur;
            },
        }
    }
}

/// From a line whose key is the query, walks on line by line while the line
/// after has that key too, and returns the last line of the run.
fn last_of_run(f: &mut ByteStream, s: u64, query: &[u8], buf: &mut Vec<u8>) -> (last: u64)
    requires
        old(buf)@.len() == query@.len(),
        has_key(old(f).bytes(), s as int, query@.len()),
        key_at(old(f).bytes(), s as int, query@.len()) == query@,
    ensures
        final(f).bytes() == old(f).bytes(),
        final(f).offset() == last,
        final(buf)@.len() == query@.len(),
        s <= last,
        has_key(old(f).bytes(), last as int, query@.len()),
        key_at(old(f).bytes(), last as int, query@.len()) == query@,
        keys_sorted(old(f).bytes(), query@.len()) ==> last_at_most(
            old(f).bytes(),
            query@,
            last as int,
        ),
{
    let ghost data = f.bytes();
    let ghost n = query@.len();
    let len = f.len();
    let mut cur = s;
    loop
        invariant
            f.bytes() == data,
            data == old(f).bytes(),
            len == data.len(),
            n == query@.len(),
            buf@.len() == n,
            s <= cur,
            has_key(data, cur as int, n),
            key_at(data, cur as int, n) == query@,
        decreases len - cur,
    {
        proof {
            lemma_order_equal(query@, query@);
            lemma_next_line_start_bounds(data, cur as int);
        }
        f.seek_to(cur);
        let next = match start_of_next_line(f) {
            Some(x) => x,
            None => {
                proof {
                    assert forall|t: int| has_key(data, t, n) && cur < t implies below(
                        query@,
                        #[trigger] key_at(data, t, n),
                    ) by {
                        assert(data[t - 1] != crate::stream::LINE_FEED);
                    }
                }
                f.seek_to(cur);
                return cur;
            },
        };
        proof {
            assert forall|t: int| has_key(data, t, n) && cur < t implies next <= t by {
                if t < next {
                    assert(data[t - 1] != crate::stream::LINE_FEED);
                }
            }
        }
        if next >= len {
            f.seek_to(cur);
            return cur;
        }
        match probe(f, next, query, buf) {
            Some(Order::Equal) => {
                proof {
                    lemma_order_equal(key_at(data, next as int, n), query@);
                }
                cur = next;
            },
            Some(_) => {
                proof {
                    if keys_sorted(data, n) {
                        let kn = key_at(data, next as int, n);
                        assert(at_most(key_at(data, cur as int, n), kn));
                        lemma_order_flip(kn, query@);
                        lemma_order_flip(query@, kn);
                        assert(below(query@, kn));
                        assert forall|t: int| has_key(data, t, n) && cur < t implies below(
                            query@,
                            #[trigger] key_at(data, t, n),
                        ) by {
                            assert(at_most(kn, key_at(data, t, n)));
                            lemma_order_transitive(query@, kn, key_at(data, t, n));
                        }
                    }
                }
                f.seek_to(cur);
                return cur;
            },
            None => {
                f.seek_to(cur);
                return cur;
            },
        }
    }
}

/// Searches the stream for `prefix` by bisection and moves to the line
/// found.
///
/// Each step snaps the midpoint of the range to the start of its line, reads
/// as many bytes there as the prefix has and compares them with it; a line
/// that the stream ends in before that many bytes counts as lying behind the
/// last line. On a line that starts with the prefix the search walks the run
/// of such lines, back for `FirstGreaterThan` and on for `LastLessThan`, to
/// its end.
///
/// In a stream whose keys are sorted the result is the one that
/// `seek_finds` describes. On `Some(s)` the read position is `s`; on `None`
/// it is the end of the stream for `FirstGreaterThan` and the start for
/// `LastLessThan`.
pub fn seek(f: &mut ByteStream, prefix: &str, seek_type: SeekType) -> (found: Option<u64>)
    ensures
        final(f).bytes() == old(f).bytes(),
        match found {
            Some(s) => final(f).offset() == s && has_key(
                old(f).bytes(),
                s as int,
                prefix.spec_bytes().len(),
            ) && (match seek_type {
                SeekType::FirstGreaterThan => at_most(
                    prefix.spec_bytes(),
                    key_at(old(f).bytes(), s as int, prefix.spec_bytes().len()),
                ),
                SeekType::LastLessThan => at_most(
                    key_at(old(f).bytes(), s as int, prefix.spec_bytes().len()),
                    prefix.spec_bytes(),
                ),
            }),
            None => final(f).offset() == (match seek_type {
                SeekType::FirstGreaterThan => old(f).bytes().len(),
                SeekType::LastLessThan => 0,
            }),
        },
        keys_sorted(old(f).bytes(), prefix.spec_bytes().len()) ==> seek_finds(
            old(f).bytes(),
            prefix.spec_bytes(),
            seek_type,
            found,
        ),
{
    let query = prefix.as_bytes();
    let mut buf = slice_to_vec(query);
    let len = f.len();
    let ghost data = f.bytes();
    let ghost q = query@;
    let ghost n = query@.len();
    let mut lo: u64 = 0;
    let mut hi: u64 = len;
    let mut hit = false;
    proof {
        lemma_order_equal(q, q);
    }
    while lo < hi
        invariant
            f.bytes() == data,
            data == old(f).bytes(),
            q == query@,
            q == prefix.spec_bytes(),
            n == q.len(),
            len == data.len(),
            buf@.len() == n,
            lo <= len,
            hi <= len,
            hi == len || is_line_start(data, hi as int),
            hit ==> has_key(data, hi as int, n) && below(q, key_at(data, hi as int, n)),
            !hit ==> forall|t: int| t >= hi ==> !#[trigger] has_key(data, t, n),
            forall|t: int| #[trigger] is_line_start(data, t) && 0 <= t < lo ==> t + n <= len,
            keys_sorted(data, n) ==> forall|t: int|
                has_key(data, t, n) && t < lo ==> below(#[trigger] key_at(data, t, n), q),
            keys_sorted(data, n) ==> forall|t: int|
                has_key(data, t, n) && t >= hi ==> below(q, #[trigger] key_at(data, t, n)),
        decreases
                (if hi > lo {
                    hi - lo
                } else {
                    0
                }),
    {
        let mid = lo + (hi - lo) / 2;
        f.seek_to(mid);
        let s = start_of_current_line(f);
        proof {
            lemma_line_start_bounds(data, mid as int);
        }
        match probe(f, s, query, &mut buf) {
            None => {
                hi = s;
                hit = false;
            },
            Some(Order::Greater) => {
                proof {
                    let ks = key_at(data, s as int, n);
                    lemma_order_flip(q, ks);
                    if keys_sorted(data, n) {
                        assert forall|t: int| has_key(data, t, n) && t >= s implies below(
                            q,
                            #[trigger] key_at(data, t, n),
                        ) by {
                            assert(at_most(ks, key_at(data, t, n)));
                            lemma_order_transitive(q, ks, key_at(data, t, n));
                        }
                    }
                }
                hi = s;
                hit = true;
            },
            Some(Order::Less) => {
                proof {
                    let ks = key_at(data, s as int, n);
                    assert forall|t: int| #[trigger]
                        is_line_start(data, t) && 0 <= t < mid + 1 implies t + n <= len by {
                        lemma_line_start_greatest(data, t, mid as int);
                    }
                    if keys_sorted(data, n) {
                        assert forall|t: int| has_key(data, t, n) && t < mid + 1 implies below(
                            #[trigger] key_at(data, t, n),
                            q,
                        ) by {
                            lemma_line_start_greatest(data, t, mid as int);
                            assert(at_most(key_at(data, t, n), ks));
                            lemma_order_transitive(key_at(data, t, n), ks, q);
                        }
                    }
                }
                lo = mid + 1;
            },
            Some(Order::Equal) => {
                proof {
                    lemma_order_equal(key_at(data, s as int, n), q);
                }
                match seek_type {
                    SeekType::FirstGreaterThan => {
                        let first = first_of_run(f, s, query, &mut buf);
                        return Some(first);
                    },
                    SeekType::LastLessThan => {
                        let last = last_of_run(f, s, query, &mut buf);
                        return Some(last);
                    },
                }
            },
        }
    }
    match seek_type {
        SeekType::FirstGreaterThan => {
            if hit {
                f.seek_to(hi);
                Some(hi)
            } else {
                f.seek_to(len);
                None
            }
        },
        SeekType::LastLessThan => {
            if hi == 0 {
                f.seek_to(0);
                return None;
            }
            f.seek_to(hi - 1);
            let last = start_of_current_line(f);
            proof {
                lemma_line_start_bounds(data, hi as int - 1);
                assert forall|t: int| has_key(data, t, n) && last < t implies hi <= t by {
                    if t < hi {
                        assert(!is_line_start(data, t));
                    }
                }
            }
            match probe(f, last, query, &mut buf) {
                Some(Order::Less) => {
                    f.seek_to(last);
                    Some(last)
                },
                Some(Order::Equal) => {
                    f.seek_to(last);
                    Some(last)
                },
                _ => {
                    f.seek_to(0);
                    None
                },
            }
        },
    }
}

/// The start of the line after the read position; see
/// `seek::start_of_next_line`.
pub fn seek_start_of_next_line(f: &mut ByteStream) -> (next: Option<u64>)
    ensures
        final(f).bytes() == old(f).bytes(),
        match next_line_start(old(f).bytes(), old(f).offset() as int) {
            Some(n) => next == Some(n as u64) && final(f).offset() == n,
            None => next.is_none() && final(f).offset() == if old(f).offset() > old(
                f,
            ).bytes().len() {
                old(f).offset()
            } else {
                old(f).bytes().len()
            },
        },
{
    start_of_next_line(f)
}

/// The start of the line before the read position; see
/// `seek::start_of_prev_line`.
pub fn seek_start_of_prev_line(f: &mut ByteStream) -> (prev: Option<u64>)
    ensures
        final(f).bytes() == old(f).bytes(),
        match crate::seek::prev_line_start(old(f).bytes(), old(f).offset() as int) {
            Some(p) => prev == Some(p as u64) && final(f).offset() == p,
            None => prev.is_none() && final(f).offset() == 0,
        },
{
    start_of_prev_line(f)
}

/// The start of the line at the read position; see
/// `seek::start_of_current_line`.
pub fn seek_start_of_current_line(f: &mut ByteStream) -> (start: u64)
    ensures
        final(f).bytes() == old(f).bytes(),
        start == line_start(old(f).bytes(), old(f).offset() as int),
        final(f).offset() == start,
{
    start_of_current_line(f)
}

} // verus!
