//! The lexicographic order on byte strings, as raw bytes compare.

use vstd::prelude::*;

verus! {

/// How one byte string stands to another.
#[derive(Clone, Copy, Debug, PartialEq, Eq, Structural)]
pub enum Order {
    Less,
    Equal,
    Greater,
}

/// How `a` stands to `b`, given that they agree before index `i`: the first
/// index at which they differ decides, and where one ends first, the
/// shorter is less.
pub open spec fn order_from(a: Seq<u8>, b: Seq<u8>, i: nat) -> Order
    decreases a.len() - i,
{
    if i >= a.len() {
        if i >= b.len() {
            Order::Equal
        } else {
            Order::Less
        }
    } else if i >= b.len() {
        Order::Greater
    } else if a[i as int] < b[i as int] {
        Order::Less
    } else if a[i as int] > b[i as int] {
        Order::Greater
    } else {
        order_from(a, b, i + 1)
    }
}

/// How `a` stands to `b` in the lexicographic order.
pub open spec fn order(a: Seq<u8>, b: Seq<u8>) -> Order {
    order_from(a, b, 0)
}

/// `a` is not greater than `b`.
pub open spec fn at_most(a: Seq<u8>, b: Seq<u8>) -> bool {
    order(a, b) != Order::Greater
}

/// `a` is less than `b`.
pub open spec fn below(a: Seq<u8>, b: Seq<u8>) -> bool {
    order(a, b) == Order::Less
}

proof fn lemma_order_from_equal(a: Seq<u8>, b: Seq<u8>, i: nat)
    requires
        i <= a.len(),
        i <= b.len(),
    ensures
        (order_from(a, b, i) == Order::Equal) == (a.len() == b.len() && forall|j: int|
            i <= j < a.len() ==> a[j] == b[j]),
    decreases a.len() - i,
{
    if i < a.len() && i < b.len() && a[i as int] == b[i as int] {
        lemma_order_from_equal(a, b, i + 1);
    }
}

proof fn lemma_order_from_flip(a: Seq<u8>, b: Seq<u8>, i: nat)
    ensures
        (order_from(a, b, i) == Order::Less) == (order_from(b, a, i) == Order::Greater),
        (order_from(a, b, i) == Order::Equal) == (order_from(b, a, i) == Order::Equal),
    decreases a.len() - i,
{
    if i < a.len() && i < b.len() && a[i as int] == b[i as int] {
        lemma_order_from_flip(a, b, i + 1);
    }
}

proof fn lemma_order_from_transitive(a: Seq<u8>, b: Seq<u8>, c: Seq<u8>, i: nat)
    requires
        order_from(a, b, i) != Order::Greater,
        order_from(b, c, i) != Order::Greater,
    ensures
        order_from(a, c, i) != Order::Greater,
        order_from(a, b, i) == Order::Less || order_from(b, c, i) == Order::Less ==> order_from(
            a,
            c,
            i,
        ) == Order::Less,
    decreases a.len() - i,
{
    if i < a.len() && i < b.len() && i < c.len() && a[i as int] == b[i as int] && b[i as int]
        == c[i as int] {
        lemma_order_from_transitive(a, b, c, i + 1);
    }
}

/// Two byte strings compare equal exactly when they are the same string.
pub proof fn lemma_order_equal(a: Seq<u8>, b: Seq<u8>)
    ensures
        (order(a, b) == Order::Equal) == (a == b),
{
    lemma_order_from_equal(a, b, 0);
    if order(a, b) == Order::Equal {
        assert(a =~= b);
    }
}

/// Swapping the two sides swaps less and greater.
pub proof fn lemma_order_flip(a: Seq<u8>, b: Seq<u8>)
    ensures
        (order(a, b) == Order::Less) == (order(b, a) == Order::Greater),
        (order(a, b) == Order::Equal) == (order(b, a) == Order::Equal),
{
    lemma_order_from_flip(a, b, 0);
}

/// The order is transitive, and strict as soon as one step is strict.
pub proof fn lemma_order_transitive(a: Seq<u8>, b: Seq<u8>, c: Seq<u8>)
    requires
        at_most(a, b),
        at_most(b, c),
    ensures
        at_most(a, c),
        below(a, b) || below(b, c) ==> below(a, c),
{
    lemma_order_from_transitive(a, b, c, 0);
}

/// Compares two byte strings lexicographically.
pub fn compare(a: &[u8], b: &[u8]) -> (o: Order)
    ensures
        o == order(a@, b@),
{
    let mut i: usize = 0;
    while i < a.len() && i < b.len()
        invariant
            i <= a.len(),
            i <= b.len(),
            order_from(a@, b@, i as nat) == order(a@, b@),
        decreases a.len() - i,
    {
        if a[i] < b[i] {
            return Order::Less;
        }
        if a[i] > b[i] {
            return Order::Greater;
        }
        i = i + 1;
    }
    if i < b.len() {
        Order::Less
    } else if i < a.len() {
        Order::Greater
    } else {
        Order::Equal
    }
}

} // verus!
