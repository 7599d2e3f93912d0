//! The order in which byte strings are sorted: byte by byte, a prefix first.

use vstd::prelude::*;
use vstd::relations::{sorted_by, total_ordering};

verus! {

/// Whether `a` comes before `b` or is `b`, looking at the bytes from `from` on.
pub open spec fn precedes_from(a: Seq<u8>, b: Seq<u8>, from: int) -> bool
    decreases a.len() - from,
{
    if from < 0 || from >= a.len() {
        true
    } else if from >= b.len() {
        false
    } else if a[from] != b[from] {
        a[from] < b[from]
    } else {
        precedes_from(a, b, from + 1)
    }
}

/// Whether `a` comes before `b` or is `b`.
pub open spec fn precedes(a: Seq<u8>, b: Seq<u8>) -> bool {
    precedes_from(a, b, 0)
}

/// The order as a function value, to sort by.
pub open spec fn byte_order() -> spec_fn(Seq<u8>, Seq<u8>) -> bool {
    |a: Seq<u8>, b: Seq<u8>| precedes(a, b)
}

proof fn lemma_reflexive_from(a: Seq<u8>, from: int)
    requires
        0 <= from,
    ensures
        precedes_from(a, a, from),
    decreases a.len() - from,
{
    if from < a.len() {
        lemma_reflexive_from(a, from + 1);
    }
}

proof fn lemma_antisymmetric_from(a: Seq<u8>, b: Seq<u8>, from: int)
    requires
        0 <= from,
        precedes_from(a, b, from),
        precedes_from(b, a, from),
        from <= a.len(),
        from <= b.len(),
        a.subrange(0, from) == b.subrange(0, from),
    ensures
        a == b,
    decreases a.len() - from,
{
    if from >= a.len() || from >= b.len() {
        assert(a =~= a.subrange(0, from));
        assert(b =~= b.subrange(0, from));
    } else {
        assert(a.subrange(0, from + 1) =~= a.subrange(0, from).push(a[from]));
        assert(b.subrange(0, from + 1) =~= b.subrange(0, from).push(b[from]));
        lemma_antisymmetric_from(a, b, from + 1);
    }
}

proof fn lemma_transitive_from(a: Seq<u8>, b: Seq<u8>, c: Seq<u8>, from: int)
    requires
        0 <= from,
        precedes_from(a, b, from),
        precedes_from(b, c, from),
    ensures
        precedes_from(a, c, from),
    decreases a.len() - from,
{
    if from < a.len() && from < b.len() && from < c.len() && a[from] == b[from] && b[from]
        == c[from] {
        lemma_transitive_from(a, b, c, from + 1);
    }
}

proof fn lemma_connected_from(a: Seq<u8>, b: Seq<u8>, from: int)
    requires
        0 <= from,
    ensures
        precedes_from(a, b, from) || precedes_from(b, a, from),
    decreases a.len() - from,
{
    if from < a.len() && from < b.len() && a[from] == b[from] {
        lemma_connected_from(a, b, from + 1);
    }
}

/// The order is total: any two byte strings are ordered, one way only
/// unless they are equal, and the order carries over a middle one.
pub proof fn lemma_byte_order_is_total()
    ensures
        total_ordering(byte_order()),
{
    let order = byte_order();
    assert forall|a: Seq<u8>| #[trigger] order(a, a) by {
        lemma_reflexive_from(a, 0);
    }
    assert forall|a: Seq<u8>, b: Seq<u8>| #[trigger] order(a, b) && #[trigger] order(b, a) implies a
        == b by {
        assert(a.subrange(0, 0) =~= b.subrange(0, 0));
        lemma_antisymmetric_from(a, b, 0);
    }
    assert forall|a: Seq<u8>, b: Seq<u8>, c: Seq<u8>| #[trigger]
        order(a, b) && #[trigger] order(b, c) implies order(a, c) by {
        lemma_transitive_from(a, b, c, 0);
    }
    assert forall|a: Seq<u8>, b: Seq<u8>| #[trigger] order(a, b) || #[trigger] order(b, a) by {
        lemma_connected_from(a, b, 0);
    }
}

/// The one way to put byte strings in order.
pub open spec fn sorted(items: Seq<Seq<u8>>) -> Seq<Seq<u8>> {
    items.sort_by(byte_order())
}

/// Sorting keeps the items and puts them in order.
pub proof fn lemma_sorted(items: Seq<Seq<u8>>)
    ensures
        sorted(items).to_multiset() == items.to_multiset(),
        sorted_by(sorted(items), byte_order()),
        sorted(items).len() == items.len(),
{
    lemma_byte_order_is_total();
    items.lemma_sort_by_ensures(byte_order());
    vstd::seq_lib::to_multiset_len(items);
    vstd::seq_lib::to_multiset_len(sorted(items));
}

/// The order of the items does not matter to what sorting makes of them.
pub proof fn lemma_sorted_ignores_order(a: Seq<Seq<u8>>, b: Seq<Seq<u8>>)
    requires
        a.to_multiset() == b.to_multiset(),
    ensures
        sorted(a) == sorted(b),
{
    lemma_sorted(a);
    lemma_sorted(b);
    lemma_byte_order_is_total();
    vstd::seq_lib::lemma_sorted_unique(sorted(a), sorted(b), byte_order());
}

/// A sequence that is in order and holds the same items is the sorted one.
pub proof fn lemma_is_sorted(items: Seq<Seq<u8>>, ordered: Seq<Seq<u8>>)
    requires
        ordered.to_multiset() == items.to_multiset(),
        sorted_by(ordered, byte_order()),
    ensures
        ordered == sorted(items),
{
    lemma_sorted(items);
    lemma_byte_order_is_total();
    vstd::seq_lib::lemma_sorted_unique(ordered, sorted(items), byte_order());
}

/// Whether `a` comes before `b` or is `b`.
pub fn comes_first(a: &[u8], b: &[u8]) -> (yes: bool)
    ensures
        yes == precedes(a@, b@),
{
    let mut i: usize = 0;
    while i < a.len()
        invariant
            i <= a.len(),
            precedes_from(a@, b@, i as int) == precedes(a@, b@),
        decreases a.len() - i,
    {
        if i >= b.len() {
            return false;
        }
        if a[i] != b[i] {
            return a[i] < b[i];
        }
        i += 1;
    }
    true
}

} // verus!
