//! Order and identity: values that differ are written as different bytes,
//! and a map is its pairs in the order given.

use crate::laws::roundtrip::{faithful, lemma_round_trip_of_faithful};
use crate::value::ValueView;
use crate::wire::{encoding, lemma_pairs_encoding_grows, map_header, pairs_encoding, rejection};
use vstd::prelude::*;

verus! {

/// Two faithful values that are written as the same bytes are the same
/// value; more than that, where the bytes of one start the bytes of the
/// other, they are the same value.
pub proof fn lemma_encoding_tells_apart(a: ValueView, b: ValueView)
    requires
        rejection(a) is None,
        rejection(b) is None,
        faithful(a),
        faithful(b),
        encoding(a).is_prefix_of(encoding(b)),
    ensures
        a == b,
{
    let rest = encoding(b).skip(encoding(a).len() as int);
    assert(encoding(a) + rest =~= encoding(b));
    assert(encoding(b) + Seq::<u8>::empty() =~= encoding(b));
    lemma_round_trip_of_faithful(a, rest);
    lemma_round_trip_of_faithful(b, Seq::empty());
}

/// A map is written pair by pair in the order given, each key before its
/// value.
pub proof fn lemma_map_is_written_in_order(pairs: Seq<(ValueView, ValueView)>, i: nat)
    requires
        i < pairs.len(),
    ensures
        encoding(ValueView::Mapping(pairs)) == map_header(pairs.len() as int) + pairs_encoding(
            pairs,
            pairs.len(),
        ),
        pairs_encoding(pairs, i + 1) == pairs_encoding(pairs, i) + encoding(pairs[i as int].0)
            + encoding(pairs[i as int].1),
        pairs_encoding(pairs, i + 1).is_prefix_of(pairs_encoding(pairs, pairs.len())),
{
    lemma_pairs_encoding_grows(pairs, i + 1, pairs.len());
}

/// Two maps that differ at some place, be it by order alone, are different
/// values.
pub proof fn lemma_map_order_is_kept(
    a: Seq<(ValueView, ValueView)>,
    b: Seq<(ValueView, ValueView)>,
    i: int,
)
    requires
        0 <= i < a.len(),
        a.len() == b.len(),
        a[i] != b[i],
    ensures
        ValueView::Mapping(a) != ValueView::Mapping(b),
{
}

/// Two faithful maps with the same pairs in different orders are written as
/// different bytes.
pub proof fn lemma_map_order_is_written(
    a: Seq<(ValueView, ValueView)>,
    b: Seq<(ValueView, ValueView)>,
)
    requires
        a.to_multiset() == b.to_multiset(),
        a != b,
        rejection(ValueView::Mapping(a)) is None,
        rejection(ValueView::Mapping(b)) is None,
        faithful(ValueView::Mapping(a)),
        faithful(ValueView::Mapping(b)),
    ensures
        encoding(ValueView::Mapping(a)) != encoding(ValueView::Mapping(b)),
{
    if encoding(ValueView::Mapping(a)) == encoding(ValueView::Mapping(b)) {
        let e = encoding(ValueView::Mapping(a));
        assert(e.is_prefix_of(e)) by {
            assert(e.take(e.len() as int) =~= e);
        }
        lemma_encoding_tells_apart(ValueView::Mapping(a), ValueView::Mapping(b));
    }
}

} // verus!
