//! Round trip: decoding what was encoded gives the value back.
//!
//! Two things are not kept. A signed number that is not negative is written
//! under an unsigned tag and so comes back unsigned. A timestamp comes back
//! as the narrowest payload of its instant. `normalized` says what comes
//! back for any value; a `faithful` value comes back as it is.

use crate::bytes::{be16, be32, be64, be8, lemma_be_len};
use crate::error::ErrorView;
use crate::laws::fields::{
    lemma_array_header, lemma_bin_header, lemma_ext_header, lemma_map_header, lemma_signed_field,
    lemma_str_header, lemma_take_front, lemma_unsigned_field,
};
use crate::parse::{
    declared, field_i8, found, lemma_arr_step, lemma_map_step, parse, parse_bin, parse_ext,
    parse_items, parse_pairs, parse_str, parse_tagged, parse_timestamp, take,
};
use crate::timestamp::{
    canonical, lemma_canonical_is_fixed, lemma_unpack_packed, lemma_unpacked_in_range, unpacked,
    TIMESTAMP_TYPE,
};
use crate::value::{ExtensionView, Integer, ValueView};
use crate::wire::{
    array_encoding, array_header, array_rejection, array_width, bin_encoding, bin_header,
    double_encoding, encoding, ext_encoding, ext_fixed_len, ext_header, ext_payload, ext_rejection,
    ext_width, is_array_tag, is_ext_tag, is_map_tag, items_encoding, items_rejection,
    lemma_items_accepted, lemma_pairs_accepted, map_encoding, map_header, map_rejection, map_width,
    pairs_encoding, pairs_rejection, rejection, signed_encoding, str_encoding, str_header,
    unsigned_encoding, FIXARRAY, FIXMAP, MAX_LEN,
};
use vstd::prelude::*;
use vstd::utf8::{encode_utf8, encode_utf8_decode_utf8, encode_utf8_valid_utf8};

verus! {

/// What a value comes back as: a signed number that is not negative comes
/// back unsigned, a timestamp as the narrowest payload of its instant, and
/// the elements of arrays and maps as each of them comes back.
pub open spec fn normalized(v: ValueView) -> ValueView
    decreases v,
{
    match v {
        ValueView::Integer(Integer::I64(n)) => if n >= 0 {
            ValueView::Integer(Integer::U64(n as u64))
        } else {
            v
        },
        ValueView::Array(items) => ValueView::Array(
            Seq::new(
                items.len(),
                |i: int|
                    if 0 <= i < items.len() {
                        normalized(items[i])
                    } else {
                        ValueView::Nil
                    },
            ),
        ),
        ValueView::Mapping(pairs) => ValueView::Mapping(
            Seq::new(
                pairs.len(),
                |i: int|
                    if 0 <= i < pairs.len() {
                        (normalized(pairs[i].0), normalized(pairs[i].1))
                    } else {
                        (ValueView::Nil, ValueView::Nil)
                    },
            ),
        ),
        ValueView::Extension(e) => ValueView::Extension(
            ExtensionView { type_id: e.type_id, data: ext_payload(e) },
        ),
        _ => v,
    }
}

/// A value that holds no signed number that is not negative, and no
/// timestamp but as the narrowest payload of its instant.
pub open spec fn faithful(v: ValueView) -> bool
    decreases v,
{
    match v {
        ValueView::Integer(Integer::I64(n)) => n < 0,
        ValueView::Array(items) => forall|i: int|
            0 <= i < items.len() ==> faithful(#[trigger] items[i]),
        ValueView::Mapping(pairs) => forall|i: int|
            0 <= i < pairs.len() ==> faithful((#[trigger] pairs[i]).0) && faithful(pairs[i].1),
        ValueView::Extension(e) => e.type_id == TIMESTAMP_TYPE ==> canonical(e.data) == Some(
            e.data,
        ),
        _ => true,
    }
}

/// A faithful value comes back as it is.
pub proof fn lemma_faithful_is_kept(v: ValueView)
    requires
        faithful(v),
    ensures
        normalized(v) == v,
    decreases v,
{
    match v {
        ValueView::Array(items) => {
            assert forall|i: int| 0 <= i < items.len() implies normalized(items[i])
                == items[i] by {
                lemma_faithful_is_kept(items[i]);
            }
            assert(normalized(v)->Array_0 =~= items);
        },
        ValueView::Mapping(pairs) => {
            assert forall|i: int| 0 <= i < pairs.len() implies normalized(pairs[i].0)
                == pairs[i].0 && normalized(pairs[i].1) == pairs[i].1 by {
                assert(faithful(pairs[i].0) && faithful(pairs[i].1));
                lemma_faithful_is_kept(pairs[i].0);
                lemma_faithful_is_kept(pairs[i].1);
            }
            assert(normalized(v)->Mapping_0 =~= pairs);
        },
        _ => {},
    }
}

/// An unsigned number comes back as it is.
pub proof fn lemma_unsigned_round_trip(n: u64, rest: Seq<u8>)
    ensures
        parse(unsigned_encoding(n as int) + rest) == found(
            ValueView::Integer(Integer::U64(n)),
            rest,
        ),
{
    let x = n as int;
    let bytes = unsigned_encoding(x) + rest;
    lemma_be_len(x);
    lemma_unsigned_field(x, rest);
    if x <= 0x7f {
        assert(bytes.skip(1) =~= rest);
    } else if x <= 0xff {
        assert(bytes.skip(1) =~= be8(x) + rest);
    } else if x <= 0xffff {
        assert(bytes.skip(1) =~= be16(x) + rest);
    } else if x <= 0xffff_ffff {
        assert(bytes.skip(1) =~= be32(x) + rest);
    } else {
        assert(bytes.skip(1) =~= be64(x) + rest);
    }
}

/// A negative number comes back as it is; a signed number that is not
/// negative comes back unsigned.
pub proof fn lemma_signed_round_trip(n: i64, rest: Seq<u8>)
    ensures
        parse(signed_encoding(n as int) + rest) == found(
            normalized(ValueView::Integer(Integer::I64(n))),
            rest,
        ),
{
    let x = n as int;
    let bytes = signed_encoding(x) + rest;
    if x >= 0 {
        lemma_unsigned_round_trip(n as u64, rest);
    } else {
        lemma_be_len(x);
        lemma_signed_field(x, rest);
        if x >= -32 {
            assert(bytes.skip(1) =~= rest);
        } else if x >= -0x80 {
            assert(bytes.skip(1) =~= be8(x) + rest);
        } else if x >= -0x8000 {
            assert(bytes.skip(1) =~= be16(x) + rest);
        } else if x >= -0x8000_0000 {
            assert(bytes.skip(1) =~= be32(x) + rest);
        } else {
            assert(bytes.skip(1) =~= be64(x) + rest);
        }
    }
}

/// A number in double precision comes back bit for bit.
pub proof fn lemma_double_round_trip(bits: u64, rest: Seq<u8>)
    ensures
        parse(double_encoding(bits as int) + rest) == found(ValueView::Float(bits), rest),
{
    let bytes = double_encoding(bits as int) + rest;
    lemma_be_len(bits as int);
    lemma_unsigned_field(bits as int, rest);
    assert(bytes.skip(1) =~= be64(bits as int) + rest);
}

/// A string comes back as it is.
pub proof fn lemma_str_round_trip(chars: Seq<char>, rest: Seq<u8>)
    requires
        encode_utf8(chars).len() <= MAX_LEN,
    ensures
        parse(str_encoding(chars) + rest) == found(ValueView::String(chars), rest),
{
    let payload = encode_utf8(chars);
    let h = str_header(payload.len() as int);
    let bytes = str_encoding(chars) + rest;
    lemma_str_header(payload.len() as int, payload + rest);
    assert(bytes =~= h + (payload + rest));
    lemma_take_front(payload, rest);
    encode_utf8_valid_utf8(chars);
    encode_utf8_decode_utf8(chars);
    assert(parse_str(h[0], bytes.skip(1)) == found(chars, rest));
}

/// A binary comes back as it is.
pub proof fn lemma_bin_round_trip(payload: Seq<u8>, rest: Seq<u8>)
    requires
        payload.len() <= MAX_LEN,
    ensures
        parse(bin_encoding(payload) + rest) == found(ValueView::Binary(payload), rest),
{
    let h = bin_header(payload.len() as int);
    let bytes = bin_encoding(payload) + rest;
    lemma_bin_header(payload.len() as int, payload + rest);
    assert(bytes =~= h + (payload + rest));
    lemma_take_front(payload, rest);
    assert(parse_bin(h[0], bytes.skip(1)) == found(ValueView::Binary(payload), rest));
}

/// The payload that is written for an extension can be declared, and, for
/// a timestamp, is the one that reading keeps.
pub proof fn lemma_ext_payload_is_kept(e: ExtensionView)
    requires
        ext_rejection(e) is None,
    ensures
        ext_payload(e).len() <= MAX_LEN,
        e.type_id == TIMESTAMP_TYPE ==> parse_timestamp(ext_payload(e)) == Ok::<
            ExtensionView,
            ErrorView,
        >((ExtensionView { type_id: TIMESTAMP_TYPE, data: ext_payload(e) })),
{
    if e.type_id == TIMESTAMP_TYPE {
        lemma_unpacked_in_range(e.data);
        let (secs, nanos) = unpacked(e.data).unwrap();
        lemma_unpack_packed(secs, nanos);
        lemma_canonical_is_fixed(e.data);
    }
}

/// An extension comes back as it is, a timestamp as the narrowest payload of
/// its instant.
pub proof fn lemma_ext_round_trip(e: ExtensionView, rest: Seq<u8>)
    requires
        ext_rejection(e) is None,
    ensures
        parse(ext_encoding(e) + rest) == found(normalized(ValueView::Extension(e)), rest),
{
    let payload = ext_payload(e);
    let tail = payload + rest;
    let h = ext_header(payload.len() as int, e.type_id as int);
    let bytes = h + tail;
    let tag = h[0];
    let back = ExtensionView { type_id: e.type_id, data: payload };
    lemma_ext_payload_is_kept(e);
    assert(ext_encoding(e) + rest =~= bytes);
    assert(is_ext_tag(tag) && bytes.len() > 0 && bytes[0] == tag && declared(
        ext_width(tag),
        ext_fixed_len(tag),
        bytes.skip(1),
    ) == found(payload.len() as int, be8(e.type_id as int) + tail) && field_i8(
        be8(e.type_id as int) + tail,
    ) == found(e.type_id, tail)) by {
        lemma_ext_header(payload.len() as int, e.type_id as int, tail);
    }
    assert(take(tail, payload.len() as int) == found(payload, rest)) by {
        lemma_take_front(payload, rest);
    }
    assert(parse_ext(tag, bytes.skip(1)) == found(ValueView::Extension(back), rest));
    assert(parse_tagged(tag, bytes.skip(1)) == found(ValueView::Extension(back), rest));
}

/// The bytes of some elements are the bytes of the first of them, then the
/// bytes of the others.
pub proof fn lemma_items_encoding_splits(items: Seq<ValueView>, n: nat)
    requires
        0 < n <= items.len(),
    ensures
        items_encoding(items, n) == encoding(items[0]) + items_encoding(
            items.skip(1),
            (n - 1) as nat,
        ),
    decreases n,
{
    let tail = items.skip(1);
    if n == 1 {
        assert(items_encoding(items, 0) + encoding(items[0]) =~= encoding(items[0])
            + items_encoding(tail, 0));
    } else {
        lemma_items_encoding_splits(items, (n - 1) as nat);
        assert(tail[n - 2] == items[n - 1]);
        assert(encoding(items[0]) + items_encoding(tail, (n - 2) as nat) + encoding(
            items[n - 1],
        ) =~= encoding(items[0]) + (items_encoding(tail, (n - 2) as nat) + encoding(
            tail[n - 2],
        )));
    }
}

/// The bytes of some pairs are the bytes of the first of them, then the
/// bytes of the others.
pub proof fn lemma_pairs_encoding_splits(pairs: Seq<(ValueView, ValueView)>, n: nat)
    requires
        0 < n <= pairs.len(),
    ensures
        pairs_encoding(pairs, n) == encoding(pairs[0].0) + encoding(pairs[0].1) + pairs_encoding(
            pairs.skip(1),
            (n - 1) as nat,
        ),
    decreases n,
{
    let tail = pairs.skip(1);
    let first = encoding(pairs[0].0) + encoding(pairs[0].1);
    if n == 1 {
        assert(pairs_encoding(pairs, 0) + encoding(pairs[0].0) + encoding(pairs[0].1) =~= first
            + pairs_encoding(tail, 0));
    } else {
        lemma_pairs_encoding_splits(pairs, (n - 1) as nat);
        assert(tail[n - 2] == pairs[n - 1]);
        assert(first + pairs_encoding(tail, (n - 2) as nat) + encoding(pairs[n - 1].0)
            + encoding(pairs[n - 1].1) =~= first + (pairs_encoding(tail, (n - 2) as nat)
            + encoding(tail[n - 2].0) + encoding(tail[n - 2].1)));
    }
}

/// The encoding of a value is at least one byte long.
pub proof fn lemma_encoding_is_not_empty(v: ValueView)
    ensures
        encoding(v).len() >= 1,
{
    match v {
        ValueView::Integer(Integer::U64(n)) => {
            lemma_be_len(n as int);
        },
        ValueView::Integer(Integer::I64(n)) => {
            lemma_be_len(n as int);
        },
        ValueView::Extension(e) => {
            lemma_be_len(ext_payload(e).len() as int);
        },
        ValueView::String(chars) => {
            lemma_be_len(encode_utf8(chars).len() as int);
        },
        ValueView::Binary(b) => {
            lemma_be_len(b.len() as int);
        },
        ValueView::Array(items) => {
            lemma_be_len(items.len() as int);
        },
        ValueView::Mapping(pairs) => {
            lemma_be_len(pairs.len() as int);
        },
        _ => {},
    }
}

/// What a sequence of values comes back as.
pub open spec fn normalized_items(items: Seq<ValueView>) -> Seq<ValueView> {
    Seq::new(items.len(), |i: int| normalized(items[i]))
}

/// What a sequence of pairs comes back as.
pub open spec fn normalized_pairs(pairs: Seq<(ValueView, ValueView)>) -> Seq<
    (ValueView, ValueView),
> {
    Seq::new(pairs.len(), |i: int| (normalized(pairs[i].0), normalized(pairs[i].1)))
}

/// An array comes back as its elements come back, and a map as its pairs.
pub proof fn lemma_normalized_elements(
    items: Seq<ValueView>,
    pairs: Seq<(ValueView, ValueView)>,
)
    ensures
        normalized(ValueView::Array(items)) == ValueView::Array(normalized_items(items)),
        normalized(ValueView::Mapping(pairs)) == ValueView::Mapping(normalized_pairs(pairs)),
{
    assert(normalized(ValueView::Array(items))->Array_0 =~= normalized_items(items));
    assert(normalized(ValueView::Mapping(pairs))->Mapping_0 =~= normalized_pairs(pairs));
}

/// Round trip: the bytes of a value that can be written, whatever follows
/// them, are read as that value, normalized, and leave behind what follows.
pub proof fn lemma_round_trip(v: ValueView, rest: Seq<u8>)
    requires
        rejection(v) is None,
    ensures
        parse(encoding(v) + rest) == found(normalized(v), rest),
    decreases v, 0nat,
{
    let bytes = encoding(v) + rest;
    match v {
        ValueView::Nil => {
            assert(bytes.skip(1) =~= rest);
        },
        ValueView::Boolean(b) => {
            assert(bytes.skip(1) =~= rest);
        },
        ValueView::Integer(Integer::U64(n)) => {
            lemma_unsigned_round_trip(n, rest);
        },
        ValueView::Integer(Integer::I64(n)) => {
            lemma_signed_round_trip(n, rest);
        },
        ValueView::Float(bits) => {
            lemma_double_round_trip(bits, rest);
        },
        ValueView::String(chars) => {
            lemma_str_round_trip(chars, rest);
        },
        ValueView::Binary(payload) => {
            lemma_bin_round_trip(payload, rest);
        },
        ValueView::Array(items) => {
            lemma_array_round_trip(items, rest);
        },
        ValueView::Mapping(pairs) => {
            lemma_map_round_trip(pairs, rest);
        },
        ValueView::Extension(e) => {
            lemma_ext_round_trip(e, rest);
        },
    }
}

/// Round trip of an array.
pub proof fn lemma_array_round_trip(items: Seq<ValueView>, rest: Seq<u8>)
    requires
        array_rejection(items) is None,
    ensures
        parse(array_encoding(items) + rest) == found(
            normalized(ValueView::Array(items)),
            rest,
        ),
    decreases items, items.len() + 1,
{
    let h = array_header(items.len() as int);
    let tail = items_encoding(items, items.len()) + rest;
    let bytes = h + tail;
    let tag = h[0];
    let back = normalized_items(items);
    assert(array_encoding(items) + rest =~= bytes);
    assert(is_array_tag(tag) && bytes.len() > 0 && bytes[0] == tag && declared(
        array_width(tag),
        tag - FIXARRAY,
        bytes.skip(1),
    ) == found(items.len() as int, tail)) by {
        lemma_array_header(items.len() as int, tail);
    }
    assert(parse_items(tail, items.len()) == found(back, rest)) by {
        assert(items.skip(0) =~= items);
        lemma_items_round_trip(items, 0, rest);
    }
    lemma_arr_step(tag, bytes.skip(1), items.len() as int, tail, back, rest);
    lemma_normalized_elements(items, Seq::empty());
}

/// Round trip of a map.
pub proof fn lemma_map_round_trip(pairs: Seq<(ValueView, ValueView)>, rest: Seq<u8>)
    requires
        map_rejection(pairs) is None,
    ensures
        parse(map_encoding(pairs) + rest) == found(
            normalized(ValueView::Mapping(pairs)),
            rest,
        ),
    decreases pairs, pairs.len() + 1,
{
    let h = map_header(pairs.len() as int);
    let tail = pairs_encoding(pairs, pairs.len()) + rest;
    let bytes = h + tail;
    let tag = h[0];
    let back = normalized_pairs(pairs);
    assert(map_encoding(pairs) + rest =~= bytes);
    assert(is_map_tag(tag) && bytes.len() > 0 && bytes[0] == tag && declared(
        map_width(tag),
        tag - FIXMAP,
        bytes.skip(1),
    ) == found(pairs.len() as int, tail)) by {
        lemma_map_header(pairs.len() as int, tail);
    }
    assert(parse_pairs(tail, pairs.len()) == found(back, rest)) by {
        assert(pairs.skip(0) =~= pairs);
        lemma_pairs_round_trip(pairs, 0, rest);
    }
    lemma_map_step(tag, bytes.skip(1), pairs.len() as int, tail, back, rest);
    lemma_normalized_elements(Seq::empty(), pairs);
}

/// Round trip of the elements of an array from the `i`-th on.
pub proof fn lemma_items_round_trip(items: Seq<ValueView>, i: nat, rest: Seq<u8>)
    requires
        i <= items.len(),
        items_rejection(items, items.len()) is None,
    ensures
        parse_items(
            items_encoding(items.skip(i as int), (items.len() - i) as nat) + rest,
            (items.len() - i) as nat,
        ) == found(normalized_items(items.skip(i as int)), rest),
    decreases items, items.len() - i,
{
    let tail = items.skip(i as int);
    let n = (items.len() - i) as nat;
    if n == 0 {
        assert(items_encoding(tail, 0) + rest =~= rest);
        assert(normalized_items(tail) =~= Seq::<ValueView>::empty());
    } else {
        let first = items[i as int];
        let others = items.skip(i as int + 1);
        assert(tail[0] == first);
        assert(tail.skip(1) =~= others);
        lemma_items_encoding_splits(tail, n);
        let after = items_encoding(others, (n - 1) as nat) + rest;
        assert(items_encoding(tail, n) + rest =~= encoding(first) + after);
        lemma_items_accepted(items, items.len(), i as int);
        lemma_round_trip(first, after);
        lemma_encoding_is_not_empty(first);
        lemma_items_round_trip(items, i + 1, rest);
        assert(seq![normalized(first)] + normalized_items(others) =~= normalized_items(tail));
    }
}

/// Round trip of the pairs of a map from the `i`-th on.
pub proof fn lemma_pairs_round_trip(pairs: Seq<(ValueView, ValueView)>, i: nat, rest: Seq<u8>)
    requires
        i <= pairs.len(),
        pairs_rejection(pairs, pairs.len()) is None,
    ensures
        parse_pairs(
            pairs_encoding(pairs.skip(i as int), (pairs.len() - i) as nat) + rest,
            (pairs.len() - i) as nat,
        ) == found(normalized_pairs(pairs.skip(i as int)), rest),
    decreases pairs, pairs.len() - i,
{
    let tail = pairs.skip(i as int);
    let n = (pairs.len() - i) as nat;
    if n == 0 {
        assert(pairs_encoding(tail, 0) + rest =~= rest);
        assert(normalized_pairs(tail) =~= Seq::<(ValueView, ValueView)>::empty());
    } else {
        let first = pairs[i as int];
        let others = pairs.skip(i as int + 1);
        assert(tail[0] == first);
        assert(tail.skip(1) =~= others);
        lemma_pairs_encoding_splits(tail, n);
        let after = pairs_encoding(others, (n - 1) as nat) + rest;
        let middle = encoding(first.1) + after;
        assert(pairs_encoding(tail, n) + rest =~= encoding(first.0) + middle);
        lemma_pairs_accepted(pairs, pairs.len(), i as int);
        lemma_round_trip(first.0, middle);
        lemma_round_trip(first.1, after);
        lemma_encoding_is_not_empty(first.0);
        lemma_encoding_is_not_empty(first.1);
        lemma_pairs_round_trip(pairs, i + 1, rest);
        assert(seq![(normalized(first.0), normalized(first.1))] + normalized_pairs(others)
            =~= normalized_pairs(tail));
    }
}

/// A faithful value that can be written is read back from its bytes as it
/// is.
pub proof fn lemma_round_trip_of_faithful(v: ValueView, rest: Seq<u8>)
    requires
        rejection(v) is None,
        faithful(v),
    ensures
        parse(encoding(v) + rest) == found(v, rest),
{
    lemma_round_trip(v, rest);
    lemma_faithful_is_kept(v);
}

} // verus!
