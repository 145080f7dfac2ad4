//! Minimality: the encoder picks the narrowest form, so that no bytes that
//! read as a value are fewer than the bytes that the value is written as.
//!
//! Two kinds of value have a shorter form that the encoder never writes: a
//! number that single precision can hold, which is always written in double
//! precision, and a timestamp whose nanoseconds reach a full second, which is
//! written in the 96-bit form even where its seconds fit 34 bits. A `tight`
//! value holds neither.

use crate::bytes::{lemma_be_len, lemma_be_of_value};
use crate::float::widened;
use crate::laws::roundtrip::{lemma_items_encoding_splits, lemma_pairs_encoding_splits};
use crate::parse::{
    declared, field_i8, lemma_declared_follows, parse, parse_arr, parse_bin, parse_ext, parse_float,
    parse_int, parse_items, parse_map, parse_pairs, parse_str, parse_tagged, take,
};
use crate::timestamp::{
    canonical, lemma_canonical_is_fixed, lemma_unpack_packed, lemma_unpacked_in_range, unpacked,
    TIMESTAMP_TYPE,
};
use crate::value::{Integer, ValueView};
use crate::wire::{
    array_header, array_width, bin_header, bin_width, encoding, ext_fixed_len, ext_header,
    ext_payload, ext_width, is_array_tag, is_ext_tag, is_map_tag, items_encoding, items_rejection,
    lemma_items_accepted, lemma_pairs_accepted, map_header, map_width, pairs_encoding,
    pairs_rejection, rejection, signed_encoding, str_header, str_width, unsigned_encoding, FALSE,
    FIXARRAY, FIXMAP, FIXSTR, NIL, TRUE,
};
use vstd::prelude::*;
use vstd::utf8::decode_utf8_encode_utf8;

verus! {

/// A value of which no form is shorter than the one the encoder writes: it
/// holds no number that single precision can hold, and no timestamp whose
/// nanoseconds reach a full second while its seconds fit 34 bits.
pub open spec fn tight(v: ValueView) -> bool
    decreases v,
{
    match v {
        ValueView::Float(bits) => forall|single: u32| #[trigger] widened(single) != bits,
        ValueView::Array(items) => forall|i: int|
            0 <= i < items.len() ==> tight(#[trigger] items[i]),
        ValueView::Mapping(pairs) => forall|i: int|
            0 <= i < pairs.len() ==> tight((#[trigger] pairs[i]).0) && tight(pairs[i].1),
        ValueView::Extension(e) => e.type_id == TIMESTAMP_TYPE ==> match unpacked(e.data) {
            Some((secs, nanos)) => !(nanos >= 1_000_000_000 && 0 <= secs < 0x4_0000_0000),
            None => true,
        },
        _ => true,
    }
}

/// How many bytes an integer is written as.
pub proof fn lemma_integer_len(x: int)
    ensures
        0 <= x <= 0x7f ==> unsigned_encoding(x).len() == 1,
        0x7f < x <= 0xff ==> unsigned_encoding(x).len() == 2,
        0xff < x <= 0xffff ==> unsigned_encoding(x).len() == 3,
        0xffff < x <= 0xffff_ffff ==> unsigned_encoding(x).len() == 5,
        0xffff_ffff < x ==> unsigned_encoding(x).len() == 9,
        -32 <= x < 0 ==> signed_encoding(x).len() == 1,
        -0x80 <= x < -32 ==> signed_encoding(x).len() == 2,
        -0x8000 <= x < -0x80 ==> signed_encoding(x).len() == 3,
        -0x8000_0000 <= x < -0x8000 ==> signed_encoding(x).len() == 5,
        x < -0x8000_0000 ==> signed_encoding(x).len() == 9,
        x >= 0 ==> signed_encoding(x) == unsigned_encoding(x),
{
    lemma_be_len(x);
}

/// How many bytes a header is written as.
pub proof fn lemma_header_len(len: int, type_id: int)
    ensures
        len <= 31 ==> str_header(len).len() == 1,
        31 < len <= 0xff ==> str_header(len).len() == 2,
        0xff < len <= 0xffff ==> str_header(len).len() == 3,
        0xffff < len ==> str_header(len).len() == 5,
        len <= 0xff ==> bin_header(len).len() == 2,
        0xff < len <= 0xffff ==> bin_header(len).len() == 3,
        0xffff < len ==> bin_header(len).len() == 5,
        len <= 15 ==> array_header(len).len() == 1 && map_header(len).len() == 1,
        15 < len <= 0xffff ==> array_header(len).len() == 3 && map_header(len).len() == 3,
        0xffff < len ==> array_header(len).len() == 5 && map_header(len).len() == 5,
        len == 1 || len == 2 || len == 4 || len == 8 || len == 16 ==> ext_header(
            len,
            type_id,
        ).len() == 2,
        len <= 0xff ==> ext_header(len, type_id).len() <= 3,
        len <= 0xffff ==> ext_header(len, type_id).len() <= 4,
        ext_header(len, type_id).len() <= 6,
{
    lemma_be_len(len);
}

/// A timestamp's narrowest payload is no longer than any payload of its
/// instant, unless that one packs a full second of nanoseconds into the
/// 64-bit form.
pub proof fn lemma_canonical_is_narrowest(payload: Seq<u8>)
    requires
        unpacked(payload) is Some,
        !(unpacked(payload).unwrap().1 >= 1_000_000_000 && 0 <= unpacked(payload).unwrap().0
            < 0x4_0000_0000),
    ensures
        canonical(payload).unwrap().len() <= payload.len(),
{
    let (secs, nanos) = unpacked(payload).unwrap();
    lemma_unpacked_in_range(payload);
    lemma_unpack_packed(secs, nanos);
    lemma_be_len(secs);
    lemma_be_len(nanos);
    lemma_be_len(nanos * 0x4_0000_0000 + secs);
    lemma_be_of_value(payload);
}

/// Where each of some elements can be written, none of them is rejected.
pub proof fn lemma_items_all_accepted(items: Seq<ValueView>, n: nat)
    requires
        n <= items.len(),
        forall|i: int| 0 <= i < n ==> rejection(#[trigger] items[i]) is None,
    ensures
        items_rejection(items, n) is None,
    decreases n,
{
    if n > 0 {
        lemma_items_all_accepted(items, (n - 1) as nat);
    }
}

/// Where each key and value of some pairs can be written, none of them is
/// rejected.
pub proof fn lemma_pairs_all_accepted(pairs: Seq<(ValueView, ValueView)>, n: nat)
    requires
        n <= pairs.len(),
        forall|i: int|
            0 <= i < n ==> rejection((#[trigger] pairs[i]).0) is None && rejection(pairs[i].1)
                is None,
    ensures
        pairs_rejection(pairs, n) is None,
    decreases n,
{
    if n > 0 {
        lemma_pairs_all_accepted(pairs, (n - 1) as nat);
    }
}

/// Of a scalar that was read: it can be written, and that takes no more
/// bytes than it was read from.
pub proof fn lemma_scalar_is_shortest(tag: u8, rest: Seq<u8>)
    ensures
        parse_int(tag, rest) matches Ok((v, r)) ==> rejection(v) is None && encoding(v).len()
            + r.len() <= 1 + rest.len(),
        parse_float(tag, rest) matches Ok((v, r)) ==> rejection(v) is None && (tight(v)
            ==> encoding(v).len() + r.len() <= 1 + rest.len()),
        parse_str(tag, rest) matches Ok((chars, r)) ==> rejection(ValueView::String(chars))
            is None && encoding(ValueView::String(chars)).len() + r.len() <= 1 + rest.len(),
        parse_bin(tag, rest) matches Ok((v, r)) ==> rejection(v) is None && encoding(v).len()
            + r.len() <= 1 + rest.len(),
{
    lemma_int_is_shortest(tag, rest);
    lemma_float_is_shortest(tag, rest);
    lemma_str_is_shortest(tag, rest);
    lemma_bin_is_shortest(tag, rest);
}

proof fn lemma_int_is_shortest(tag: u8, rest: Seq<u8>)
    ensures
        parse_int(tag, rest) matches Ok((v, r)) ==> rejection(v) is None && encoding(v).len()
            + r.len() <= 1 + rest.len(),
{
    if parse_int(tag, rest) is Ok {
        let (v, r) = parse_int(tag, rest)->Ok_0;
        match v {
            ValueView::Integer(Integer::U64(n)) => {
                lemma_integer_len(n as int);
            },
            ValueView::Integer(Integer::I64(n)) => {
                lemma_integer_len(n as int);
            },
            _ => {},
        }
        if rest.len() >= 1 {
            lemma_be_of_value(rest.take(1));
        }
        if rest.len() >= 2 {
            lemma_be_of_value(rest.take(2));
        }
        if rest.len() >= 4 {
            lemma_be_of_value(rest.take(4));
        }
        if rest.len() >= 8 {
            lemma_be_of_value(rest.take(8));
        }
    }
}

proof fn lemma_float_is_shortest(tag: u8, rest: Seq<u8>)
    ensures
        parse_float(tag, rest) matches Ok((v, r)) ==> rejection(v) is None && (tight(v)
            ==> encoding(v).len() + r.len() <= 1 + rest.len()),
{
    if parse_float(tag, rest) is Ok {
        let (v, r) = parse_float(tag, rest)->Ok_0;
        lemma_be_len(v->Float_0 as int);
    }
}

proof fn lemma_str_is_shortest(tag: u8, rest: Seq<u8>)
    ensures
        parse_str(tag, rest) matches Ok((chars, r)) ==> rejection(ValueView::String(chars))
            is None && encoding(ValueView::String(chars)).len() + r.len() <= 1 + rest.len(),
{
    if parse_str(tag, rest) is Ok {
        let width = str_width(tag);
        lemma_declared_follows(width, tag - FIXSTR, rest);
        let (len, after) = declared(width, tag - FIXSTR, rest)->Ok_0;
        let (payload, r) = take(after, len)->Ok_0;
        decode_utf8_encode_utf8(payload);
        lemma_header_len(len, 0);
    }
}

proof fn lemma_bin_is_shortest(tag: u8, rest: Seq<u8>)
    ensures
        parse_bin(tag, rest) matches Ok((v, r)) ==> rejection(v) is None && encoding(v).len()
            + r.len() <= 1 + rest.len(),
{
    if parse_bin(tag, rest) is Ok {
        let width = bin_width(tag);
        lemma_declared_follows(width, 0, rest);
        let (len, after) = declared(width, 0, rest)->Ok_0;
        lemma_header_len(len, 0);
    }
}

/// Of an extension that was read: it can be written, and, if it is tight,
/// that takes no more bytes than it was read from.
pub proof fn lemma_ext_is_shortest(tag: u8, rest: Seq<u8>)
    ensures
        parse_ext(tag, rest) matches Ok((v, r)) ==> rejection(v) is None && (tight(v)
            ==> encoding(v).len() + r.len() <= 1 + rest.len()),
{
    if parse_ext(tag, rest) is Ok {
        let (v, r) = parse_ext(tag, rest)->Ok_0;
        let width = ext_width(tag);
        let fixed = ext_fixed_len(tag);
        lemma_declared_follows(width, fixed, rest);
        let (len, after) = declared(width, fixed, rest)->Ok_0;
        let (type_id, after_id) = field_i8(after)->Ok_0;
        let (payload, end) = take(after_id, len)->Ok_0;
        let e = v->Extension_0;
        if type_id == TIMESTAMP_TYPE {
            lemma_canonical_is_fixed(payload);
            lemma_unpacked_in_range(payload);
            let (secs, nanos) = unpacked(payload).unwrap();
            lemma_unpack_packed(secs, nanos);
            assert(e.data == canonical(payload).unwrap());
            assert(unpacked(e.data) == Some((secs, nanos)));
            assert(ext_payload(e) == e.data);
            if tight(v) {
                lemma_canonical_is_narrowest(payload);
            }
            lemma_header_len(e.data.len() as int, -1);
        } else {
            lemma_header_len(len, type_id as int);
        }
    }
}

/// Minimality: a value that was read can be written, and the bytes it is
/// written as are no more than the bytes it was read from, if the value is
/// tight.
pub proof fn lemma_encoding_is_shortest(bytes: Seq<u8>)
    ensures
        parse(bytes) matches Ok((v, rest)) ==> rejection(v) is None && (tight(v) ==> encoding(
            v,
        ).len() + rest.len() <= bytes.len()),
    decreases bytes.len(), 0nat, 0nat,
{
    if bytes.len() > 0 {
        lemma_tagged_is_shortest(bytes[0], bytes.skip(1));
    }
}

/// Minimality of what was read under a tag.
pub proof fn lemma_tagged_is_shortest(tag: u8, rest: Seq<u8>)
    ensures
        parse_tagged(tag, rest) matches Ok((v, r)) ==> rejection(v) is None && (tight(v)
            ==> encoding(v).len() + r.len() <= 1 + rest.len()),
    decreases rest.len(), 3nat, 0nat,
{
    if tag == NIL || tag == FALSE || tag == TRUE {
    } else if is_array_tag(tag) {
        lemma_arr_is_shortest(tag, rest);
    } else if is_map_tag(tag) {
        lemma_map_is_shortest(tag, rest);
    } else if is_ext_tag(tag) {
        lemma_ext_is_shortest(tag, rest);
    } else {
        lemma_scalar_is_shortest(tag, rest);
    }
}

/// Minimality of an array that was read.
pub proof fn lemma_arr_is_shortest(tag: u8, rest: Seq<u8>)
    ensures
        parse_arr(tag, rest) matches Ok((v, r)) ==> rejection(v) is None && (tight(v)
            ==> encoding(v).len() + r.len() <= 1 + rest.len()),
    decreases rest.len(), 2nat, 0nat,
{
    if parse_arr(tag, rest) is Ok {
        let (v, r) = parse_arr(tag, rest)->Ok_0;
        let width = array_width(tag);
        lemma_declared_follows(width, tag - FIXARRAY, rest);
        let (count, after) = declared(width, tag - FIXARRAY, rest)->Ok_0;
        lemma_items_are_shortest(after, count as nat);
        let items = v->Array_0;
        lemma_header_len(count, 0);
        assert(tight(v) ==> forall|i: int| 0 <= i < items.len() ==> tight(#[trigger] items[i]));
    }
}

/// Minimality of a map that was read.
pub proof fn lemma_map_is_shortest(tag: u8, rest: Seq<u8>)
    ensures
        parse_map(tag, rest) matches Ok((pairs, r)) ==> rejection(ValueView::Mapping(pairs))
            is None && (tight(ValueView::Mapping(pairs)) ==> encoding(
            ValueView::Mapping(pairs),
        ).len() + r.len() <= 1 + rest.len()),
    decreases rest.len(), 2nat, 0nat,
{
    if parse_map(tag, rest) is Ok {
        let (pairs, r) = parse_map(tag, rest)->Ok_0;
        let width = map_width(tag);
        lemma_declared_follows(width, tag - FIXMAP, rest);
        let (count, after) = declared(width, tag - FIXMAP, rest)->Ok_0;
        lemma_pairs_are_shortest(after, count as nat);
        lemma_header_len(count, 0);
        assert(tight(ValueView::Mapping(pairs)) ==> forall|i: int|
            0 <= i < pairs.len() ==> tight((#[trigger] pairs[i]).0) && tight(pairs[i].1));
    }
}

/// Minimality of values that were read one after the other.
pub proof fn lemma_items_are_shortest(bytes: Seq<u8>, n: nat)
    ensures
        parse_items(bytes, n) matches Ok((items, rest)) ==> {
            &&& items.len() == n
            &&& items_rejection(items, n) is None
            &&& (forall|i: int| 0 <= i < n ==> tight(#[trigger] items[i])) ==> items_encoding(
                items,
                n,
            ).len() + rest.len() <= bytes.len()
        },
    decreases bytes.len(), 1nat, n,
{
    if n > 0 && parse_items(bytes, n) is Ok {
        let (items, rest) = parse_items(bytes, n)->Ok_0;
        let (first, after) = parse(bytes)->Ok_0;
        let (others, end) = parse_items(after, (n - 1) as nat)->Ok_0;
        lemma_encoding_is_shortest(bytes);
        lemma_items_are_shortest(after, (n - 1) as nat);
        assert(items =~= seq![first] + others);
        assert(items.skip(1) =~= others);
        assert(items[0] == first);
        lemma_items_encoding_splits(items, n);
        assert forall|i: int| 0 <= i < n implies rejection(#[trigger] items[i]) is None by {
            if i > 0 {
                assert(items[i] == others[i - 1]);
                lemma_items_accepted(others, (n - 1) as nat, i - 1);
            }
        }
        lemma_items_all_accepted(items, n);
        if forall|i: int| 0 <= i < n ==> tight(#[trigger] items[i]) {
            assert forall|i: int| 0 <= i < n - 1 implies tight(#[trigger] others[i]) by {
                assert(others[i] == items[i + 1]);
            }
        }
    }
}

/// Minimality of pairs that were read one after the other.
pub proof fn lemma_pairs_are_shortest(bytes: Seq<u8>, n: nat)
    ensures
        parse_pairs(bytes, n) matches Ok((pairs, rest)) ==> {
            &&& pairs.len() == n
            &&& pairs_rejection(pairs, n) is None
            &&& (forall|i: int|
                0 <= i < n ==> tight((#[trigger] pairs[i]).0) && tight(pairs[i].1))
                ==> pairs_encoding(pairs, n).len() + rest.len() <= bytes.len()
        },
    decreases bytes.len(), 1nat, n,
{
    if n > 0 && parse_pairs(bytes, n) is Ok {
        let (pairs, rest) = parse_pairs(bytes, n)->Ok_0;
        let (key, after_key) = parse(bytes)->Ok_0;
        let (value, after) = parse(after_key)->Ok_0;
        let (others, end) = parse_pairs(after, (n - 1) as nat)->Ok_0;
        lemma_encoding_is_shortest(bytes);
        lemma_encoding_is_shortest(after_key);
        lemma_pairs_are_shortest(after, (n - 1) as nat);
        assert(pairs =~= seq![(key, value)] + others);
        assert(pairs.skip(1) =~= others);
        assert(pairs[0] == (key, value));
        lemma_pairs_encoding_splits(pairs, n);
        assert forall|i: int| 0 <= i < n implies rejection((#[trigger] pairs[i]).0) is None
            && rejection(pairs[i].1) is None by {
            if i > 0 {
                assert(pairs[i] == others[i - 1]);
                lemma_pairs_accepted(others, (n - 1) as nat, i - 1);
            }
        }
        lemma_pairs_all_accepted(pairs, n);
        if forall|i: int| 0 <= i < n ==> tight((#[trigger] pairs[i]).0) && tight(pairs[i].1) {
            assert forall|i: int| 0 <= i < n - 1 implies tight((#[trigger] others[i]).0)
                && tight(others[i].1) by {
                assert(others[i] == pairs[i + 1]);
            }
        }
    }
}

} // verus!
