//! Reading looks at no byte behind the value, and cannot do with fewer bytes
//! than the value has: the bytes that a value was read from give the same
//! value whatever follows them, and any shorter start of them gives
//! `UnexpectedEof` and never a partial value.

use crate::error::ErrorView;
use crate::laws::fields::lemma_take_front;
use crate::parse::{
    declared, failed, field_i16, field_i32, field_i64, field_i8, field_u16, field_u32, field_u64,
    field_u8, follows, found, lemma_arr_step, lemma_declared_follows, lemma_follows_chain,
    lemma_items_follow, lemma_items_step, lemma_map_step, lemma_pairs_follow, lemma_pairs_step,
    lemma_parse_follows, lemma_tagged_follows, parse, parse_arr, parse_bin, parse_ext, parse_float,
    parse_int, parse_items, parse_map, parse_pairs, parse_str, parse_tagged, take,
};
use crate::value::ValueView;
use crate::wire::{
    array_width, bin_width, ext_fixed_len, ext_width, is_array_tag, is_bin_tag, is_ext_tag,
    is_float_tag, is_map_tag, is_signed_tag, is_str_tag, is_unsigned_tag, map_width, str_width,
    FALSE, FIXARRAY, FIXMAP, FIXSTR, NIL, TRUE,
};
use vstd::prelude::*;

verus! {

/// The bytes that reading used, where it went from `bytes` to `rest`.
pub open spec fn consumed(bytes: Seq<u8>, rest: Seq<u8>) -> Seq<u8> {
    bytes.take(bytes.len() - rest.len())
}

/// What was used in two steps is what was used in the first, then what was
/// used in the second.
pub proof fn lemma_consumed_chain(bytes: Seq<u8>, middle: Seq<u8>, rest: Seq<u8>)
    requires
        follows(middle, bytes),
        follows(rest, middle),
    ensures
        consumed(bytes, rest) == consumed(bytes, middle) + consumed(middle, rest),
        follows(rest, bytes),
{
    lemma_follows_chain(rest, middle, bytes);
    assert(consumed(bytes, rest) =~= consumed(bytes, middle) + consumed(middle, rest));
}

/// What was used in three steps, with `x` behind it, is what was used in
/// the first, then what was used in the second, then what was used in the
/// third with `x` behind it.
pub proof fn lemma_consumed_thrice(
    bytes: Seq<u8>,
    first: Seq<u8>,
    second: Seq<u8>,
    rest: Seq<u8>,
    x: Seq<u8>,
)
    requires
        follows(first, bytes),
        follows(second, first),
        follows(rest, second),
    ensures
        consumed(bytes, rest) + x == consumed(bytes, first) + (consumed(first, second) + (
            consumed(second, rest) + x)),
        consumed(first, rest) + x == consumed(first, second) + (consumed(second, rest) + x),
{
    lemma_consumed_chain(first, second, rest);
    lemma_consumed_chain(bytes, first, rest);
    assert(consumed(bytes, rest) + x =~= consumed(bytes, first) + (consumed(first, second) + (
        consumed(second, rest) + x)));
    assert(consumed(first, rest) + x =~= consumed(first, second) + (consumed(second, rest) + x));
}

/// A start of what was used in two steps that reaches into the second step
/// is what was used in the first, then a start of the second.
pub proof fn lemma_consumed_start(bytes: Seq<u8>, middle: Seq<u8>, rest: Seq<u8>, k: int)
    requires
        follows(middle, bytes),
        follows(rest, middle),
        bytes.len() - middle.len() <= k <= bytes.len() - rest.len(),
    ensures
        consumed(bytes, rest).take(k) == consumed(bytes, middle) + consumed(middle, rest).take(
            k - (bytes.len() - middle.len()),
        ),
{
    assert(consumed(bytes, rest).take(k) =~= consumed(bytes, middle) + consumed(
        middle,
        rest,
    ).take(k - (bytes.len() - middle.len())));
}

/// A start of what was used in two steps that ends within the first step is
/// a start of the first.
pub proof fn lemma_consumed_early(bytes: Seq<u8>, middle: Seq<u8>, rest: Seq<u8>, k: int)
    requires
        follows(middle, bytes),
        follows(rest, middle),
        0 <= k <= bytes.len() - middle.len(),
    ensures
        consumed(bytes, rest).take(k) == consumed(bytes, middle).take(k),
{
    assert(consumed(bytes, rest).take(k) =~= consumed(bytes, middle).take(k));
}

/// A field that was read is read again from the bytes it used, whatever
/// follows them, and not from fewer.
pub proof fn lemma_take_again(bytes: Seq<u8>, n: int, x: Seq<u8>, k: int)
    requires
        take(bytes, n) is Ok,
    ensures
        take(consumed(bytes, take(bytes, n)->Ok_0.1) + x, n) == found(take(bytes, n)->Ok_0.0, x),
        0 <= k < n ==> take(consumed(bytes, take(bytes, n)->Ok_0.1).take(k), n) == failed::<
            Seq<u8>,
        >(ErrorView::UnexpectedEof),
        consumed(bytes, take(bytes, n)->Ok_0.1) == bytes.take(n),
{
    assert(consumed(bytes, bytes.skip(n)) =~= bytes.take(n));
    lemma_take_front(bytes.take(n), x);
}

/// A number that was read is read again from the bytes it used, whatever
/// follows them, and not from fewer.
pub proof fn lemma_fields_again(bytes: Seq<u8>, x: Seq<u8>, k: int)
    ensures
        field_u8(bytes) matches Ok((v, r)) ==> field_u8(consumed(bytes, r) + x) == found(v, x)
            && (0 <= k < 1 ==> field_u8(consumed(bytes, r).take(k)) == failed::<u8>(
            ErrorView::UnexpectedEof,
        )),
        field_u16(bytes) matches Ok((v, r)) ==> field_u16(consumed(bytes, r) + x) == found(v, x)
            && (0 <= k < 2 ==> field_u16(consumed(bytes, r).take(k)) == failed::<u16>(
            ErrorView::UnexpectedEof,
        )),
        field_u32(bytes) matches Ok((v, r)) ==> field_u32(consumed(bytes, r) + x) == found(v, x)
            && (0 <= k < 4 ==> field_u32(consumed(bytes, r).take(k)) == failed::<u32>(
            ErrorView::UnexpectedEof,
        )),
        field_u64(bytes) matches Ok((v, r)) ==> field_u64(consumed(bytes, r) + x) == found(v, x)
            && (0 <= k < 8 ==> field_u64(consumed(bytes, r).take(k)) == failed::<u64>(
            ErrorView::UnexpectedEof,
        )),
        field_i8(bytes) matches Ok((v, r)) ==> field_i8(consumed(bytes, r) + x) == found(v, x)
            && (0 <= k < 1 ==> field_i8(consumed(bytes, r).take(k)) == failed::<i8>(
            ErrorView::UnexpectedEof,
        )),
        field_i16(bytes) matches Ok((v, r)) ==> field_i16(consumed(bytes, r) + x) == found(v, x)
            && (0 <= k < 2 ==> field_i16(consumed(bytes, r).take(k)) == failed::<i16>(
            ErrorView::UnexpectedEof,
        )),
        field_i32(bytes) matches Ok((v, r)) ==> field_i32(consumed(bytes, r) + x) == found(v, x)
            && (0 <= k < 4 ==> field_i32(consumed(bytes, r).take(k)) == failed::<i32>(
            ErrorView::UnexpectedEof,
        )),
        field_i64(bytes) matches Ok((v, r)) ==> field_i64(consumed(bytes, r) + x) == found(v, x)
            && (0 <= k < 8 ==> field_i64(consumed(bytes, r).take(k)) == failed::<i64>(
            ErrorView::UnexpectedEof,
        )),
{
    if take(bytes, 1) is Ok {
        lemma_take_again(bytes, 1, x, k);
    }
    if take(bytes, 2) is Ok {
        lemma_take_again(bytes, 2, x, k);
    }
    if take(bytes, 4) is Ok {
        lemma_take_again(bytes, 4, x, k);
    }
    if take(bytes, 8) is Ok {
        lemma_take_again(bytes, 8, x, k);
    }
}

/// A declared length that was read is read again from the bytes it used,
/// whatever follows them, and not from fewer.
pub proof fn lemma_declared_again(width: int, fixed: int, bytes: Seq<u8>, x: Seq<u8>, k: int)
    requires
        width == 0 || width == 1 || width == 2 || width == 4,
        declared(width, fixed, bytes) is Ok,
    ensures
        declared(width, fixed, consumed(bytes, declared(width, fixed, bytes)->Ok_0.1) + x)
            == found(declared(width, fixed, bytes)->Ok_0.0, x),
        0 <= k < width ==> declared(
            width,
            fixed,
            consumed(bytes, declared(width, fixed, bytes)->Ok_0.1).take(k),
        ) == failed::<int>(ErrorView::UnexpectedEof),
        consumed(bytes, declared(width, fixed, bytes)->Ok_0.1).len() == width,
{
    lemma_fields_again(bytes, x, k);
    lemma_declared_follows(width, fixed, bytes);
    if width == 0 {
        assert(consumed(bytes, bytes) + x =~= x);
    }
}

/// Of a length or count that was read, and of what was read behind it up to
/// `r`: the bytes that the two used are the bytes that the length used, then
/// the bytes that were used behind it; and the length is read again from
/// them, whatever follows.
pub proof fn lemma_declared_then(
    width: int,
    fixed: int,
    bytes: Seq<u8>,
    r: Seq<u8>,
    x: Seq<u8>,
)
    requires
        width == 0 || width == 1 || width == 2 || width == 4,
        declared(width, fixed, bytes) is Ok,
        follows(r, declared(width, fixed, bytes)->Ok_0.1),
    ensures
        ({
            let count = declared(width, fixed, bytes)->Ok_0.0;
            let after = declared(width, fixed, bytes)->Ok_0.1;
            let tail = consumed(after, r) + x;
            &&& consumed(bytes, r) + x == consumed(bytes, after) + tail
            &&& declared(width, fixed, consumed(bytes, after) + tail) == found(count, tail)
            &&& follows(r, bytes)
            &&& follows(after, bytes)
        }),
{
    let after = declared(width, fixed, bytes)->Ok_0.1;
    let tail = consumed(after, r) + x;
    lemma_declared_follows(width, fixed, bytes);
    lemma_consumed_chain(bytes, after, r);
    lemma_declared_again(width, fixed, bytes, tail, 0);
    assert(consumed(bytes, r) + x =~= consumed(bytes, after) + tail);
}

/// An integer or a floating-point number that was read is read again from
/// the bytes it used, whatever follows them, and not from fewer.
pub proof fn lemma_numbers_again(tag: u8, rest: Seq<u8>, x: Seq<u8>, k: int)
    ensures
        parse_int(tag, rest) matches Ok((v, r)) ==> parse_int(tag, consumed(rest, r) + x)
            == found(v, x) && (0 <= k < rest.len() - r.len() ==> parse_int(
            tag,
            consumed(rest, r).take(k),
        ) == failed::<ValueView>(ErrorView::UnexpectedEof)),
        parse_float(tag, rest) matches Ok((v, r)) ==> parse_float(tag, consumed(rest, r) + x)
            == found(v, x) && (0 <= k < rest.len() - r.len() ==> parse_float(
            tag,
            consumed(rest, r).take(k),
        ) == failed::<ValueView>(ErrorView::UnexpectedEof)),
{
    lemma_fields_again(rest, x, k);
    assert(consumed(rest, rest) + x =~= x);
}

/// A string that was read is read again from the bytes it used, whatever
/// follows them, and not from fewer.
pub proof fn lemma_str_again(tag: u8, rest: Seq<u8>, x: Seq<u8>, k: int)
    ensures
        parse_str(tag, rest) matches Ok((v, r)) ==> parse_str(tag, consumed(rest, r) + x)
            == found(v, x) && (0 <= k < rest.len() - r.len() ==> parse_str(
            tag,
            consumed(rest, r).take(k),
        ) == failed::<Seq<char>>(ErrorView::UnexpectedEof)),
{
    if parse_str(tag, rest) is Ok {
        let width = str_width(tag);
        let fixed = tag - FIXSTR;
        let (len, after) = declared(width, fixed, rest)->Ok_0;
        let (payload, r) = take(after, len)->Ok_0;
        lemma_declared_follows(width, fixed, rest);
        lemma_consumed_chain(rest, after, r);
        let body = consumed(after, r);
        lemma_declared_again(width, fixed, rest, body + x, k);
        lemma_take_again(after, len, x, 0);
        assert(consumed(rest, r) + x =~= consumed(rest, after) + (body + x));
        if 0 <= k < rest.len() - r.len() {
            if k >= width {
                lemma_consumed_start(rest, after, r, k);
                lemma_declared_again(width, fixed, rest, body.take(k - width), k);
            } else {
                lemma_consumed_early(rest, after, r, k);
            }
        }
    }
}

/// A binary that was read is read again from the bytes it used, whatever
/// follows them, and not from fewer.
pub proof fn lemma_bin_again(tag: u8, rest: Seq<u8>, x: Seq<u8>, k: int)
    ensures
        parse_bin(tag, rest) matches Ok((v, r)) ==> parse_bin(tag, consumed(rest, r) + x)
            == found(v, x) && (0 <= k < rest.len() - r.len() ==> parse_bin(
            tag,
            consumed(rest, r).take(k),
        ) == failed::<ValueView>(ErrorView::UnexpectedEof)),
{
    if parse_bin(tag, rest) is Ok {
        let width = bin_width(tag);
        let (len, after) = declared(width, 0, rest)->Ok_0;
        let (payload, r) = take(after, len)->Ok_0;
        lemma_declared_follows(width, 0, rest);
        lemma_consumed_chain(rest, after, r);
        let body = consumed(after, r);
        lemma_declared_again(width, 0, rest, body + x, k);
        lemma_take_again(after, len, x, 0);
        assert(consumed(rest, r) + x =~= consumed(rest, after) + (body + x));
        if 0 <= k < rest.len() - r.len() {
            if k >= width {
                lemma_consumed_start(rest, after, r, k);
                lemma_declared_again(width, 0, rest, body.take(k - width), k);
            } else {
                lemma_consumed_early(rest, after, r, k);
            }
        }
    }
}

/// An extension that was read is read again from the bytes it used, whatever
/// follows them, and not from fewer.
pub proof fn lemma_ext_again(tag: u8, rest: Seq<u8>, x: Seq<u8>, k: int)
    ensures
        parse_ext(tag, rest) matches Ok((v, r)) ==> parse_ext(tag, consumed(rest, r) + x)
            == found(v, x) && (0 <= k < rest.len() - r.len() ==> parse_ext(
            tag,
            consumed(rest, r).take(k),
        ) == failed::<ValueView>(ErrorView::UnexpectedEof)),
{
    lemma_ext_whole(tag, rest, x);
    lemma_ext_cut(tag, rest, k);
}

proof fn lemma_ext_whole(tag: u8, rest: Seq<u8>, x: Seq<u8>)
    ensures
        parse_ext(tag, rest) matches Ok((v, r)) ==> parse_ext(tag, consumed(rest, r) + x)
            == found(v, x),
{
    if parse_ext(tag, rest) is Ok {
        let width = ext_width(tag);
        let fixed = ext_fixed_len(tag);
        let (len, after) = declared(width, fixed, rest)->Ok_0;
        let (type_id, after_id) = field_i8(after)->Ok_0;
        let (payload, r) = take(after_id, len)->Ok_0;
        lemma_declared_follows(width, fixed, rest);
        lemma_consumed_chain(after, after_id, r);
        lemma_consumed_chain(rest, after, r);
        let id = consumed(after, after_id);
        let body = consumed(after_id, r);
        lemma_declared_again(width, fixed, rest, id + (body + x), 0);
        lemma_fields_again(after, body + x, 0);
        lemma_take_again(after_id, len, x, 0);
        assert(consumed(rest, r) + x =~= consumed(rest, after) + (id + (body + x)));
    }
}

proof fn lemma_ext_cut(tag: u8, rest: Seq<u8>, k: int)
    ensures
        parse_ext(tag, rest) matches Ok((v, r)) ==> (0 <= k < rest.len() - r.len()
            ==> parse_ext(tag, consumed(rest, r).take(k)) == failed::<ValueView>(
            ErrorView::UnexpectedEof,
        )),
{
    if parse_ext(tag, rest) is Ok {
        let width = ext_width(tag);
        let fixed = ext_fixed_len(tag);
        let (len, after) = declared(width, fixed, rest)->Ok_0;
        let (type_id, after_id) = field_i8(after)->Ok_0;
        let (payload, r) = take(after_id, len)->Ok_0;
        if 0 <= k < rest.len() - r.len() {
            lemma_declared_follows(width, fixed, rest);
            lemma_consumed_chain(after, after_id, r);
            lemma_consumed_chain(rest, after, r);
            let id = consumed(after, after_id);
            let body = consumed(after_id, r);
            if k >= width + 1 {
                let short = body.take(k - width - 1);
                lemma_consumed_start(rest, after, r, k);
                lemma_consumed_start(after, after_id, r, k - width);
                lemma_declared_again(width, fixed, rest, id + short, 0);
                lemma_fields_again(after, short, 0);
            } else if k >= width {
                lemma_consumed_start(rest, after, r, k);
                lemma_consumed_early(after, after_id, r, k - width);
                lemma_declared_again(width, fixed, rest, id.take(k - width), 0);
                lemma_fields_again(after, rest, k - width);
            } else {
                lemma_consumed_early(rest, after, r, k);
                lemma_declared_again(width, fixed, rest, rest, k);
            }
        }
    }
}

/// Reading looks at no byte behind the value: the bytes that a value was
/// read from give the same value whatever follows them.
pub proof fn lemma_parse_again(bytes: Seq<u8>, x: Seq<u8>)
    ensures
        parse(bytes) matches Ok((v, rest)) ==> parse(consumed(bytes, rest) + x) == found(v, x),
    decreases bytes.len(), 0nat, 0nat,
{
    if bytes.len() > 0 && parse(bytes) is Ok {
        let tag = bytes[0];
        let after = bytes.skip(1);
        let (v, rest) = parse(bytes)->Ok_0;
        lemma_tagged_follows(tag, after);
        assert(follows(after, bytes));
        lemma_consumed_chain(bytes, after, rest);
        assert(consumed(bytes, after) =~= seq![tag]);
        let again = consumed(bytes, rest) + x;
        assert(again =~= seq![tag] + (consumed(after, rest) + x));
        assert(again[0] == tag);
        assert(again.skip(1) =~= consumed(after, rest) + x);
        lemma_tagged_again(tag, after, x);
    }
}

/// What stands under a tag is read again from the bytes it used, whatever
/// follows them.
pub proof fn lemma_tagged_again(tag: u8, rest: Seq<u8>, x: Seq<u8>)
    ensures
        parse_tagged(tag, rest) matches Ok((v, r)) ==> parse_tagged(tag, consumed(rest, r) + x)
            == found(v, x),
    decreases rest.len(), 3nat, 0nat,
{
    if tag == NIL || tag == FALSE || tag == TRUE {
        assert(consumed(rest, rest) + x =~= x);
    } else if is_unsigned_tag(tag) || is_signed_tag(tag) || is_float_tag(tag) {
        lemma_numbers_again(tag, rest, x, 0);
    } else if is_str_tag(tag) {
        lemma_str_again(tag, rest, x, 0);
    } else if is_bin_tag(tag) {
        lemma_bin_again(tag, rest, x, 0);
    } else if is_array_tag(tag) {
        lemma_arr_again(tag, rest, x);
    } else if is_map_tag(tag) {
        lemma_map_again(tag, rest, x);
    } else if is_ext_tag(tag) {
        lemma_ext_again(tag, rest, x, 0);
    }
}

/// An array that was read is read again from the bytes it used, whatever
/// follows them.
pub proof fn lemma_arr_again(tag: u8, rest: Seq<u8>, x: Seq<u8>)
    ensures
        parse_arr(tag, rest) matches Ok((v, r)) ==> parse_arr(tag, consumed(rest, r) + x)
            == found(v, x),
    decreases rest.len(), 2nat, 0nat,
{
    if parse_arr(tag, rest) is Ok {
        let width = array_width(tag);
        let fixed = tag - FIXARRAY;
        let count = declared(width, fixed, rest)->Ok_0.0;
        let after = declared(width, fixed, rest)->Ok_0.1;
        let items = parse_items(after, count as nat)->Ok_0.0;
        let r = parse_items(after, count as nat)->Ok_0.1;
        let tail = consumed(after, r) + x;
        lemma_items_follow(after, count as nat);
        lemma_declared_then(width, fixed, rest, r, x);
        lemma_items_again(after, count as nat, x);
        lemma_arr_step(tag, consumed(rest, after) + tail, count, tail, items, x);
    }
}

/// A map that was read is read again from the bytes it used, whatever
/// follows them.
pub proof fn lemma_map_again(tag: u8, rest: Seq<u8>, x: Seq<u8>)
    ensures
        parse_map(tag, rest) matches Ok((v, r)) ==> parse_map(tag, consumed(rest, r) + x)
            == found(v, x),
    decreases rest.len(), 2nat, 0nat,
{
    if parse_map(tag, rest) is Ok {
        let width = map_width(tag);
        let fixed = tag - FIXMAP;
        let count = declared(width, fixed, rest)->Ok_0.0;
        let after = declared(width, fixed, rest)->Ok_0.1;
        let pairs = parse_pairs(after, count as nat)->Ok_0.0;
        let r = parse_pairs(after, count as nat)->Ok_0.1;
        let tail = consumed(after, r) + x;
        lemma_pairs_follow(after, count as nat);
        lemma_declared_then(width, fixed, rest, r, x);
        lemma_pairs_again(after, count as nat, x);
        lemma_map_step(tag, consumed(rest, after) + tail, count, tail, pairs, x);
    }
}

/// Values that were read one after the other are read again from the bytes
/// they used, whatever follows them.
pub proof fn lemma_items_again(bytes: Seq<u8>, n: nat, x: Seq<u8>)
    ensures
        parse_items(bytes, n) matches Ok((items, rest)) ==> parse_items(
            consumed(bytes, rest) + x,
            n,
        ) == found(items, x),
    decreases bytes.len(), 1nat, n,
{
    if parse_items(bytes, n) is Ok {
        if n == 0 {
            assert(consumed(bytes, bytes) + x =~= x);
        } else {
            let first = parse(bytes)->Ok_0.0;
            let after = parse(bytes)->Ok_0.1;
            let others = parse_items(after, (n - 1) as nat)->Ok_0.0;
            let rest = parse_items(after, (n - 1) as nat)->Ok_0.1;
            lemma_parse_follows(bytes);
            lemma_items_follow(after, (n - 1) as nat);
            lemma_consumed_chain(bytes, after, rest);
            let tail = consumed(after, rest) + x;
            let whole = consumed(bytes, after) + tail;
            assert(consumed(bytes, rest) + x =~= whole);
            lemma_parse_again(bytes, tail);
            lemma_items_again(after, (n - 1) as nat, x);
            lemma_items_step(whole, n, first, tail, others, x);
        }
    }
}

/// Pairs that were read one after the other are read again from the bytes
/// they used, whatever follows them.
pub proof fn lemma_pairs_again(bytes: Seq<u8>, n: nat, x: Seq<u8>)
    ensures
        parse_pairs(bytes, n) matches Ok((pairs, rest)) ==> parse_pairs(
            consumed(bytes, rest) + x,
            n,
        ) == found(pairs, x),
    decreases bytes.len(), 1nat, n,
{
    if parse_pairs(bytes, n) is Ok {
        if n == 0 {
            assert(consumed(bytes, bytes) + x =~= x);
        } else {
            let key = parse(bytes)->Ok_0.0;
            let after_key = parse(bytes)->Ok_0.1;
            let value = parse(after_key)->Ok_0.0;
            let after = parse(after_key)->Ok_0.1;
            let others = parse_pairs(after, (n - 1) as nat)->Ok_0.0;
            let rest = parse_pairs(after, (n - 1) as nat)->Ok_0.1;
            let tail = consumed(after, rest) + x;
            let middle = consumed(after_key, after) + tail;
            let whole = consumed(bytes, after_key) + middle;
            lemma_parse_follows(bytes);
            lemma_parse_follows(after_key);
            lemma_pairs_follow(after, (n - 1) as nat);
            lemma_consumed_thrice(bytes, after_key, after, rest, x);
            lemma_parse_again(bytes, middle);
            lemma_parse_again(after_key, tail);
            lemma_pairs_again(after, (n - 1) as nat, x);
            lemma_pairs_step(whole, n, key, middle, value, tail, others, x);
        }
    }
}

/// Reading cannot do with fewer bytes than the value has: any shorter start
/// of the bytes that a value was read from gives `UnexpectedEof`, and never a
/// value.
pub proof fn lemma_parse_cut(bytes: Seq<u8>, k: int)
    ensures
        parse(bytes) matches Ok((v, rest)) ==> (0 <= k < bytes.len() - rest.len() ==> parse(
            consumed(bytes, rest).take(k),
        ) == failed::<ValueView>(ErrorView::UnexpectedEof)),
    decreases bytes.len(), 0nat, 0nat,
{
    if bytes.len() > 0 && parse(bytes) is Ok {
        let tag = bytes[0];
        let after = bytes.skip(1);
        let (v, rest) = parse(bytes)->Ok_0;
        if 0 < k < bytes.len() - rest.len() {
            lemma_tagged_follows(tag, after);
            assert(follows(after, bytes));
            lemma_consumed_start(bytes, after, rest, k);
            assert(consumed(bytes, after) =~= seq![tag]);
            let cut = consumed(bytes, rest).take(k);
            assert(cut =~= seq![tag] + consumed(after, rest).take(k - 1));
            assert(cut[0] == tag);
            assert(cut.skip(1) =~= consumed(after, rest).take(k - 1));
            lemma_tagged_cut(tag, after, k - 1);
        }
    }
}

/// No shorter start of the bytes that were used under a tag gives a value.
pub proof fn lemma_tagged_cut(tag: u8, rest: Seq<u8>, k: int)
    ensures
        parse_tagged(tag, rest) matches Ok((v, r)) ==> (0 <= k < rest.len() - r.len()
            ==> parse_tagged(tag, consumed(rest, r).take(k)) == failed::<ValueView>(
            ErrorView::UnexpectedEof,
        )),
    decreases rest.len(), 3nat, 0nat,
{
    if tag == NIL || tag == FALSE || tag == TRUE {
    } else if is_unsigned_tag(tag) || is_signed_tag(tag) || is_float_tag(tag) {
        lemma_numbers_again(tag, rest, rest, k);
    } else if is_str_tag(tag) {
        lemma_str_again(tag, rest, rest, k);
    } else if is_bin_tag(tag) {
        lemma_bin_again(tag, rest, rest, k);
    } else if is_array_tag(tag) {
        lemma_arr_cut(tag, rest, k);
    } else if is_map_tag(tag) {
        lemma_map_cut(tag, rest, k);
    } else if is_ext_tag(tag) {
        lemma_ext_again(tag, rest, rest, k);
    }
}

/// No shorter start of the bytes that an array was read from gives an array.
pub proof fn lemma_arr_cut(tag: u8, rest: Seq<u8>, k: int)
    ensures
        parse_arr(tag, rest) matches Ok((v, r)) ==> (0 <= k < rest.len() - r.len()
            ==> parse_arr(tag, consumed(rest, r).take(k)) == failed::<ValueView>(
            ErrorView::UnexpectedEof,
        )),
    decreases rest.len(), 2nat, 0nat,
{
    if parse_arr(tag, rest) is Ok {
        let width = array_width(tag);
        let fixed = tag - FIXARRAY;
        let (count, after) = declared(width, fixed, rest)->Ok_0;
        let (items, r) = parse_items(after, count as nat)->Ok_0;
        if 0 <= k < rest.len() - r.len() {
            lemma_declared_follows(width, fixed, rest);
            lemma_items_follow(after, count as nat);
            if k >= width {
                let short = consumed(after, r).take(k - width);
                lemma_consumed_start(rest, after, r, k);
                lemma_declared_again(width, fixed, rest, short, k);
                lemma_items_cut(after, count as nat, k - width);
            } else {
                lemma_consumed_early(rest, after, r, k);
                lemma_declared_again(width, fixed, rest, rest, k);
            }
        }
    }
}

/// No shorter start of the bytes that a map was read from gives a map.
pub proof fn lemma_map_cut(tag: u8, rest: Seq<u8>, k: int)
    ensures
        parse_map(tag, rest) matches Ok((v, r)) ==> (0 <= k < rest.len() - r.len()
            ==> parse_map(tag, consumed(rest, r).take(k)) == failed::<
            Seq<(ValueView, ValueView)>,
        >(ErrorView::UnexpectedEof)),
    decreases rest.len(), 2nat, 0nat,
{
    if parse_map(tag, rest) is Ok {
        let width = map_width(tag);
        let fixed = tag - FIXMAP;
        let (count, after) = declared(width, fixed, rest)->Ok_0;
        let (pairs, r) = parse_pairs(after, count as nat)->Ok_0;
        if 0 <= k < rest.len() - r.len() {
            lemma_declared_follows(width, fixed, rest);
            lemma_pairs_follow(after, count as nat);
            if k >= width {
                let short = consumed(after, r).take(k - width);
                lemma_consumed_start(rest, after, r, k);
                lemma_declared_again(width, fixed, rest, short, k);
                lemma_pairs_cut(after, count as nat, k - width);
            } else {
                lemma_consumed_early(rest, after, r, k);
                lemma_declared_again(width, fixed, rest, rest, k);
            }
        }
    }
}

/// No shorter start of the bytes that some values were read from gives as
/// many values.
pub proof fn lemma_items_cut(bytes: Seq<u8>, n: nat, k: int)
    ensures
        parse_items(bytes, n) matches Ok((items, rest)) ==> (0 <= k < bytes.len() - rest.len()
            ==> parse_items(consumed(bytes, rest).take(k), n) == failed::<Seq<ValueView>>(
            ErrorView::UnexpectedEof,
        )),
    decreases bytes.len(), 1nat, n,
{
    if n > 0 && parse_items(bytes, n) is Ok {
        let (first, after) = parse(bytes)->Ok_0;
        let (others, rest) = parse_items(after, (n - 1) as nat)->Ok_0;
        if 0 <= k < bytes.len() - rest.len() {
            lemma_parse_follows(bytes);
            lemma_items_follow(after, (n - 1) as nat);
            let used = bytes.len() - after.len();
            if k >= used {
                let short = consumed(after, rest).take(k - used);
                lemma_consumed_start(bytes, after, rest, k);
                lemma_parse_again(bytes, short);
                lemma_items_cut(after, (n - 1) as nat, k - used);
            } else {
                lemma_consumed_early(bytes, after, rest, k);
                lemma_parse_cut(bytes, k);
            }
        }
    }
}

/// No shorter start of the bytes that some pairs were read from gives as
/// many pairs.
pub proof fn lemma_pairs_cut(bytes: Seq<u8>, n: nat, k: int)
    ensures
        parse_pairs(bytes, n) matches Ok((pairs, rest)) ==> (0 <= k < bytes.len() - rest.len()
            ==> parse_pairs(consumed(bytes, rest).take(k), n) == failed::<
            Seq<(ValueView, ValueView)>,
        >(ErrorView::UnexpectedEof)),
    decreases bytes.len(), 1nat, n,
{
    if n > 0 && parse_pairs(bytes, n) is Ok {
        let (key, after_key) = parse(bytes)->Ok_0;
        let (value, after) = parse(after_key)->Ok_0;
        let (others, rest) = parse_pairs(after, (n - 1) as nat)->Ok_0;
        if 0 <= k < bytes.len() - rest.len() {
            lemma_parse_follows(bytes);
            lemma_parse_follows(after_key);
            lemma_pairs_follow(after, (n - 1) as nat);
            lemma_consumed_chain(after_key, after, rest);
            let used_key = bytes.len() - after_key.len();
            let used_value = after_key.len() - after.len();
            if k >= used_key + used_value {
                let short = consumed(after, rest).take(k - used_key - used_value);
                lemma_consumed_start(bytes, after_key, rest, k);
                lemma_consumed_start(after_key, after, rest, k - used_key);
                lemma_parse_again(bytes, consumed(after_key, after) + short);
                lemma_parse_again(after_key, short);
                lemma_pairs_cut(after, (n - 1) as nat, k - used_key - used_value);
            } else if k >= used_key {
                lemma_consumed_start(bytes, after_key, rest, k);
                lemma_consumed_early(after_key, after, rest, k - used_key);
                lemma_parse_again(bytes, consumed(after_key, after).take(k - used_key));
                lemma_parse_cut(after_key, k - used_key);
            } else {
                lemma_consumed_early(bytes, after_key, rest, k);
                lemma_parse_cut(bytes, k);
            }
        }
    }
}

} // verus!
