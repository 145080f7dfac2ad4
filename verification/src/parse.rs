//! Reading the wire format, as mathematics: the value that a sequence of
//! bytes starts with, and the bytes that follow it.
//!
//! Reading trusts the tag byte: it never guesses a form from the number or
//! the length that follows.

use crate::bytes::{be16_value, be32_value, be64_value, lemma_be_of_value, signed};
use crate::error::ErrorView;
use crate::float::widened;
use crate::timestamp::{canonical, TIMESTAMP_TYPE};
use crate::value::{ExtensionView, Integer, ValueView};
use crate::wire::{
    array_width, bin_width, ext_fixed_len, ext_width, is_array_tag, is_bin_tag, is_ext_tag,
    is_float_tag, is_map_tag, is_signed_tag, is_str_tag, is_unsigned_tag, map_width, str_width,
    FALSE, FIXARRAY, FIXMAP, FIXSTR, FLOAT32, FLOAT64, INT16, INT32, INT64, INT8, NEGATIVE_FIXINT,
    NIL, TRUE, UINT16, UINT32, UINT64, UINT8,
};
use vstd::prelude::*;
use vstd::utf8::{decode_utf8, valid_utf8};

verus! {

/// The byte that reports a timestamp whose payload is not 4, 8 or 12 bytes
/// long: the timestamp's type identifier.
pub const BAD_TIMESTAMP: u8 = 0xff;

/// The outcome of reading `value` and leaving `rest` behind.
pub open spec fn found<T>(value: T, rest: Seq<u8>) -> Result<(T, Seq<u8>), ErrorView> {
    Ok((value, rest))
}

/// The outcome of failing to read.
pub open spec fn failed<T>(e: ErrorView) -> Result<(T, Seq<u8>), ErrorView> {
    Err(e)
}

/// The first `n` bytes and the rest, or the end of the input where fewer
/// than `n` bytes are left.
pub open spec fn take(bytes: Seq<u8>, n: int) -> Result<(Seq<u8>, Seq<u8>), ErrorView> {
    if 0 <= n <= bytes.len() {
        Ok((bytes.take(n), bytes.skip(n)))
    } else {
        Err(ErrorView::UnexpectedEof)
    }
}

/// The byte that `bytes` start with.
pub open spec fn field_u8(bytes: Seq<u8>) -> Result<(u8, Seq<u8>), ErrorView> {
    match take(bytes, 1) {
        Err(e) => Err(e),
        Ok((field, rest)) => Ok((field[0], rest)),
    }
}

/// The unsigned 16-bit number that `bytes` start with.
pub open spec fn field_u16(bytes: Seq<u8>) -> Result<(u16, Seq<u8>), ErrorView> {
    match take(bytes, 2) {
        Err(e) => Err(e),
        Ok((field, rest)) => Ok((be16_value(field) as u16, rest)),
    }
}

/// The unsigned 32-bit number that `bytes` start with.
pub open spec fn field_u32(bytes: Seq<u8>) -> Result<(u32, Seq<u8>), ErrorView> {
    match take(bytes, 4) {
        Err(e) => Err(e),
        Ok((field, rest)) => Ok((be32_value(field) as u32, rest)),
    }
}

/// The unsigned 64-bit number that `bytes` start with.
pub open spec fn field_u64(bytes: Seq<u8>) -> Result<(u64, Seq<u8>), ErrorView> {
    match take(bytes, 8) {
        Err(e) => Err(e),
        Ok((field, rest)) => Ok((be64_value(field) as u64, rest)),
    }
}

/// The signed 8-bit number that `bytes` start with.
pub open spec fn field_i8(bytes: Seq<u8>) -> Result<(i8, Seq<u8>), ErrorView> {
    match take(bytes, 1) {
        Err(e) => Err(e),
        Ok((field, rest)) => Ok((signed(field[0] as int, 0x80) as i8, rest)),
    }
}

/// The signed 16-bit number that `bytes` start with.
pub open spec fn field_i16(bytes: Seq<u8>) -> Result<(i16, Seq<u8>), ErrorView> {
    match take(bytes, 2) {
        Err(e) => Err(e),
        Ok((field, rest)) => Ok((signed(be16_value(field), 0x8000) as i16, rest)),
    }
}

/// The signed 32-bit number that `bytes` start with.
pub open spec fn field_i32(bytes: Seq<u8>) -> Result<(i32, Seq<u8>), ErrorView> {
    match take(bytes, 4) {
        Err(e) => Err(e),
        Ok((field, rest)) => Ok((signed(be32_value(field), 0x8000_0000) as i32, rest)),
    }
}

/// The signed 64-bit number that `bytes` start with.
pub open spec fn field_i64(bytes: Seq<u8>) -> Result<(i64, Seq<u8>), ErrorView> {
    match take(bytes, 8) {
        Err(e) => Err(e),
        Ok((field, rest)) => Ok((signed(be64_value(field), 0x8000_0000_0000_0000) as i64, rest)),
    }
}

/// The length or count that a tag declares, and the bytes behind it: the
/// number held in the `width` bytes that follow the tag, or `fixed` where the
/// tag holds it itself (`width` 0).
pub open spec fn declared(width: int, fixed: int, rest: Seq<u8>) -> Result<
    (int, Seq<u8>),
    ErrorView,
> {
    if width == 0 {
        Ok((fixed, rest))
    } else if width == 1 {
        match field_u8(rest) {
            Err(e) => Err(e),
            Ok((len, rest)) => Ok((len as int, rest)),
        }
    } else if width == 2 {
        match field_u16(rest) {
            Err(e) => Err(e),
            Ok((len, rest)) => Ok((len as int, rest)),
        }
    } else {
        match field_u32(rest) {
            Err(e) => Err(e),
            Ok((len, rest)) => Ok((len as int, rest)),
        }
    }
}

/// The integer under a tag: unsigned under an unsigned tag, signed under a
/// signed one, whatever its magnitude.
pub open spec fn parse_int(tag: u8, rest: Seq<u8>) -> Result<(ValueView, Seq<u8>), ErrorView> {
    if tag <= 0x7f {
        Ok((ValueView::Integer(Integer::U64(tag as u64)), rest))
    } else if tag >= NEGATIVE_FIXINT {
        Ok((ValueView::Integer(Integer::I64((tag - 0x100) as i64)), rest))
    } else if tag == UINT8 {
        match field_u8(rest) {
            Err(e) => Err(e),
            Ok((n, rest)) => Ok((ValueView::Integer(Integer::U64(n as u64)), rest)),
        }
    } else if tag == UINT16 {
        match field_u16(rest) {
            Err(e) => Err(e),
            Ok((n, rest)) => Ok((ValueView::Integer(Integer::U64(n as u64)), rest)),
        }
    } else if tag == UINT32 {
        match field_u32(rest) {
            Err(e) => Err(e),
            Ok((n, rest)) => Ok((ValueView::Integer(Integer::U64(n as u64)), rest)),
        }
    } else if tag == UINT64 {
        match field_u64(rest) {
            Err(e) => Err(e),
            Ok((n, rest)) => Ok((ValueView::Integer(Integer::U64(n)), rest)),
        }
    } else if tag == INT8 {
        match field_i8(rest) {
            Err(e) => Err(e),
            Ok((n, rest)) => Ok((ValueView::Integer(Integer::I64(n as i64)), rest)),
        }
    } else if tag == INT16 {
        match field_i16(rest) {
            Err(e) => Err(e),
            Ok((n, rest)) => Ok((ValueView::Integer(Integer::I64(n as i64)), rest)),
        }
    } else if tag == INT32 {
        match field_i32(rest) {
            Err(e) => Err(e),
            Ok((n, rest)) => Ok((ValueView::Integer(Integer::I64(n as i64)), rest)),
        }
    } else if tag == INT64 {
        match field_i64(rest) {
            Err(e) => Err(e),
            Ok((n, rest)) => Ok((ValueView::Integer(Integer::I64(n)), rest)),
        }
    } else {
        Err(ErrorView::InvalidFormat(tag))
    }
}

/// The floating-point number under a tag; one in single precision is widened.
pub open spec fn parse_float(tag: u8, rest: Seq<u8>) -> Result<(ValueView, Seq<u8>), ErrorView> {
    if tag == FLOAT32 {
        match field_u32(rest) {
            Err(e) => Err(e),
            Ok((bits, rest)) => Ok((ValueView::Float(widened(bits)), rest)),
        }
    } else if tag == FLOAT64 {
        match field_u64(rest) {
            Err(e) => Err(e),
            Ok((bits, rest)) => Ok((ValueView::Float(bits), rest)),
        }
    } else {
        Err(ErrorView::InvalidFormat(tag))
    }
}

/// The string under a tag: its bytes must be valid UTF-8.
pub open spec fn parse_str(tag: u8, rest: Seq<u8>) -> Result<(Seq<char>, Seq<u8>), ErrorView> {
    if is_str_tag(tag) {
        match declared(str_width(tag), tag - FIXSTR, rest) {
            Err(e) => Err(e),
            Ok((len, rest)) => match take(rest, len) {
                Err(e) => Err(e),
                Ok((payload, rest)) => if valid_utf8(payload) {
                    Ok((decode_utf8(payload), rest))
                } else {
                    Err(ErrorView::InvalidUtf8)
                },
            },
        }
    } else {
        Err(ErrorView::InvalidFormat(tag))
    }
}

/// The binary under a tag.
pub open spec fn parse_bin(tag: u8, rest: Seq<u8>) -> Result<(ValueView, Seq<u8>), ErrorView> {
    if is_bin_tag(tag) {
        match declared(bin_width(tag), 0, rest) {
            Err(e) => Err(e),
            Ok((len, rest)) => match take(rest, len) {
                Err(e) => Err(e),
                Ok((payload, rest)) => Ok((ValueView::Binary(payload), rest)),
            },
        }
    } else {
        Err(ErrorView::InvalidFormat(tag))
    }
}

/// The extension that a type identifier and a payload make: a timestamp is
/// held as the narrowest payload of its instant, whichever width it came in.
pub open spec fn parse_timestamp(payload: Seq<u8>) -> Result<ExtensionView, ErrorView> {
    match canonical(payload) {
        Some(data) => Ok(ExtensionView { type_id: TIMESTAMP_TYPE, data }),
        None => Err(ErrorView::InvalidFormat(BAD_TIMESTAMP)),
    }
}

/// The extension under a tag: the length, the type identifier, the payload.
pub open spec fn parse_ext(tag: u8, rest: Seq<u8>) -> Result<(ValueView, Seq<u8>), ErrorView> {
    if is_ext_tag(tag) {
        match declared(ext_width(tag), ext_fixed_len(tag), rest) {
            Err(e) => Err(e),
            Ok((len, rest)) => match field_i8(rest) {
                Err(e) => Err(e),
                Ok((type_id, rest)) => match take(rest, len) {
                    Err(e) => Err(e),
                    Ok((payload, rest)) => {
                        if type_id == TIMESTAMP_TYPE {
                            match parse_timestamp(payload) {
                                Err(e) => Err(e),
                                Ok(e) => Ok((ValueView::Extension(e), rest)),
                            }
                        } else {
                            Ok(
                                (
                                    ValueView::Extension(ExtensionView { type_id, data: payload }),
                                    rest,
                                ),
                            )
                        }
                    },
                },
            },
        }
    } else {
        Err(ErrorView::InvalidFormat(tag))
    }
}

/// The value that `bytes` start with, and the bytes behind it: the first
/// byte is the tag, and the tag alone says what follows.
///
/// In `parse_arr`, `parse_map`, `parse_items` and `parse_pairs` the lengths of
/// what is left are compared before reading goes on. Those comparisons always
/// hold, as `lemma_parse_follows` shows; they are there to make plain that
/// reading comes to an end.
pub open spec fn parse(bytes: Seq<u8>) -> Result<(ValueView, Seq<u8>), ErrorView>
    decreases bytes.len(), 0nat, 0nat,
{
    if bytes.len() == 0 {
        Err(ErrorView::UnexpectedEof)
    } else {
        parse_tagged(bytes[0], bytes.skip(1))
    }
}

/// The value under a tag. A byte that is the tag of no form is reported as
/// `InvalidFormat` with that byte.
pub open spec fn parse_tagged(tag: u8, rest: Seq<u8>) -> Result<(ValueView, Seq<u8>), ErrorView>
    decreases rest.len(), 3nat, 0nat,
{
    if tag == NIL {
        Ok((ValueView::Nil, rest))
    } else if tag == FALSE {
        Ok((ValueView::Boolean(false), rest))
    } else if tag == TRUE {
        Ok((ValueView::Boolean(true), rest))
    } else if is_unsigned_tag(tag) || is_signed_tag(tag) {
        parse_int(tag, rest)
    } else if is_float_tag(tag) {
        parse_float(tag, rest)
    } else if is_str_tag(tag) {
        match parse_str(tag, rest) {
            Err(e) => Err(e),
            Ok((chars, rest)) => Ok((ValueView::String(chars), rest)),
        }
    } else if is_bin_tag(tag) {
        parse_bin(tag, rest)
    } else if is_array_tag(tag) {
        parse_arr(tag, rest)
    } else if is_map_tag(tag) {
        match parse_map(tag, rest) {
            Err(e) => Err(e),
            Ok((pairs, rest)) => Ok((ValueView::Mapping(pairs), rest)),
        }
    } else if is_ext_tag(tag) {
        parse_ext(tag, rest)
    } else {
        Err(ErrorView::InvalidFormat(tag))
    }
}

/// The array under a tag: the count, then that many values.
pub open spec fn parse_arr(tag: u8, rest: Seq<u8>) -> Result<(ValueView, Seq<u8>), ErrorView>
    decreases rest.len(), 2nat, 0nat,
{
    if is_array_tag(tag) {
        match declared(array_width(tag), tag - FIXARRAY, rest) {
            Err(e) => Err(e),
            Ok((count, after)) => if after.len() <= rest.len() && count >= 0 {
                match parse_items(after, count as nat) {
                    Err(e) => Err(e),
                    Ok((items, rest)) => Ok((ValueView::Array(items), rest)),
                }
            } else {
                Err(ErrorView::UnexpectedEof)
            },
        }
    } else {
        Err(ErrorView::InvalidFormat(tag))
    }
}

/// The map under a tag: the count, then that many pairs.
pub open spec fn parse_map(tag: u8, rest: Seq<u8>) -> Result<
    (Seq<(ValueView, ValueView)>, Seq<u8>),
    ErrorView,
>
    decreases rest.len(), 2nat, 0nat,
{
    if is_map_tag(tag) {
        match declared(map_width(tag), tag - FIXMAP, rest) {
            Err(e) => Err(e),
            Ok((count, after)) => if after.len() <= rest.len() && count >= 0 {
                parse_pairs(after, count as nat)
            } else {
                Err(ErrorView::UnexpectedEof)
            },
        }
    } else {
        Err(ErrorView::InvalidFormat(tag))
    }
}

/// The `n` values that `bytes` start with, one after the other.
pub open spec fn parse_items(bytes: Seq<u8>, n: nat) -> Result<
    (Seq<ValueView>, Seq<u8>),
    ErrorView,
>
    decreases bytes.len(), 1nat, n,
{
    if n == 0 {
        Ok((Seq::empty(), bytes))
    } else {
        match parse(bytes) {
            Err(e) => Err(e),
            Ok((first, rest)) => if rest.len() < bytes.len() {
                match parse_items(rest, (n - 1) as nat) {
                    Err(e) => Err(e),
                    Ok((others, rest)) => Ok((seq![first] + others, rest)),
                }
            } else {
                Err(ErrorView::UnexpectedEof)
            },
        }
    }
}

/// The `n` pairs that `bytes` start with, each key before its value.
pub open spec fn parse_pairs(bytes: Seq<u8>, n: nat) -> Result<
    (Seq<(ValueView, ValueView)>, Seq<u8>),
    ErrorView,
>
    decreases bytes.len(), 1nat, n,
{
    if n == 0 {
        Ok((Seq::empty(), bytes))
    } else {
        match parse(bytes) {
            Err(e) => Err(e),
            Ok((key, rest)) => if rest.len() < bytes.len() {
                match parse(rest) {
                    Err(e) => Err(e),
                    Ok((value, rest)) => if rest.len() < bytes.len() {
                        match parse_pairs(rest, (n - 1) as nat) {
                            Err(e) => Err(e),
                            Ok((others, rest)) => Ok((seq![(key, value)] + others, rest)),
                        }
                    } else {
                        Err(ErrorView::UnexpectedEof)
                    },
                }
            } else {
                Err(ErrorView::UnexpectedEof)
            },
        }
    }
}

/// Reading one value and then `n - 1` more is reading `n` values.
pub proof fn lemma_items_step(
    bytes: Seq<u8>,
    n: nat,
    first: ValueView,
    middle: Seq<u8>,
    others: Seq<ValueView>,
    rest: Seq<u8>,
)
    requires
        n > 0,
        parse(bytes) == found(first, middle),
        middle.len() < bytes.len(),
        parse_items(middle, (n - 1) as nat) == found(others, rest),
    ensures
        parse_items(bytes, n) == found(seq![first] + others, rest),
{
}

/// Reading a key, its value and then `n - 1` more pairs is reading `n`
/// pairs.
pub proof fn lemma_pairs_step(
    bytes: Seq<u8>,
    n: nat,
    key: ValueView,
    after_key: Seq<u8>,
    value: ValueView,
    middle: Seq<u8>,
    others: Seq<(ValueView, ValueView)>,
    rest: Seq<u8>,
)
    requires
        n > 0,
        parse(bytes) == found(key, after_key),
        after_key.len() < bytes.len(),
        parse(after_key) == found(value, middle),
        middle.len() < bytes.len(),
        parse_pairs(middle, (n - 1) as nat) == found(others, rest),
    ensures
        parse_pairs(bytes, n) == found(seq![(key, value)] + others, rest),
{
}

/// Reading the count and then that many values is reading an array.
pub proof fn lemma_arr_step(
    tag: u8,
    bytes: Seq<u8>,
    count: int,
    middle: Seq<u8>,
    items: Seq<ValueView>,
    rest: Seq<u8>,
)
    requires
        is_array_tag(tag),
        declared(array_width(tag), tag - FIXARRAY, bytes) == found(count, middle),
        count >= 0,
        middle.len() <= bytes.len(),
        parse_items(middle, count as nat) == found(items, rest),
    ensures
        parse_arr(tag, bytes) == found(ValueView::Array(items), rest),
        parse_tagged(tag, bytes) == found(ValueView::Array(items), rest),
{
}

/// Reading the count and then that many pairs is reading a map.
pub proof fn lemma_map_step(
    tag: u8,
    bytes: Seq<u8>,
    count: int,
    middle: Seq<u8>,
    pairs: Seq<(ValueView, ValueView)>,
    rest: Seq<u8>,
)
    requires
        is_map_tag(tag),
        declared(map_width(tag), tag - FIXMAP, bytes) == found(count, middle),
        count >= 0,
        middle.len() <= bytes.len(),
        parse_pairs(middle, count as nat) == found(pairs, rest),
    ensures
        parse_map(tag, bytes) == found(pairs, rest),
        parse_tagged(tag, bytes) == found(ValueView::Mapping(pairs), rest),
{
}

/// `rest` is what is left of `bytes` when some of its bytes, from the start,
/// are taken away.
pub open spec fn follows(rest: Seq<u8>, bytes: Seq<u8>) -> bool {
    rest.len() <= bytes.len() && rest == bytes.skip(bytes.len() - rest.len())
}

/// What is left of what is left is left.
pub proof fn lemma_follows_chain(a: Seq<u8>, b: Seq<u8>, c: Seq<u8>)
    requires
        follows(a, b),
        follows(b, c),
    ensures
        follows(a, c),
{
    assert(c.skip(c.len() - b.len()).skip(b.len() - a.len()) =~= c.skip(c.len() - a.len()));
}

/// A declared length is not negative and fits 32 bits, and leaves behind
/// what follows it.
pub proof fn lemma_declared_follows(width: int, fixed: int, rest: Seq<u8>)
    requires
        width == 0 || width == 1 || width == 2 || width == 4,
        declared(width, fixed, rest) is Ok,
    ensures
        follows(declared(width, fixed, rest)->Ok_0.1, rest),
        declared(width, fixed, rest)->Ok_0.1.len() == rest.len() - width,
        width == 0 ==> declared(width, fixed, rest)->Ok_0.0 == fixed,
        width != 0 ==> 0 <= declared(width, fixed, rest)->Ok_0.0 <= 0xffff_ffff,
{
    if width != 0 {
        lemma_be_of_value(take(rest, width)->Ok_0.0);
    } else {
        assert(rest.skip(0) =~= rest);
    }
}

/// Reading never takes bytes it does not use, and never gives bytes back:
/// what is left after a scalar follows what was there.
pub proof fn lemma_scalars_follow(tag: u8, rest: Seq<u8>)
    ensures
        parse_int(tag, rest) matches Ok((_, r)) ==> follows(r, rest),
        parse_float(tag, rest) matches Ok((_, r)) ==> follows(r, rest),
        parse_str(tag, rest) matches Ok((_, r)) ==> follows(r, rest),
        parse_bin(tag, rest) matches Ok((_, r)) ==> follows(r, rest),
        parse_ext(tag, rest) matches Ok((_, r)) ==> follows(r, rest),
{
    assert(rest.skip(0) =~= rest);
    if parse_str(tag, rest) is Ok {
        let width = str_width(tag);
        lemma_declared_follows(width, tag - FIXSTR, rest);
        let (len, after) = declared(width, tag - FIXSTR, rest)->Ok_0;
        lemma_follows_chain(take(after, len)->Ok_0.1, after, rest);
    }
    if parse_bin(tag, rest) is Ok {
        let width = bin_width(tag);
        lemma_declared_follows(width, 0, rest);
        let (len, after) = declared(width, 0, rest)->Ok_0;
        lemma_follows_chain(take(after, len)->Ok_0.1, after, rest);
    }
    if parse_ext(tag, rest) is Ok {
        let width = ext_width(tag);
        let fixed = ext_fixed_len(tag);
        lemma_declared_follows(width, fixed, rest);
        let (len, after) = declared(width, fixed, rest)->Ok_0;
        let (id, after_id) = field_i8(after)->Ok_0;
        let (payload, end) = take(after_id, len)->Ok_0;
        lemma_follows_chain(after_id, after, rest);
        lemma_follows_chain(end, after_id, rest);
    }
}

/// Reading a value uses at least one byte and leaves behind what follows
/// the bytes it used.
pub proof fn lemma_parse_follows(bytes: Seq<u8>)
    ensures
        parse(bytes) matches Ok((_, r)) ==> follows(r, bytes) && r.len() < bytes.len(),
    decreases bytes.len(), 0nat, 0nat,
{
    if bytes.len() > 0 && parse(bytes) is Ok {
        let rest = bytes.skip(1);
        let r = parse(bytes)->Ok_0.1;
        lemma_tagged_follows(bytes[0], rest);
        assert(follows(rest, bytes));
        lemma_follows_chain(r, rest, bytes);
    }
}

/// Reading what stands under a tag leaves behind what follows the bytes it
/// used.
pub proof fn lemma_tagged_follows(tag: u8, rest: Seq<u8>)
    ensures
        parse_tagged(tag, rest) matches Ok((_, r)) ==> follows(r, rest),
    decreases rest.len(), 3nat, 0nat,
{
    if is_array_tag(tag) {
        lemma_arr_follows(tag, rest);
    } else if is_map_tag(tag) {
        lemma_map_follows(tag, rest);
    } else {
        lemma_scalars_follow(tag, rest);
        assert(rest.skip(0) =~= rest);
    }
}

/// Reading an array leaves behind what follows the bytes it used.
pub proof fn lemma_arr_follows(tag: u8, rest: Seq<u8>)
    ensures
        parse_arr(tag, rest) matches Ok((_, r)) ==> follows(r, rest),
    decreases rest.len(), 2nat, 0nat,
{
    if parse_arr(tag, rest) is Ok {
        let width = array_width(tag);
        lemma_declared_follows(width, tag - FIXARRAY, rest);
        let (count, after) = declared(width, tag - FIXARRAY, rest)->Ok_0;
        lemma_items_follow(after, count as nat);
        lemma_follows_chain(parse_items(after, count as nat)->Ok_0.1, after, rest);
    }
}

/// Reading a map leaves behind what follows the bytes it used.
pub proof fn lemma_map_follows(tag: u8, rest: Seq<u8>)
    ensures
        parse_map(tag, rest) matches Ok((_, r)) ==> follows(r, rest),
    decreases rest.len(), 2nat, 0nat,
{
    if parse_map(tag, rest) is Ok {
        let width = map_width(tag);
        lemma_declared_follows(width, tag - FIXMAP, rest);
        let (count, after) = declared(width, tag - FIXMAP, rest)->Ok_0;
        lemma_pairs_follow(after, count as nat);
        lemma_follows_chain(parse_pairs(after, count as nat)->Ok_0.1, after, rest);
    }
}

/// Reading values one after the other leaves behind what follows them, and
/// gives as many values as were asked for.
pub proof fn lemma_items_follow(bytes: Seq<u8>, n: nat)
    ensures
        parse_items(bytes, n) matches Ok((items, r)) ==> follows(r, bytes) && items.len() == n,
    decreases bytes.len(), 1nat, n,
{
    if n == 0 {
        assert(bytes.skip(0) =~= bytes);
    } else if parse_items(bytes, n) is Ok {
        lemma_parse_follows(bytes);
        let (first, rest) = parse(bytes)->Ok_0;
        lemma_items_follow(rest, (n - 1) as nat);
        lemma_follows_chain(parse_items(rest, (n - 1) as nat)->Ok_0.1, rest, bytes);
    }
}

/// Reading pairs one after the other leaves behind what follows them, and
/// gives as many pairs as were asked for.
pub proof fn lemma_pairs_follow(bytes: Seq<u8>, n: nat)
    ensures
        parse_pairs(bytes, n) matches Ok((pairs, r)) ==> follows(r, bytes) && pairs.len() == n,
    decreases bytes.len(), 1nat, n,
{
    if n == 0 {
        assert(bytes.skip(0) =~= bytes);
    } else if parse_pairs(bytes, n) is Ok {
        lemma_parse_follows(bytes);
        let (key, rest) = parse(bytes)->Ok_0;
        lemma_parse_follows(rest);
        let (value, rest2) = parse(rest)->Ok_0;
        lemma_follows_chain(rest2, rest, bytes);
        lemma_pairs_follow(rest2, (n - 1) as nat);
        lemma_follows_chain(parse_pairs(rest2, (n - 1) as nat)->Ok_0.1, rest2, bytes);
    }
}

} // verus!
