//! The wire format, as mathematics: the bytes that stand for each value.
//!
//! Every value is written as one tag byte, then the length or number that the
//! tag calls for, then the payload or the children. The encoder always picks
//! the narrowest form that can carry the value.

use crate::bytes::{be16, be32, be64, be8};
use crate::timestamp::{canonical, unpacked, TIMESTAMP_TYPE};
use crate::value::{ExtensionView, Integer, ValueView};
use vstd::prelude::*;
use vstd::utf8::encode_utf8;

verus! {

/// The longest payload, and the largest count, that any form can declare.
pub const MAX_LEN: u64 = 0xffff_ffff;

/// The tag of nil.
pub const NIL: u8 = 0xc0;

/// The one byte that is the tag of no form.
pub const UNASSIGNED: u8 = 0xc1;

/// The tag of false.
pub const FALSE: u8 = 0xc2;

/// The tag of true.
pub const TRUE: u8 = 0xc3;

/// The tag of a binary with an 8-bit length.
pub const BIN8: u8 = 0xc4;

/// The tag of a binary with a 16-bit length.
pub const BIN16: u8 = 0xc5;

/// The tag of a binary with a 32-bit length.
pub const BIN32: u8 = 0xc6;

/// The tag of an extension with an 8-bit length.
pub const EXT8: u8 = 0xc7;

/// The tag of an extension with a 16-bit length.
pub const EXT16: u8 = 0xc8;

/// The tag of an extension with a 32-bit length.
pub const EXT32: u8 = 0xc9;

/// The tag of a number in single precision.
pub const FLOAT32: u8 = 0xca;

/// The tag of a number in double precision.
pub const FLOAT64: u8 = 0xcb;

/// The tag of an unsigned 8-bit number.
pub const UINT8: u8 = 0xcc;

/// The tag of an unsigned 16-bit number.
pub const UINT16: u8 = 0xcd;

/// The tag of an unsigned 32-bit number.
pub const UINT32: u8 = 0xce;

/// The tag of an unsigned 64-bit number.
pub const UINT64: u8 = 0xcf;

/// The tag of a signed 8-bit number.
pub const INT8: u8 = 0xd0;

/// The tag of a signed 16-bit number.
pub const INT16: u8 = 0xd1;

/// The tag of a signed 32-bit number.
pub const INT32: u8 = 0xd2;

/// The tag of a signed 64-bit number.
pub const INT64: u8 = 0xd3;

/// The tag of an extension of 1 byte.
pub const FIXEXT1: u8 = 0xd4;

/// The tag of an extension of 2 bytes.
pub const FIXEXT2: u8 = 0xd5;

/// The tag of an extension of 4 bytes.
pub const FIXEXT4: u8 = 0xd6;

/// The tag of an extension of 8 bytes.
pub const FIXEXT8: u8 = 0xd7;

/// The tag of an extension of 16 bytes.
pub const FIXEXT16: u8 = 0xd8;

/// The tag of a string with an 8-bit length.
pub const STR8: u8 = 0xd9;

/// The tag of a string with a 16-bit length.
pub const STR16: u8 = 0xda;

/// The tag of a string with a 32-bit length.
pub const STR32: u8 = 0xdb;

/// The tag of an array with a 16-bit count.
pub const ARRAY16: u8 = 0xdc;

/// The tag of an array with a 32-bit count.
pub const ARRAY32: u8 = 0xdd;

/// The tag of a map with a 16-bit count.
pub const MAP16: u8 = 0xde;

/// The tag of a map with a 32-bit count.
pub const MAP32: u8 = 0xdf;

/// The first tag of the strings that hold their length, up to 31, themselves.
pub const FIXSTR: u8 = 0xa0;

/// The first tag of the arrays that hold their count, up to 15, themselves.
pub const FIXARRAY: u8 = 0x90;

/// The first tag of the maps that hold their count, up to 15, themselves.
pub const FIXMAP: u8 = 0x80;

/// The first tag of the negative numbers from -32 on that are their own tag.
pub const NEGATIVE_FIXINT: u8 = 0xe0;

/// Whether a tag is that of an unsigned number: one that is its own tag, or
/// one of the four unsigned forms.
pub open spec fn is_unsigned_tag(tag: u8) -> bool {
    tag <= 0x7f || UINT8 <= tag <= UINT64
}

/// Whether a tag is that of a signed number: a negative one that is its own
/// tag, or one of the four signed forms.
pub open spec fn is_signed_tag(tag: u8) -> bool {
    tag >= NEGATIVE_FIXINT || INT8 <= tag <= INT64
}

/// Whether a tag is that of a floating-point number.
pub open spec fn is_float_tag(tag: u8) -> bool {
    tag == FLOAT32 || tag == FLOAT64
}

/// Whether a tag is that of a string.
pub open spec fn is_str_tag(tag: u8) -> bool {
    FIXSTR <= tag <= 0xbf || STR8 <= tag <= STR32
}

/// Whether a tag is that of a binary.
pub open spec fn is_bin_tag(tag: u8) -> bool {
    BIN8 <= tag <= BIN32
}

/// Whether a tag is that of an array.
pub open spec fn is_array_tag(tag: u8) -> bool {
    FIXARRAY <= tag <= 0x9f || tag == ARRAY16 || tag == ARRAY32
}

/// Whether a tag is that of a map.
pub open spec fn is_map_tag(tag: u8) -> bool {
    FIXMAP <= tag <= 0x8f || tag == MAP16 || tag == MAP32
}

/// Whether a tag is that of an extension.
pub open spec fn is_ext_tag(tag: u8) -> bool {
    EXT8 <= tag <= EXT32 || FIXEXT1 <= tag <= FIXEXT16
}

/// How many bytes behind a string tag hold the length; 0 where the tag
/// holds it itself.
pub open spec fn str_width(tag: u8) -> int {
    if tag == STR8 {
        1
    } else if tag == STR16 {
        2
    } else if tag == STR32 {
        4
    } else {
        0
    }
}

/// How many bytes behind a binary tag hold the length.
pub open spec fn bin_width(tag: u8) -> int {
    if tag == BIN8 {
        1
    } else if tag == BIN16 {
        2
    } else {
        4
    }
}

/// How many bytes behind an array tag hold the count; 0 where the tag holds
/// it itself.
pub open spec fn array_width(tag: u8) -> int {
    if tag == ARRAY16 {
        2
    } else if tag == ARRAY32 {
        4
    } else {
        0
    }
}

/// How many bytes behind a map tag hold the count; 0 where the tag holds it
/// itself.
pub open spec fn map_width(tag: u8) -> int {
    if tag == MAP16 {
        2
    } else if tag == MAP32 {
        4
    } else {
        0
    }
}

/// How many bytes behind an extension tag hold the length; 0 where the tag
/// stands for a length.
pub open spec fn ext_width(tag: u8) -> int {
    if tag == EXT8 {
        1
    } else if tag == EXT16 {
        2
    } else if tag == EXT32 {
        4
    } else {
        0
    }
}

/// The length that an extension tag stands for, from 1 for the first of the
/// five such tags to 16 for the last.
pub open spec fn ext_fixed_len(tag: u8) -> int {
    if tag == FIXEXT1 {
        1
    } else if tag == FIXEXT2 {
        2
    } else if tag == FIXEXT4 {
        4
    } else if tag == FIXEXT8 {
        8
    } else {
        16
    }
}

/// Tells whether a tag is that of a number, signed or unsigned.
pub fn int_tag(tag: u8) -> (b: bool)
    ensures
        b == (is_unsigned_tag(tag) || is_signed_tag(tag)),
{
    tag <= 0x7f || tag >= NEGATIVE_FIXINT || (UINT8 <= tag && tag <= INT64)
}

/// Tells whether a tag is that of a floating-point number.
pub fn float_tag(tag: u8) -> (b: bool)
    ensures
        b == is_float_tag(tag),
{
    tag == FLOAT32 || tag == FLOAT64
}

/// Tells whether a tag is that of a string.
pub fn str_tag(tag: u8) -> (b: bool)
    ensures
        b == is_str_tag(tag),
{
    (FIXSTR <= tag && tag <= 0xbf) || (STR8 <= tag && tag <= STR32)
}

/// Tells whether a tag is that of a binary.
pub fn bin_tag(tag: u8) -> (b: bool)
    ensures
        b == is_bin_tag(tag),
{
    BIN8 <= tag && tag <= BIN32
}

/// Tells whether a tag is that of an array.
pub fn array_tag(tag: u8) -> (b: bool)
    ensures
        b == is_array_tag(tag),
{
    (FIXARRAY <= tag && tag <= 0x9f) || tag == ARRAY16 || tag == ARRAY32
}

/// Tells whether a tag is that of a map.
pub fn map_tag(tag: u8) -> (b: bool)
    ensures
        b == is_map_tag(tag),
{
    (FIXMAP <= tag && tag <= 0x8f) || tag == MAP16 || tag == MAP32
}

/// Tells whether a tag is that of an extension.
pub fn ext_tag(tag: u8) -> (b: bool)
    ensures
        b == is_ext_tag(tag),
{
    (EXT8 <= tag && tag <= EXT32) || (FIXEXT1 <= tag && tag <= FIXEXT16)
}

/// How many bytes behind a string tag hold the length.
pub fn str_width_of(tag: u8) -> (w: usize)
    ensures
        w == str_width(tag),
{
    if tag == STR8 {
        1
    } else if tag == STR16 {
        2
    } else if tag == STR32 {
        4
    } else {
        0
    }
}

/// How many bytes behind a binary tag hold the length.
pub fn bin_width_of(tag: u8) -> (w: usize)
    ensures
        w == bin_width(tag),
{
    if tag == BIN8 {
        1
    } else if tag == BIN16 {
        2
    } else {
        4
    }
}

/// How many bytes behind an array tag hold the count.
pub fn array_width_of(tag: u8) -> (w: usize)
    ensures
        w == array_width(tag),
{
    if tag == ARRAY16 {
        2
    } else if tag == ARRAY32 {
        4
    } else {
        0
    }
}

/// How many bytes behind a map tag hold the count.
pub fn map_width_of(tag: u8) -> (w: usize)
    ensures
        w == map_width(tag),
{
    if tag == MAP16 {
        2
    } else if tag == MAP32 {
        4
    } else {
        0
    }
}

/// How many bytes behind an extension tag hold the length.
pub fn ext_width_of(tag: u8) -> (w: usize)
    ensures
        w == ext_width(tag),
{
    if tag == EXT8 {
        1
    } else if tag == EXT16 {
        2
    } else if tag == EXT32 {
        4
    } else {
        0
    }
}

/// The length that an extension tag stands for.
pub fn ext_fixed(tag: u8) -> (len: usize)
    ensures
        len == ext_fixed_len(tag),
{
    if tag == FIXEXT1 {
        1
    } else if tag == FIXEXT2 {
        2
    } else if tag == FIXEXT4 {
        4
    } else if tag == FIXEXT8 {
        8
    } else {
        16
    }
}

/// An unsigned number: itself up to 127, else the narrowest of the 8, 16, 32
/// and 64-bit unsigned forms.
pub open spec fn unsigned_encoding(v: int) -> Seq<u8> {
    if v <= 0x7f {
        be8(v)
    } else if v <= 0xff {
        seq![UINT8] + be8(v)
    } else if v <= 0xffff {
        seq![UINT16] + be16(v)
    } else if v <= 0xffff_ffff {
        seq![UINT32] + be32(v)
    } else {
        seq![UINT64] + be64(v)
    }
}

/// A signed number: as an unsigned one where it is not negative; its own tag
/// from -32 on; else the narrowest of the 8, 16, 32 and 64-bit signed forms.
pub open spec fn signed_encoding(v: int) -> Seq<u8> {
    if v >= 0 {
        unsigned_encoding(v)
    } else if v >= -32 {
        be8(v)
    } else if v >= -0x80 {
        seq![INT8] + be8(v)
    } else if v >= -0x8000 {
        seq![INT16] + be16(v)
    } else if v >= -0x8000_0000 {
        seq![INT32] + be32(v)
    } else {
        seq![INT64] + be64(v)
    }
}

/// A number in double precision, given by its bit pattern.
pub open spec fn double_encoding(bits: int) -> Seq<u8> {
    seq![FLOAT64] + be64(bits)
}

/// A number in single precision, given by its bit pattern.
pub open spec fn single_encoding(bits: int) -> Seq<u8> {
    seq![FLOAT32] + be32(bits)
}

/// What precedes the bytes of a string `len` bytes long.
pub open spec fn str_header(len: int) -> Seq<u8> {
    if len <= 31 {
        be8(FIXSTR + len)
    } else if len <= 0xff {
        seq![STR8] + be8(len)
    } else if len <= 0xffff {
        seq![STR16] + be16(len)
    } else {
        seq![STR32] + be32(len)
    }
}

/// What precedes the bytes of a binary `len` bytes long.
pub open spec fn bin_header(len: int) -> Seq<u8> {
    if len <= 0xff {
        seq![BIN8] + be8(len)
    } else if len <= 0xffff {
        seq![BIN16] + be16(len)
    } else {
        seq![BIN32] + be32(len)
    }
}

/// What precedes the elements of an array of `len` elements.
pub open spec fn array_header(len: int) -> Seq<u8> {
    if len <= 15 {
        be8(FIXARRAY + len)
    } else if len <= 0xffff {
        seq![ARRAY16] + be16(len)
    } else {
        seq![ARRAY32] + be32(len)
    }
}

/// What precedes the pairs of a map of `len` pairs.
pub open spec fn map_header(len: int) -> Seq<u8> {
    if len <= 15 {
        be8(FIXMAP + len)
    } else if len <= 0xffff {
        seq![MAP16] + be16(len)
    } else {
        seq![MAP32] + be32(len)
    }
}

/// The tag of an extension `len` bytes long, with the length where the tag
/// does not stand for it: five lengths have a tag of their own.
pub open spec fn ext_length_header(len: int) -> Seq<u8> {
    if len == 1 {
        seq![FIXEXT1]
    } else if len == 2 {
        seq![FIXEXT2]
    } else if len == 4 {
        seq![FIXEXT4]
    } else if len == 8 {
        seq![FIXEXT8]
    } else if len == 16 {
        seq![FIXEXT16]
    } else if len <= 0xff {
        seq![EXT8] + be8(len)
    } else if len <= 0xffff {
        seq![EXT16] + be16(len)
    } else {
        seq![EXT32] + be32(len)
    }
}

/// What precedes an extension payload `len` bytes long: the tag with the
/// length, then the type identifier.
pub open spec fn ext_header(len: int, type_id: int) -> Seq<u8> {
    ext_length_header(len) + be8(type_id)
}

/// The bytes of a string.
pub open spec fn str_encoding(chars: Seq<char>) -> Seq<u8> {
    str_header(encode_utf8(chars).len() as int) + encode_utf8(chars)
}

/// The bytes of a binary.
pub open spec fn bin_encoding(bytes: Seq<u8>) -> Seq<u8> {
    bin_header(bytes.len() as int) + bytes
}

/// The payload that is written for an extension: for a timestamp the
/// narrowest payload of its instant, for any other type the payload as it is.
pub open spec fn ext_payload(e: ExtensionView) -> Seq<u8> {
    if e.type_id == TIMESTAMP_TYPE && unpacked(e.data) is Some {
        canonical(e.data).unwrap()
    } else {
        e.data
    }
}

/// The bytes of an extension.
pub open spec fn ext_encoding(e: ExtensionView) -> Seq<u8> {
    ext_header(ext_payload(e).len() as int, e.type_id as int) + ext_payload(e)
}

/// The byte that reports an extension as not encodable, if it is not: a
/// timestamp whose payload is not 4, 8 or 12 bytes long, or a payload too long
/// to declare.
pub open spec fn ext_rejection(e: ExtensionView) -> Option<u8> {
    if e.type_id == TIMESTAMP_TYPE {
        if unpacked(e.data) is Some {
            None
        } else {
            Some(EXT32)
        }
    } else if e.data.len() > MAX_LEN {
        Some(EXT32)
    } else {
        None
    }
}

/// The byte that reports a string as not encodable, if it is too long.
pub open spec fn str_rejection(chars: Seq<char>) -> Option<u8> {
    if encode_utf8(chars).len() > MAX_LEN {
        Some(STR32)
    } else {
        None
    }
}

/// The byte that reports a binary as not encodable, if it is too long.
pub open spec fn bin_rejection(bytes: Seq<u8>) -> Option<u8> {
    if bytes.len() > MAX_LEN {
        Some(BIN32)
    } else {
        None
    }
}

/// The bytes of a value.
pub open spec fn encoding(v: ValueView) -> Seq<u8>
    decreases v, 0nat,
{
    match v {
        ValueView::Nil => seq![NIL],
        ValueView::Boolean(b) => seq![if b { TRUE } else { FALSE }],
        ValueView::Integer(Integer::U64(n)) => unsigned_encoding(n as int),
        ValueView::Integer(Integer::I64(n)) => signed_encoding(n as int),
        ValueView::Float(bits) => double_encoding(bits as int),
        ValueView::String(chars) => str_encoding(chars),
        ValueView::Binary(bytes) => bin_encoding(bytes),
        ValueView::Array(items) => array_encoding(items),
        ValueView::Mapping(pairs) => map_encoding(pairs),
        ValueView::Extension(e) => ext_encoding(e),
    }
}

/// The bytes of an array: its header, then its elements in order.
pub open spec fn array_encoding(items: Seq<ValueView>) -> Seq<u8>
    decreases items, items.len() + 1,
{
    array_header(items.len() as int) + items_encoding(items, items.len())
}

/// The bytes of a map: its header, then its pairs in order.
pub open spec fn map_encoding(pairs: Seq<(ValueView, ValueView)>) -> Seq<u8>
    decreases pairs, pairs.len() + 1,
{
    map_header(pairs.len() as int) + pairs_encoding(pairs, pairs.len())
}

/// The bytes of the first `n` elements of `items`, one after the other.
pub open spec fn items_encoding(items: Seq<ValueView>, n: nat) -> Seq<u8>
    decreases items, n,
{
    if n == 0 || n > items.len() {
        Seq::empty()
    } else {
        items_encoding(items, (n - 1) as nat) + encoding(items[n - 1])
    }
}

/// The bytes of the first `n` pairs of `pairs`, one after the other, each key
/// before its value.
pub open spec fn pairs_encoding(pairs: Seq<(ValueView, ValueView)>, n: nat) -> Seq<u8>
    decreases pairs, n,
{
    if n == 0 || n > pairs.len() {
        Seq::empty()
    } else {
        pairs_encoding(pairs, (n - 1) as nat) + encoding(pairs[n - 1].0) + encoding(
            pairs[n - 1].1,
        )
    }
}

/// The byte that reports a value as not encodable, if it is not: the tag of
/// the widest form of the first node, in the order of writing, that no form
/// can carry. `None` for a value that can be written.
pub open spec fn rejection(v: ValueView) -> Option<u8>
    decreases v, 0nat,
{
    match v {
        ValueView::String(chars) => str_rejection(chars),
        ValueView::Binary(bytes) => bin_rejection(bytes),
        ValueView::Array(items) => array_rejection(items),
        ValueView::Mapping(pairs) => map_rejection(pairs),
        ValueView::Extension(e) => ext_rejection(e),
        _ => None,
    }
}

/// The byte that reports an array as not encodable, if it is not.
pub open spec fn array_rejection(items: Seq<ValueView>) -> Option<u8>
    decreases items, items.len() + 1,
{
    if items.len() > MAX_LEN {
        Some(ARRAY32)
    } else {
        items_rejection(items, items.len())
    }
}

/// The byte that reports a map as not encodable, if it is not.
pub open spec fn map_rejection(pairs: Seq<(ValueView, ValueView)>) -> Option<u8>
    decreases pairs, pairs.len() + 1,
{
    if pairs.len() > MAX_LEN {
        Some(MAP32)
    } else {
        pairs_rejection(pairs, pairs.len())
    }
}

/// The rejection of the first among the first `n` elements that is not
/// encodable.
pub open spec fn items_rejection(items: Seq<ValueView>, n: nat) -> Option<u8>
    decreases items, n,
{
    if n == 0 || n > items.len() {
        None
    } else if items_rejection(items, (n - 1) as nat) is Some {
        items_rejection(items, (n - 1) as nat)
    } else {
        rejection(items[n - 1])
    }
}

/// The rejection of the first key or value among the first `n` pairs that is
/// not encodable.
pub open spec fn pairs_rejection(pairs: Seq<(ValueView, ValueView)>, n: nat) -> Option<u8>
    decreases pairs, n,
{
    if n == 0 || n > pairs.len() {
        None
    } else if pairs_rejection(pairs, (n - 1) as nat) is Some {
        pairs_rejection(pairs, (n - 1) as nat)
    } else if rejection(pairs[n - 1].0) is Some {
        rejection(pairs[n - 1].0)
    } else {
        rejection(pairs[n - 1].1)
    }
}

/// The bytes of fewer elements start the bytes of more.
pub proof fn lemma_items_encoding_grows(items: Seq<ValueView>, k: nat, n: nat)
    requires
        k <= n <= items.len(),
    ensures
        items_encoding(items, k).is_prefix_of(items_encoding(items, n)),
    decreases n,
{
    if k < n {
        lemma_items_encoding_grows(items, k, (n - 1) as nat);
        let a = items_encoding(items, k);
        let b = items_encoding(items, (n - 1) as nat);
        assert(a =~= b.take(a.len() as int));
        assert(a =~= (b + encoding(items[n - 1])).take(a.len() as int));
    } else {
        assert(items_encoding(items, n).take(items_encoding(items, n).len() as int)
            =~= items_encoding(items, n));
    }
}

/// The bytes of fewer pairs start the bytes of more.
pub proof fn lemma_pairs_encoding_grows(pairs: Seq<(ValueView, ValueView)>, k: nat, n: nat)
    requires
        k <= n <= pairs.len(),
    ensures
        pairs_encoding(pairs, k).is_prefix_of(pairs_encoding(pairs, n)),
    decreases n,
{
    if k < n {
        lemma_pairs_encoding_grows(pairs, k, (n - 1) as nat);
        let a = pairs_encoding(pairs, k);
        let b = pairs_encoding(pairs, (n - 1) as nat);
        assert(a =~= b.take(a.len() as int));
        assert(a =~= (b + encoding(pairs[n - 1].0) + encoding(pairs[n - 1].1)).take(
            a.len() as int,
        ));
    } else {
        assert(pairs_encoding(pairs, n).take(pairs_encoding(pairs, n).len() as int)
            =~= pairs_encoding(pairs, n));
    }
}

/// The first rejection among some elements is the first among more.
pub proof fn lemma_items_rejection_stays(items: Seq<ValueView>, k: nat, n: nat)
    requires
        k <= n <= items.len(),
        items_rejection(items, k) is Some,
    ensures
        items_rejection(items, n) == items_rejection(items, k),
    decreases n,
{
    if k < n {
        lemma_items_rejection_stays(items, k, (n - 1) as nat);
    }
}

/// The first rejection among some pairs is the first among more.
pub proof fn lemma_pairs_rejection_stays(pairs: Seq<(ValueView, ValueView)>, k: nat, n: nat)
    requires
        k <= n <= pairs.len(),
        pairs_rejection(pairs, k) is Some,
    ensures
        pairs_rejection(pairs, n) == pairs_rejection(pairs, k),
    decreases n,
{
    if k < n {
        lemma_pairs_rejection_stays(pairs, k, (n - 1) as nat);
    }
}

/// Where no element is rejected, each of them can be written.
pub proof fn lemma_items_accepted(items: Seq<ValueView>, n: nat, i: int)
    requires
        n <= items.len(),
        items_rejection(items, n) is None,
        0 <= i < n,
    ensures
        rejection(items[i]) is None,
        items_rejection(items, i as nat) is None,
    decreases n,
{
    if i < n - 1 {
        lemma_items_accepted(items, (n - 1) as nat, i);
    } else if n >= 2 {
        lemma_items_accepted(items, (n - 1) as nat, i - 1);
    }
}

/// Where no pair is rejected, each key and each value can be written.
pub proof fn lemma_pairs_accepted(pairs: Seq<(ValueView, ValueView)>, n: nat, i: int)
    requires
        n <= pairs.len(),
        pairs_rejection(pairs, n) is None,
        0 <= i < n,
    ensures
        rejection(pairs[i].0) is None,
        rejection(pairs[i].1) is None,
        pairs_rejection(pairs, i as nat) is None,
    decreases n,
{
    if i < n - 1 {
        lemma_pairs_accepted(pairs, (n - 1) as nat, i);
    } else if n >= 2 {
        lemma_pairs_accepted(pairs, (n - 1) as nat, i - 1);
    }
}

} // verus!
