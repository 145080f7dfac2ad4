//! Fields and headers: what was written is read back.

use crate::bytes::{be16, be32, be64, be8, lemma_be_len, lemma_value_of_be};
use crate::parse::{
    declared, field_i16, field_i32, field_i64, field_i8, field_u16, field_u32, field_u64, field_u8,
    found, take,
};
use crate::wire::{
    array_header, array_width, bin_header, bin_width, ext_fixed_len, ext_header, ext_length_header,
    ext_width, is_array_tag, is_bin_tag, is_ext_tag, is_map_tag, is_str_tag, map_header, map_width,
    str_header, str_width, FIXARRAY, FIXMAP, FIXSTR,
};
use vstd::prelude::*;

verus! {

/// Taking as many bytes as a sequence has, from that sequence followed by
/// another, gives the two.
pub proof fn lemma_take_front(front: Seq<u8>, rest: Seq<u8>)
    ensures
        take(front + rest, front.len() as int) == found(front, rest),
{
    assert((front + rest).take(front.len() as int) =~= front);
    assert((front + rest).skip(front.len() as int) =~= rest);
}

/// An unsigned number written at some width is read back at that width.
pub proof fn lemma_unsigned_field(x: int, rest: Seq<u8>)
    ensures
        0 <= x < 0x100 ==> field_u8(be8(x) + rest) == found(x as u8, rest),
        0 <= x < 0x1_0000 ==> field_u16(be16(x) + rest) == found(x as u16, rest),
        0 <= x < 0x1_0000_0000 ==> field_u32(be32(x) + rest) == found(x as u32, rest),
        0 <= x < 0x1_0000_0000_0000_0000 ==> field_u64(be64(x) + rest) == found(x as u64, rest),
{
    lemma_be_len(x);
    lemma_value_of_be(x);
    lemma_take_front(be8(x), rest);
    lemma_take_front(be16(x), rest);
    lemma_take_front(be32(x), rest);
    lemma_take_front(be64(x), rest);
}

/// A signed number written at some width is read back at that width.
pub proof fn lemma_signed_field(x: int, rest: Seq<u8>)
    ensures
        -0x80 <= x < 0x80 ==> field_i8(be8(x) + rest) == found(x as i8, rest),
        -0x8000 <= x < 0x8000 ==> field_i16(be16(x) + rest) == found(x as i16, rest),
        -0x8000_0000 <= x < 0x8000_0000 ==> field_i32(be32(x) + rest) == found(x as i32, rest),
        -0x8000_0000_0000_0000 <= x < 0x8000_0000_0000_0000 ==> field_i64(be64(x) + rest)
            == found(x as i64, rest),
{
    lemma_be_len(x);
    lemma_value_of_be(x);
    lemma_take_front(be8(x), rest);
    lemma_take_front(be16(x), rest);
    lemma_take_front(be32(x), rest);
    lemma_take_front(be64(x), rest);
}

/// The header of a string: its tag is a string tag, and the length it
/// declares is read back.
pub proof fn lemma_str_header(len: int, rest: Seq<u8>)
    requires
        0 <= len <= 0xffff_ffff,
    ensures
        ({
            let h = str_header(len);
            let tag = h[0];
            &&& h.len() >= 1
            &&& is_str_tag(tag)
            &&& declared(str_width(tag), tag - FIXSTR, (h + rest).skip(1))
                == found(len, rest)
            &&& (h + rest)[0] == tag
        }),
{
    let h = str_header(len);
    lemma_be_len(len);
    lemma_unsigned_field(len, rest);
    if len <= 31 {
        assert((h + rest).skip(1) =~= rest);
    } else if len <= 0xff {
        assert((h + rest).skip(1) =~= be8(len) + rest);
    } else if len <= 0xffff {
        assert((h + rest).skip(1) =~= be16(len) + rest);
    } else {
        assert((h + rest).skip(1) =~= be32(len) + rest);
    }
}

/// The header of a binary: its tag is a binary tag, and the length it
/// declares is read back.
pub proof fn lemma_bin_header(len: int, rest: Seq<u8>)
    requires
        0 <= len <= 0xffff_ffff,
    ensures
        ({
            let h = bin_header(len);
            let tag = h[0];
            &&& h.len() >= 1
            &&& is_bin_tag(tag)
            &&& declared(bin_width(tag), 0, (h + rest).skip(1)) == found(
                len,
                rest,
            )
            &&& (h + rest)[0] == tag
        }),
{
    let h = bin_header(len);
    lemma_be_len(len);
    lemma_unsigned_field(len, rest);
    if len <= 0xff {
        assert((h + rest).skip(1) =~= be8(len) + rest);
    } else if len <= 0xffff {
        assert((h + rest).skip(1) =~= be16(len) + rest);
    } else {
        assert((h + rest).skip(1) =~= be32(len) + rest);
    }
}

/// The header of an array: its tag is an array tag, and the count it
/// declares is read back.
pub proof fn lemma_array_header(len: int, rest: Seq<u8>)
    requires
        0 <= len <= 0xffff_ffff,
    ensures
        ({
            let h = array_header(len);
            let tag = h[0];
            &&& h.len() >= 1
            &&& is_array_tag(tag)
            &&& declared(array_width(tag), tag - FIXARRAY, (h + rest).skip(1))
                == found(len, rest)
            &&& (h + rest)[0] == tag
        }),
{
    let h = array_header(len);
    lemma_be_len(len);
    lemma_unsigned_field(len, rest);
    if len <= 15 {
        assert((h + rest).skip(1) =~= rest);
    } else if len <= 0xffff {
        assert((h + rest).skip(1) =~= be16(len) + rest);
    } else {
        assert((h + rest).skip(1) =~= be32(len) + rest);
    }
}

/// The header of a map: its tag is a map tag, and the count it declares is
/// read back.
pub proof fn lemma_map_header(len: int, rest: Seq<u8>)
    requires
        0 <= len <= 0xffff_ffff,
    ensures
        ({
            let h = map_header(len);
            let tag = h[0];
            &&& h.len() >= 1
            &&& is_map_tag(tag)
            &&& declared(map_width(tag), tag - FIXMAP, (h + rest).skip(1))
                == found(len, rest)
            &&& (h + rest)[0] == tag
        }),
{
    let h = map_header(len);
    lemma_be_len(len);
    lemma_unsigned_field(len, rest);
    if len <= 15 {
        assert((h + rest).skip(1) =~= rest);
    } else if len <= 0xffff {
        assert((h + rest).skip(1) =~= be16(len) + rest);
    } else {
        assert((h + rest).skip(1) =~= be32(len) + rest);
    }
}

/// The length part of the header of an extension: its tag is an extension
/// tag, and the length it declares is read back.
pub proof fn lemma_ext_length_header(len: int, rest: Seq<u8>)
    requires
        0 <= len <= 0xffff_ffff,
    ensures
        ({
            let h = ext_length_header(len);
            let tag = h[0];
            &&& h.len() >= 1
            &&& is_ext_tag(tag)
            &&& declared(ext_width(tag), ext_fixed_len(tag), (h + rest).skip(1)) == found(
                len,
                rest,
            )
            &&& (h + rest)[0] == tag
        }),
{
    let h = ext_length_header(len);
    lemma_be_len(len);
    lemma_unsigned_field(len, rest);
    if len == 1 || len == 2 || len == 4 || len == 8 || len == 16 {
        assert((h + rest).skip(1) =~= rest);
    } else if len <= 0xff {
        assert((h + rest).skip(1) =~= be8(len) + rest);
    } else if len <= 0xffff {
        assert((h + rest).skip(1) =~= be16(len) + rest);
    } else {
        assert((h + rest).skip(1) =~= be32(len) + rest);
    }
}

/// The header of an extension: its tag is an extension tag, and the length
/// and the type identifier it declares are read back.
pub proof fn lemma_ext_header(len: int, type_id: int, rest: Seq<u8>)
    requires
        0 <= len <= 0xffff_ffff,
        -0x80 <= type_id < 0x80,
    ensures
        ({
            let h = ext_header(len, type_id);
            let tag = h[0];
            &&& h.len() >= 2
            &&& is_ext_tag(tag)
            &&& declared(ext_width(tag), ext_fixed_len(tag), (h + rest).skip(1))
                == found(len, be8(type_id) + rest)
            &&& field_i8(be8(type_id) + rest) == found(type_id as i8, rest)
            &&& (h + rest)[0] == tag
        }),
{
    let after = be8(type_id) + rest;
    let front = ext_length_header(len);
    lemma_ext_length_header(len, after);
    lemma_signed_field(type_id, rest);
    assert(ext_header(len, type_id) + rest =~= front + after);
    assert(ext_header(len, type_id)[0] == front[0]);
}

} // verus!
