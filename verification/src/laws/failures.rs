//! What reading reports, and when.

use crate::error::ErrorView;
use crate::laws::prefix::consumed;
use crate::parse::{
    declared, failed, lemma_declared_follows, lemma_parse_follows, parse, parse_items, parse_pairs,
    parse_str, parse_tagged, take, BAD_TIMESTAMP,
};
use crate::value::ValueView;
use crate::wire::{
    array_width, bin_width, ext_fixed_len, ext_width, is_array_tag, is_bin_tag, is_ext_tag,
    is_map_tag, is_str_tag, map_width, str_width, FIXARRAY, FIXMAP, FIXSTR, UNASSIGNED,
};
use vstd::prelude::*;
use vstd::utf8::{decode_utf8_encode_utf8, encode_utf8, valid_utf8};

verus! {

/// Bytes that begin with the unassigned tag are reported as `InvalidFormat`
/// with that byte.
pub proof fn lemma_unassigned_tag(bytes: Seq<u8>)
    requires
        bytes.len() > 0,
        bytes[0] == UNASSIGNED,
    ensures
        parse(bytes) == failed::<ValueView>(ErrorView::InvalidFormat(UNASSIGNED)),
{
}

/// Every other byte is the tag of some form: `InvalidFormat` only ever
/// carries the unassigned tag, met where a value should begin, or the
/// timestamp's type byte, for a timestamp whose payload has a length other
/// than 4, 8 or 12. Reading reports neither `TypeMismatch` nor `Io`.
pub proof fn lemma_invalid_format_bytes(bytes: Seq<u8>)
    ensures
        parse(bytes) matches Err(ErrorView::InvalidFormat(b)) ==> b == UNASSIGNED || b
            == BAD_TIMESTAMP,
        !(parse(bytes) matches Err(ErrorView::TypeMismatch)),
        !(parse(bytes) matches Err(ErrorView::Io)),
    decreases bytes.len(), 0nat, 0nat,
{
    if bytes.len() > 0 {
        lemma_tagged_invalid_format_bytes(bytes[0], bytes.skip(1));
    }
}

proof fn lemma_tagged_invalid_format_bytes(tag: u8, rest: Seq<u8>)
    ensures
        parse_tagged(tag, rest) matches Err(ErrorView::InvalidFormat(b)) ==> b == UNASSIGNED
            || b == BAD_TIMESTAMP,
        !(parse_tagged(tag, rest) matches Err(ErrorView::TypeMismatch)),
        !(parse_tagged(tag, rest) matches Err(ErrorView::Io)),
    decreases rest.len(), 3nat, 0nat,
{
    if is_array_tag(tag) {
        let width = array_width(tag);
        if declared(width, tag - FIXARRAY, rest) is Ok {
            let (count, after) = declared(width, tag - FIXARRAY, rest)->Ok_0;
            lemma_declared_follows(width, tag - FIXARRAY, rest);
            lemma_items_invalid_format_bytes(after, count as nat);
        }
    } else if is_map_tag(tag) {
        let width = map_width(tag);
        if declared(width, tag - FIXMAP, rest) is Ok {
            let (count, after) = declared(width, tag - FIXMAP, rest)->Ok_0;
            lemma_declared_follows(width, tag - FIXMAP, rest);
            lemma_pairs_invalid_format_bytes(after, count as nat);
        }
    }
}

proof fn lemma_items_invalid_format_bytes(bytes: Seq<u8>, n: nat)
    ensures
        parse_items(bytes, n) matches Err(ErrorView::InvalidFormat(b)) ==> b == UNASSIGNED || b
            == BAD_TIMESTAMP,
        !(parse_items(bytes, n) matches Err(ErrorView::TypeMismatch)),
        !(parse_items(bytes, n) matches Err(ErrorView::Io)),
    decreases bytes.len(), 1nat, n,
{
    if n > 0 {
        lemma_invalid_format_bytes(bytes);
        if parse(bytes) is Ok {
            lemma_parse_follows(bytes);
            lemma_items_invalid_format_bytes(parse(bytes)->Ok_0.1, (n - 1) as nat);
        }
    }
}

proof fn lemma_pairs_invalid_format_bytes(bytes: Seq<u8>, n: nat)
    ensures
        parse_pairs(bytes, n) matches Err(ErrorView::InvalidFormat(b)) ==> b == UNASSIGNED || b
            == BAD_TIMESTAMP,
        !(parse_pairs(bytes, n) matches Err(ErrorView::TypeMismatch)),
        !(parse_pairs(bytes, n) matches Err(ErrorView::Io)),
    decreases bytes.len(), 1nat, n,
{
    if n > 0 {
        lemma_invalid_format_bytes(bytes);
        if parse(bytes) is Ok {
            lemma_parse_follows(bytes);
            let after_key = parse(bytes)->Ok_0.1;
            lemma_invalid_format_bytes(after_key);
            if parse(after_key) is Ok {
                lemma_parse_follows(after_key);
                lemma_pairs_invalid_format_bytes(parse(after_key)->Ok_0.1, (n - 1) as nat);
            }
        }
    }
}

/// A string whose bytes are all there but are not valid UTF-8 is reported as
/// `InvalidUtf8`, whichever of the four headers declares it.
pub proof fn lemma_invalid_utf8_is_reported(bytes: Seq<u8>)
    requires
        bytes.len() > 0,
        is_str_tag(bytes[0]),
        declared(str_width(bytes[0]), bytes[0] - FIXSTR, bytes.skip(1))
            matches Ok((len, after)) && take(after, len) matches Ok((payload, _)) && !valid_utf8(
            payload,
        ),
    ensures
        parse(bytes) == failed::<ValueView>(ErrorView::InvalidUtf8),
{
}

/// A string that was read has, as its UTF-8 bytes, exactly the last bytes
/// that reading used: no byte was replaced or dropped.
pub proof fn lemma_string_is_read_as_written(bytes: Seq<u8>)
    ensures
        parse(bytes) matches Ok((ValueView::String(chars), rest)) ==> {
            let used = consumed(bytes, rest);
            &&& encode_utf8(chars).len() <= used.len()
            &&& used.skip(used.len() - encode_utf8(chars).len()) == encode_utf8(chars)
        },
{
    if parse(bytes) is Ok && parse(bytes)->Ok_0.0 is String {
        let tag = bytes[0];
        let after_tag = bytes.skip(1);
        let rest = parse(bytes)->Ok_0.1;
        assert(is_str_tag(tag));
        lemma_str_payload(tag, after_tag);
        let payload = encode_utf8(parse_str(tag, after_tag)->Ok_0.0);
        let used = consumed(bytes, rest);
        assert(used.skip(used.len() - payload.len()) =~= consumed(after_tag, rest).skip(
            after_tag.len() - rest.len() - payload.len(),
        ));
    }
}

proof fn lemma_str_payload(tag: u8, after_tag: Seq<u8>)
    ensures
        parse_str(tag, after_tag) matches Ok((chars, rest)) ==> {
            let used = consumed(after_tag, rest);
            &&& rest.len() <= after_tag.len()
            &&& encode_utf8(chars).len() <= used.len()
            &&& used.skip(used.len() - encode_utf8(chars).len()) == encode_utf8(chars)
        },
{
    if parse_str(tag, after_tag) is Ok {
        let width = str_width(tag);
        let len = declared(width, tag - FIXSTR, after_tag)->Ok_0.0;
        let after = declared(width, tag - FIXSTR, after_tag)->Ok_0.1;
        let payload = take(after, len)->Ok_0.0;
        let rest = take(after, len)->Ok_0.1;
        lemma_declared_follows(width, tag - FIXSTR, after_tag);
        assert(encode_utf8(parse_str(tag, after_tag)->Ok_0.0) == payload) by {
            decode_utf8_encode_utf8(payload);
        }
        let used = consumed(after_tag, rest);
        assert(used.skip(used.len() - payload.len()) =~= payload);
    }
}

/// A string whose declared length exceeds the bytes that are left is
/// reported as `UnexpectedEof`.
pub proof fn lemma_short_string_is_reported(bytes: Seq<u8>)
    requires
        bytes.len() > 0,
        is_str_tag(bytes[0]),
        declared(str_width(bytes[0]), bytes[0] - FIXSTR, bytes.skip(1))
            matches Ok((len, after)) && len > after.len(),
    ensures
        parse(bytes) == failed::<ValueView>(ErrorView::UnexpectedEof),
{
}

/// A binary whose declared length exceeds the bytes that are left is
/// reported as `UnexpectedEof`.
pub proof fn lemma_short_binary_is_reported(bytes: Seq<u8>)
    requires
        bytes.len() > 0,
        is_bin_tag(bytes[0]),
        declared(bin_width(bytes[0]), 0, bytes.skip(1)) matches Ok(
            (len, after),
        ) && len > after.len(),
    ensures
        parse(bytes) == failed::<ValueView>(ErrorView::UnexpectedEof),
{
}

/// An extension whose declared length exceeds the bytes that are left
/// behind its type identifier is reported as `UnexpectedEof`, timestamp or
/// not.
pub proof fn lemma_short_extension_is_reported(bytes: Seq<u8>)
    requires
        bytes.len() > 0,
        is_ext_tag(bytes[0]),
        declared(
            ext_width(bytes[0]),
            ext_fixed_len(bytes[0]),
            bytes.skip(1),
        ) matches Ok((len, after)) && len + 1 > after.len(),
    ensures
        parse(bytes) == failed::<ValueView>(ErrorView::UnexpectedEof),
{
}

/// Where the input ends behind fewer values than an array or a map declares,
/// that is reported as `UnexpectedEof`.
pub proof fn lemma_missing_items_are_reported(bytes: Seq<u8>, k: nat, n: nat)
    requires
        k < n,
    ensures
        parse_items(bytes, k) matches Ok((_, rest)) && rest.len() == 0 ==> parse_items(bytes, n)
            == failed::<Seq<ValueView>>(ErrorView::UnexpectedEof),
        parse_pairs(bytes, k) matches Ok((_, rest)) && rest.len() == 0 ==> parse_pairs(bytes, n)
            == failed::<Seq<(ValueView, ValueView)>>(ErrorView::UnexpectedEof),
    decreases k,
{
    if k > 0 {
        if parse_items(bytes, k) is Ok {
            lemma_missing_items_are_reported(parse(bytes)->Ok_0.1, (k - 1) as nat, (n - 1) as nat);
        }
        if parse_pairs(bytes, k) is Ok {
            let after_key = parse(bytes)->Ok_0.1;
            lemma_missing_items_are_reported(
                parse(after_key)->Ok_0.1,
                (k - 1) as nat,
                (n - 1) as nat,
            );
        }
    }
}

} // verus!
