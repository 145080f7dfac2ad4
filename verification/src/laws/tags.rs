//! The tag decides: reading never guesses a form from the number or the
//! length that follows the tag.

use crate::parse::parse;
use crate::value::{Integer, ValueView};
use crate::wire::{
    is_array_tag, is_bin_tag, is_ext_tag, is_float_tag, is_map_tag, is_signed_tag, is_str_tag,
    is_unsigned_tag, FALSE, NIL, TRUE, UNASSIGNED,
};
use vstd::prelude::*;

verus! {

/// The kind of a value that was read is the kind that its first byte names.
/// A number under an unsigned tag is unsigned and a number under a signed tag
/// is signed, whatever its magnitude.
pub proof fn lemma_tag_decides(bytes: Seq<u8>)
    requires
        parse(bytes) is Ok,
    ensures
        bytes.len() > 0,
        match parse(bytes)->Ok_0.0 {
            ValueView::Nil => bytes[0] == NIL,
            ValueView::Boolean(b) => bytes[0] == (if b {
                TRUE
            } else {
                FALSE
            }),
            ValueView::Integer(Integer::U64(_)) => is_unsigned_tag(bytes[0]),
            ValueView::Integer(Integer::I64(_)) => is_signed_tag(bytes[0]),
            ValueView::Float(_) => is_float_tag(bytes[0]),
            ValueView::String(_) => is_str_tag(bytes[0]),
            ValueView::Binary(_) => is_bin_tag(bytes[0]),
            ValueView::Array(_) => is_array_tag(bytes[0]),
            ValueView::Mapping(_) => is_map_tag(bytes[0]),
            ValueView::Extension(_) => is_ext_tag(bytes[0]),
        },
{
}

/// Every byte but one is the tag of some kind, and no byte is the tag of
/// two.
pub proof fn lemma_tags_are_told_apart(tag: u8)
    ensures
        tag != UNASSIGNED ==> tag == NIL || tag == FALSE || tag == TRUE || is_unsigned_tag(tag)
            || is_signed_tag(tag) || is_float_tag(tag) || is_str_tag(tag) || is_bin_tag(tag)
            || is_array_tag(tag) || is_map_tag(tag) || is_ext_tag(tag),
        tag == UNASSIGNED ==> !(tag == NIL || tag == FALSE || tag == TRUE || is_unsigned_tag(tag)
            || is_signed_tag(tag) || is_float_tag(tag) || is_str_tag(tag) || is_bin_tag(tag)
            || is_array_tag(tag) || is_map_tag(tag) || is_ext_tag(tag)),
        is_unsigned_tag(tag) ==> !(tag == NIL || tag == FALSE || tag == TRUE || is_signed_tag(tag)
            || is_float_tag(tag) || is_str_tag(tag) || is_bin_tag(tag) || is_array_tag(tag)
            || is_map_tag(tag) || is_ext_tag(tag)),
        is_signed_tag(tag) ==> !(tag == NIL || tag == FALSE || tag == TRUE || is_float_tag(tag)
            || is_str_tag(tag) || is_bin_tag(tag) || is_array_tag(tag) || is_map_tag(tag)
            || is_ext_tag(tag)),
        is_float_tag(tag) ==> !(tag == NIL || tag == FALSE || tag == TRUE || is_str_tag(tag)
            || is_bin_tag(tag) || is_array_tag(tag) || is_map_tag(tag) || is_ext_tag(tag)),
        is_str_tag(tag) ==> !(tag == NIL || tag == FALSE || tag == TRUE || is_bin_tag(tag)
            || is_array_tag(tag) || is_map_tag(tag) || is_ext_tag(tag)),
        is_bin_tag(tag) ==> !(tag == NIL || tag == FALSE || tag == TRUE || is_array_tag(tag)
            || is_map_tag(tag) || is_ext_tag(tag)),
        is_array_tag(tag) ==> !(tag == NIL || tag == FALSE || tag == TRUE || is_map_tag(tag)
            || is_ext_tag(tag)),
        is_map_tag(tag) ==> !(tag == NIL || tag == FALSE || tag == TRUE || is_ext_tag(tag)),
        is_ext_tag(tag) ==> !(tag == NIL || tag == FALSE || tag == TRUE),
{
}

} // verus!
