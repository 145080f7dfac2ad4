//! Strings: the bytes behind the length, which must be valid UTF-8.

use crate::decode::Decoder;
use crate::error::{ErrorView, MsgPackErr};
use crate::parse::parse_str;
use crate::source::{obtained, viewed, Source};
use crate::wire::{str_tag, str_width_of, FIXSTR};
use vstd::prelude::*;
use vstd::utf8::{decode_utf8, valid_utf8};

verus! {

/// `String::from_utf8`: the string that the bytes spell, if they are valid
/// UTF-8, and nothing if they are not. No byte is replaced or dropped.
#[verifier::external_body]
pub(crate) fn string_from_utf8(bytes: Vec<u8>) -> (r: Option<String>)
    ensures
        match r {
            Some(s) => valid_utf8(bytes@) && s@ == decode_utf8(bytes@),
            None => !valid_utf8(bytes@),
        },
{
    String::from_utf8(bytes).ok()
}

/// The string that the bytes spell, or `InvalidUtf8` where they spell none.
pub fn string_of(bytes: Vec<u8>) -> (r: Result<String, MsgPackErr>)
    ensures
        match r {
            Ok(s) => valid_utf8(bytes@) && s@ == decode_utf8(bytes@),
            Err(e) => e@ == ErrorView::InvalidUtf8 && !valid_utf8(bytes@),
        },
{
    match string_from_utf8(bytes) {
        Some(s) => Ok(s),
        None => Err(MsgPackErr::InvalidUtf8),
    }
}

impl<R: Source> Decoder<R> {
    /// Reads the string that follows the tag `prefix`: its length, then its
    /// bytes. Bytes that are not valid UTF-8 are reported as `InvalidUtf8`.
    pub fn decode_str(&mut self, prefix: u8) -> (r: Result<String, MsgPackErr>)
        ensures
            obtained(
                old(self).source(),
                final(self).source(),
                viewed(r),
                parse_str(prefix, old(self).source().pending()),
            ),
    {
        if !str_tag(prefix) {
            return Err(MsgPackErr::InvalidFormat(prefix));
        }
        let width = str_width_of(prefix);
        let fixed = (prefix - FIXSTR) as usize;
        let len = match self.read_len(width, fixed) {
            Err(e) => {
                return Err(e);
            },
            Ok(n) => n,
        };
        let payload = match self.get(len) {
            Err(e) => {
                return Err(e);
            },
            Ok(b) => b,
        };
        string_of(payload)
    }
}

} // verus!
