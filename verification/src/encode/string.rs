//! Strings: the UTF-8 bytes behind their length.

use crate::bytes::{push_be16, push_be32};
use crate::encode::Encoder;
use crate::error::MsgPackErr;
use crate::sink::{encoded, Sink};
use crate::wire::{str_encoding, str_header, str_rejection, FIXSTR, MAX_LEN, STR16, STR32, STR8};
use vstd::prelude::*;

verus! {

/// What precedes the bytes of a string `len` bytes long.
pub fn str_head(len: u32) -> (out: Vec<u8>)
    ensures
        out@ == str_header(len as int),
{
    let mut out: Vec<u8> = Vec::new();
    if len <= 31 {
        out.push(FIXSTR + (len as u8));
    } else if len <= 0xff {
        out.push(STR8);
        out.push(len as u8);
    } else if len <= 0xffff {
        out.push(STR16);
        push_be16(&mut out, len as u16);
    } else {
        out.push(STR32);
        push_be32(&mut out, len);
    }
    assert(out@ =~= str_header(len as int));
    out
}

impl<W: Sink> Encoder<W> {
    /// Writes a string: the narrowest header for the length of its UTF-8
    /// bytes, then those bytes. A string too long to declare is refused.
    pub fn encode_str(&mut self, s: &str) -> (r: Result<(), MsgPackErr>)
        ensures
            encoded(
                old(self).sink(),
                final(self).sink(),
                r,
                str_rejection(s@),
                str_encoding(s@),
            ),
    {
        let bytes = s.as_bytes();
        let len = bytes.len();
        if len as u64 > MAX_LEN {
            return Err(MsgPackErr::InvalidFormat(STR32));
        }
        let head = str_head(len as u32);
        self.put_framed(head.as_slice(), bytes)
    }
}

} // verus!
