//! Binaries: opaque bytes behind their length.

use crate::bytes::{push_be16, push_be32};
use crate::encode::Encoder;
use crate::error::MsgPackErr;
use crate::sink::{encoded, Sink};
use crate::wire::{bin_encoding, bin_header, bin_rejection, BIN16, BIN32, BIN8, MAX_LEN};
use vstd::prelude::*;

verus! {

/// What precedes the bytes of a binary `len` bytes long.
pub fn bin_head(len: u32) -> (out: Vec<u8>)
    ensures
        out@ == bin_header(len as int),
{
    let mut out: Vec<u8> = Vec::new();
    if len <= 0xff {
        out.push(BIN8);
        out.push(len as u8);
    } else if len <= 0xffff {
        out.push(BIN16);
        push_be16(&mut out, len as u16);
    } else {
        out.push(BIN32);
        push_be32(&mut out, len);
    }
    assert(out@ =~= bin_header(len as int));
    out
}

impl<W: Sink> Encoder<W> {
    /// Writes a binary: the narrowest header for its length, then its bytes.
    /// A binary too long to declare is refused.
    pub fn encode_bin(&mut self, bytes: &[u8]) -> (r: Result<(), MsgPackErr>)
        ensures
            encoded(
                old(self).sink(),
                final(self).sink(),
                r,
                bin_rejection(bytes@),
                bin_encoding(bytes@),
            ),
    {
        let len = bytes.len();
        if len as u64 > MAX_LEN {
            return Err(MsgPackErr::InvalidFormat(BIN32));
        }
        let head = bin_head(len as u32);
        self.put_framed(head.as_slice(), bytes)
    }
}

} // verus!
