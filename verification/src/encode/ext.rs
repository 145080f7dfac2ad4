//! Extensions: a payload under a signed type identifier. A timestamp is
//! always written as the narrowest payload of its instant.

use crate::bytes::{i8_bits, push_be16, push_be32};
use crate::encode::Encoder;
use crate::error::MsgPackErr;
use crate::sink::{encoded, Sink};
use crate::timestamp::{lemma_unpack_packed, lemma_unpacked_in_range, TIMESTAMP_TYPE, Timestamp};
use crate::value::{Extension, ExtensionView};
use crate::wire::{
    ext_encoding, ext_header, ext_rejection, EXT16, EXT32, EXT8, FIXEXT1, FIXEXT16, FIXEXT2,
    FIXEXT4, FIXEXT8, MAX_LEN,
};
use vstd::prelude::*;

verus! {

/// What precedes an extension payload `len` bytes long.
pub fn ext_head(len: u32, type_id: i8) -> (out: Vec<u8>)
    ensures
        out@ == ext_header(len as int, type_id as int),
{
    let mut out: Vec<u8> = Vec::new();
    if len == 1 {
        out.push(FIXEXT1);
    } else if len == 2 {
        out.push(FIXEXT2);
    } else if len == 4 {
        out.push(FIXEXT4);
    } else if len == 8 {
        out.push(FIXEXT8);
    } else if len == 16 {
        out.push(FIXEXT16);
    } else if len <= 0xff {
        out.push(EXT8);
        out.push(len as u8);
    } else if len <= 0xffff {
        out.push(EXT16);
        push_be16(&mut out, len as u16);
    } else {
        out.push(EXT32);
        push_be32(&mut out, len);
    }
    out.push(i8_bits(type_id));
    assert(out@ =~= ext_header(len as int, type_id as int));
    out
}

impl<W: Sink> Encoder<W> {
    /// Writes an extension: the header for its length and type, then its
    /// payload. A timestamp goes through `encode_timestamp_payload`. A payload
    /// too long to declare is refused.
    pub fn encode_ext(&mut self, e: &Extension) -> (r: Result<(), MsgPackErr>)
        ensures
            encoded(old(self).sink(), final(self).sink(), r, ext_rejection(e@), ext_encoding(e@)),
    {
        if e.type_id == TIMESTAMP_TYPE {
            return self.encode_timestamp_payload(e.data.as_slice());
        }
        let len = e.data.len();
        if len as u64 > MAX_LEN {
            return Err(MsgPackErr::InvalidFormat(EXT32));
        }
        let head = ext_head(len as u32, e.type_id);
        self.put_framed(head.as_slice(), e.data.as_slice())
    }

    /// Writes a timestamp, given as a payload of 4, 8 or 12 bytes: whichever
    /// of the three the payload is, the narrowest payload of its instant is
    /// written. A payload of another length is refused.
    pub fn encode_timestamp_payload(&mut self, data: &[u8]) -> (r: Result<(), MsgPackErr>)
        ensures
            encoded(
                old(self).sink(),
                final(self).sink(),
                r,
                ext_rejection((ExtensionView { type_id: TIMESTAMP_TYPE, data: data@ })),
                ext_encoding((ExtensionView { type_id: TIMESTAMP_TYPE, data: data@ })),
            ),
    {
        match Timestamp::from_payload(data) {
            None => Err(MsgPackErr::InvalidFormat(EXT32)),
            Some(t) => {
                let payload = t.to_payload();
                proof {
                    lemma_unpacked_in_range(data@);
                    lemma_unpack_packed(t.secs as int, t.nanos as int);
                }
                let head = ext_head(payload.len() as u32, TIMESTAMP_TYPE);
                self.put_framed(head.as_slice(), payload.as_slice())
            },
        }
    }
}

} // verus!
