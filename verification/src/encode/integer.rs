//! Integers: the narrowest form for the number's magnitude.

use crate::bytes::{i16_bits, i32_bits, i64_bits, i8_bits, push_be16, push_be32, push_be64};
use crate::encode::Encoder;
use crate::error::MsgPackErr;
use crate::sink::{emitted, Sink};
use crate::wire::{
    signed_encoding, unsigned_encoding, INT16, INT32, INT64, INT8, UINT16, UINT32, UINT64, UINT8,
};
use vstd::prelude::*;

verus! {

/// The bytes of an unsigned number.
pub fn unsigned_bytes(value: u64) -> (out: Vec<u8>)
    ensures
        out@ == unsigned_encoding(value as int),
{
    let mut out: Vec<u8> = Vec::new();
    if value <= 0x7f {
        out.push(value as u8);
    } else if value <= 0xff {
        out.push(UINT8);
        out.push(value as u8);
    } else if value <= 0xffff {
        out.push(UINT16);
        push_be16(&mut out, value as u16);
    } else if value <= 0xffff_ffff {
        out.push(UINT32);
        push_be32(&mut out, value as u32);
    } else {
        out.push(UINT64);
        push_be64(&mut out, value);
    }
    assert(out@ =~= unsigned_encoding(value as int));
    out
}

/// The bytes of a signed number.
pub fn signed_bytes(value: i64) -> (out: Vec<u8>)
    ensures
        out@ == signed_encoding(value as int),
{
    if value >= 0 {
        unsigned_bytes(value as u64)
    } else {
        let mut out: Vec<u8> = Vec::new();
        if value >= -32 {
            out.push(i8_bits(value as i8));
        } else if value >= -0x80 {
            out.push(INT8);
            out.push(i8_bits(value as i8));
        } else if value >= -0x8000 {
            out.push(INT16);
            push_be16(&mut out, i16_bits(value as i16));
        } else if value >= -0x8000_0000 {
            out.push(INT32);
            push_be32(&mut out, i32_bits(value as i32));
        } else {
            out.push(INT64);
            push_be64(&mut out, i64_bits(value));
        }
        assert(out@ =~= signed_encoding(value as int));
        out
    }
}

impl<W: Sink> Encoder<W> {
    /// Writes a signed number in the narrowest form that carries it.
    pub fn encode_i64(&mut self, value: i64) -> (r: Result<(), MsgPackErr>)
        ensures
            emitted(old(self).sink(), final(self).sink(), r, signed_encoding(value as int)),
    {
        let bytes = signed_bytes(value);
        self.put(bytes.as_slice())
    }

    /// Writes an unsigned number in the narrowest form that carries it.
    pub fn encode_u64(&mut self, value: u64) -> (r: Result<(), MsgPackErr>)
        ensures
            emitted(old(self).sink(), final(self).sink(), r, unsigned_encoding(value as int)),
    {
        let bytes = unsigned_bytes(value);
        self.put(bytes.as_slice())
    }
}

} // verus!
