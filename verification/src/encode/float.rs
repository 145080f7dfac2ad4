//! Floating-point numbers, given by their IEEE-754 bit patterns.

use crate::bytes::{push_be32, push_be64};
use crate::encode::Encoder;
use crate::error::MsgPackErr;
use crate::sink::{emitted, Sink};
use crate::wire::{double_encoding, single_encoding, FLOAT32, FLOAT64};
use vstd::prelude::*;

verus! {

impl<W: Sink> Encoder<W> {
    /// Writes a number in double precision, given by its bit pattern.
    pub fn encode_f64(&mut self, bits: u64) -> (r: Result<(), MsgPackErr>)
        ensures
            emitted(old(self).sink(), final(self).sink(), r, double_encoding(bits as int)),
    {
        let mut out: Vec<u8> = Vec::new();
        out.push(FLOAT64);
        push_be64(&mut out, bits);
        assert(out@ =~= double_encoding(bits as int));
        self.put(out.as_slice())
    }

    /// Writes a number in single precision, given by its bit pattern. No
    /// value holds single precision; this is for a producer that wants the
    /// shorter form on the wire.
    pub fn encode_f32(&mut self, bits: u32) -> (r: Result<(), MsgPackErr>)
        ensures
            emitted(old(self).sink(), final(self).sink(), r, single_encoding(bits as int)),
    {
        let mut out: Vec<u8> = Vec::new();
        out.push(FLOAT32);
        push_be32(&mut out, bits);
        assert(out@ =~= single_encoding(bits as int));
        self.put(out.as_slice())
    }
}

} // verus!
