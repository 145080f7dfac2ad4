//! Floating-point numbers: double precision as it is, single precision
//! widened to double.

use crate::decode::Decoder;
use crate::error::MsgPackErr;
use crate::float::widen;
use crate::parse::parse_float;
use crate::source::{obtained, viewed, Source};
use crate::value::Value;
use crate::wire::{FLOAT32, FLOAT64};
use vstd::prelude::*;

verus! {

impl<R: Source> Decoder<R> {
    /// Reads the floating-point number that follows the tag `prefix`.
    pub fn decode_float(&mut self, prefix: u8) -> (r: Result<Value, MsgPackErr>)
        ensures
            obtained(
                old(self).source(),
                final(self).source(),
                viewed(r),
                parse_float(prefix, old(self).source().pending()),
            ),
    {
        if prefix == FLOAT32 {
            match self.read_u32() {
                Err(e) => Err(e),
                Ok(bits) => Ok(Value::Float(widen(bits))),
            }
        } else if prefix == FLOAT64 {
            match self.read_u64() {
                Err(e) => Err(e),
                Ok(bits) => Ok(Value::Float(bits)),
            }
        } else {
            Err(MsgPackErr::InvalidFormat(prefix))
        }
    }
}

} // verus!
