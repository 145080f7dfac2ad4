//! Integers: unsigned under an unsigned tag, signed under a signed one.

use crate::bytes::i8_of;
use crate::decode::Decoder;
use crate::error::MsgPackErr;
use crate::parse::parse_int;
use crate::source::{obtained, viewed, Source};
use crate::value::{Integer, Value};
use crate::wire::{INT16, INT32, INT64, INT8, NEGATIVE_FIXINT, UINT16, UINT32, UINT64, UINT8};
use vstd::prelude::*;

verus! {

impl<R: Source> Decoder<R> {
    /// Reads the integer that follows the tag `prefix`. The tag decides
    /// whether it is signed, not its magnitude.
    pub fn decode_int(&mut self, prefix: u8) -> (r: Result<Value, MsgPackErr>)
        ensures
            obtained(
                old(self).source(),
                final(self).source(),
                viewed(r),
                parse_int(prefix, old(self).source().pending()),
            ),
    {
        if prefix <= 0x7f {
            Ok(Value::Integer(Integer::U64(prefix as u64)))
        } else if prefix >= NEGATIVE_FIXINT {
            Ok(Value::Integer(Integer::I64(i8_of(prefix) as i64)))
        } else if prefix == UINT8 {
            match self.read_u8() {
                Err(e) => Err(e),
                Ok(n) => Ok(Value::Integer(Integer::U64(n as u64))),
            }
        } else if prefix == UINT16 {
            match self.read_u16() {
                Err(e) => Err(e),
                Ok(n) => Ok(Value::Integer(Integer::U64(n as u64))),
            }
        } else if prefix == UINT32 {
            match self.read_u32() {
                Err(e) => Err(e),
                Ok(n) => Ok(Value::Integer(Integer::U64(n as u64))),
            }
        } else if prefix == UINT64 {
            match self.read_u64() {
                Err(e) => Err(e),
                Ok(n) => Ok(Value::Integer(Integer::U64(n))),
            }
        } else if prefix == INT8 {
            match self.read_i8() {
                Err(e) => Err(e),
                Ok(n) => Ok(Value::Integer(Integer::I64(n as i64))),
            }
        } else if prefix == INT16 {
            match self.read_i16() {
                Err(e) => Err(e),
                Ok(n) => Ok(Value::Integer(Integer::I64(n as i64))),
            }
        } else if prefix == INT32 {
            match self.read_i32() {
                Err(e) => Err(e),
                Ok(n) => Ok(Value::Integer(Integer::I64(n as i64))),
            }
        } else if prefix == INT64 {
            match self.read_i64() {
                Err(e) => Err(e),
                Ok(n) => Ok(Value::Integer(Integer::I64(n))),
            }
        } else {
            Err(MsgPackErr::InvalidFormat(prefix))
        }
    }
}

} // verus!
