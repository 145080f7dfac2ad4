//! Fixed-width fields, big-endian.

use crate::bytes::{i16_of, i32_of, i64_of, i8_of, read_be16, read_be32, read_be64};
use crate::decode::Decoder;
use crate::error::{ErrorView, MsgPackErr};
use crate::parse::{
    declared, field_i16, field_i32, field_i64, field_i8, field_u16, field_u32, field_u64, field_u8,
};
use crate::source::{obtained, viewed, Source};
use vstd::prelude::*;

verus! {

/// A length as the number it is.
pub open spec fn counted(r: Result<usize, MsgPackErr>) -> Result<int, ErrorView> {
    match r {
        Ok(n) => Ok(n as int),
        Err(e) => Err(e@),
    }
}

impl<R: Source> Decoder<R> {
    /// Reads one byte.
    pub fn read_u8(&mut self) -> (r: Result<u8, MsgPackErr>)
        ensures
            obtained(
                old(self).source(),
                final(self).source(),
                viewed(r),
                field_u8(old(self).source().pending()),
            ),
    {
        match self.get(1) {
            Err(e) => Err(e),
            Ok(b) => Ok(b[0]),
        }
    }

    /// Reads an unsigned 16-bit number.
    pub fn read_u16(&mut self) -> (r: Result<u16, MsgPackErr>)
        ensures
            obtained(
                old(self).source(),
                final(self).source(),
                viewed(r),
                field_u16(old(self).source().pending()),
            ),
    {
        match self.get(2) {
            Err(e) => Err(e),
            Ok(b) => {
                assert(b@.skip(0) =~= b@);
                Ok(read_be16(b.as_slice(), 0))
            },
        }
    }

    /// Reads an unsigned 32-bit number.
    pub fn read_u32(&mut self) -> (r: Result<u32, MsgPackErr>)
        ensures
            obtained(
                old(self).source(),
                final(self).source(),
                viewed(r),
                field_u32(old(self).source().pending()),
            ),
    {
        match self.get(4) {
            Err(e) => Err(e),
            Ok(b) => {
                assert(b@.skip(0) =~= b@);
                Ok(read_be32(b.as_slice(), 0))
            },
        }
    }

    /// Reads an unsigned 64-bit number.
    pub fn read_u64(&mut self) -> (r: Result<u64, MsgPackErr>)
        ensures
            obtained(
                old(self).source(),
                final(self).source(),
                viewed(r),
                field_u64(old(self).source().pending()),
            ),
    {
        match self.get(8) {
            Err(e) => Err(e),
            Ok(b) => {
                assert(b@.skip(0) =~= b@);
                Ok(read_be64(b.as_slice(), 0))
            },
        }
    }

    /// Reads a signed 8-bit number.
    pub fn read_i8(&mut self) -> (r: Result<i8, MsgPackErr>)
        ensures
            obtained(
                old(self).source(),
                final(self).source(),
                viewed(r),
                field_i8(old(self).source().pending()),
            ),
    {
        match self.get(1) {
            Err(e) => Err(e),
            Ok(b) => Ok(i8_of(b[0])),
        }
    }

    /// Reads a signed 16-bit number.
    pub fn read_i16(&mut self) -> (r: Result<i16, MsgPackErr>)
        ensures
            obtained(
                old(self).source(),
                final(self).source(),
                viewed(r),
                field_i16(old(self).source().pending()),
            ),
    {
        match self.get(2) {
            Err(e) => Err(e),
            Ok(b) => {
                assert(b@.skip(0) =~= b@);
                Ok(i16_of(read_be16(b.as_slice(), 0)))
            },
        }
    }

    /// Reads a signed 32-bit number.
    pub fn read_i32(&mut self) -> (r: Result<i32, MsgPackErr>)
        ensures
            obtained(
                old(self).source(),
                final(self).source(),
                viewed(r),
                field_i32(old(self).source().pending()),
            ),
    {
        match self.get(4) {
            Err(e) => Err(e),
            Ok(b) => {
                assert(b@.skip(0) =~= b@);
                Ok(i32_of(read_be32(b.as_slice(), 0)))
            },
        }
    }

    /// Reads a signed 64-bit number.
    pub fn read_i64(&mut self) -> (r: Result<i64, MsgPackErr>)
        ensures
            obtained(
                old(self).source(),
                final(self).source(),
                viewed(r),
                field_i64(old(self).source().pending()),
            ),
    {
        match self.get(8) {
            Err(e) => Err(e),
            Ok(b) => {
                assert(b@.skip(0) =~= b@);
                Ok(i64_of(read_be64(b.as_slice(), 0)))
            },
        }
    }

    /// Reads the length or count that a tag declares: the number in the
    /// `width` bytes that follow, or `fixed` where the tag holds it itself.
    pub(crate) fn read_len(&mut self, width: usize, fixed: usize) -> (r: Result<
        usize,
        MsgPackErr,
    >)
        requires
            width == 0 || width == 1 || width == 2 || width == 4,
        ensures
            obtained(
                old(self).source(),
                final(self).source(),
                counted(r),
                declared(width as int, fixed as int, old(self).source().pending()),
            ),
    {
        if width == 0 {
            Ok(fixed)
        } else if width == 1 {
            match self.read_u8() {
                Err(e) => Err(e),
                Ok(n) => Ok(n as usize),
            }
        } else if width == 2 {
            match self.read_u16() {
                Err(e) => Err(e),
                Ok(n) => Ok(n as usize),
            }
        } else {
            match self.read_u32() {
                Err(e) => Err(e),
                Ok(n) => Ok(n as usize),
            }
        }
    }
}

} // verus!
