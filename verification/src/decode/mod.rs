//! The decoder: reads a tag byte, goes by it alone to the form it names, and
//! rebuilds the value, children in order.

use crate::error::MsgPackErr;
use crate::parse::{parse, take};
use crate::source::{obtained, viewed, Source};
use crate::value::{lemma_mapping_view, Value};
use crate::wire::{
    array_tag, bin_tag, ext_tag, float_tag, int_tag, map_tag, str_tag, FALSE, NIL, TRUE,
};
use vstd::prelude::*;

pub mod array;
pub mod bin;
pub mod ext;
pub mod float;
pub mod integer;
pub mod mapping;
pub mod string;
pub mod utils;

verus! {

/// Reads values from a source that it owns.
pub struct Decoder<R: Source> {
    pub(crate) r: R,
}

impl<R: Source> Decoder<R> {
    /// The source as it stands.
    pub closed spec fn source(&self) -> R {
        self.r
    }

    /// A decoder that reads from `r`.
    pub fn new(r: R) -> (d: Self)
        ensures
            d.source() == r,
    {
        Decoder { r }
    }

    /// Gives the source back.
    pub fn into_inner(self) -> (r: R)
        ensures
            r == self.source(),
    {
        self.r
    }

    /// Asks the source for the next `n` bytes.
    pub(crate) fn get(&mut self, n: usize) -> (r: Result<Vec<u8>, MsgPackErr>)
        ensures
            obtained(
                old(self).source(),
                final(self).source(),
                viewed(r),
                take(old(self).source().pending(), n as int),
            ),
    {
        self.r.read_exact(n)
    }

    /// Reads one value and uses exactly the bytes that belong to it: the tag
    /// byte names the form, the form says what follows. A tag that no form
    /// has is reported as `InvalidFormat` with that byte.
    pub fn decode(&mut self) -> (r: Result<Value, MsgPackErr>)
        ensures
            obtained(
                old(self).source(),
                final(self).source(),
                viewed(r),
                parse(old(self).source().pending()),
            ),
        decreases old(self).source().pending().len(), 0nat,
    {
        let prefix = match self.read_u8() {
            Err(e) => {
                return Err(e);
            },
            Ok(b) => b,
        };
        let ghost bytes = old(self).source().pending();
        assert(self.source().pending() == bytes.skip(1) && bytes.len() > 0 && prefix == bytes[0]);
        if prefix == NIL {
            Ok(Value::Nil)
        } else if prefix == FALSE {
            Ok(Value::Boolean(false))
        } else if prefix == TRUE {
            Ok(Value::Boolean(true))
        } else if int_tag(prefix) {
            self.decode_int(prefix)
        } else if float_tag(prefix) {
            self.decode_float(prefix)
        } else if str_tag(prefix) {
            match self.decode_str(prefix) {
                Err(e) => Err(e),
                Ok(s) => Ok(Value::String(s)),
            }
        } else if bin_tag(prefix) {
            self.decode_bin(prefix)
        } else if array_tag(prefix) {
            self.decode_arr(prefix)
        } else if map_tag(prefix) {
            match self.decode_map(prefix) {
                Err(e) => Err(e),
                Ok(pairs) => {
                    proof {
                        lemma_mapping_view(pairs);
                    }
                    Ok(Value::Mapping(pairs))
                },
            }
        } else if ext_tag(prefix) {
            self.decode_ext(prefix)
        } else {
            Err(MsgPackErr::InvalidFormat(prefix))
        }
    }
}

} // verus!
