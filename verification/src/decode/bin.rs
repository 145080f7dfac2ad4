//! Binaries: the bytes behind the length.

use crate::decode::Decoder;
use crate::error::MsgPackErr;
use crate::parse::parse_bin;
use crate::source::{obtained, viewed, Source};
use crate::value::Value;
use crate::wire::{bin_tag, bin_width_of};
use vstd::prelude::*;

verus! {

impl<R: Source> Decoder<R> {
    /// Reads the binary that follows the tag `prefix`: its length, then its
    /// bytes.
    pub fn decode_bin(&mut self, prefix: u8) -> (r: Result<Value, MsgPackErr>)
        ensures
            obtained(
                old(self).source(),
                final(self).source(),
                viewed(r),
                parse_bin(prefix, old(self).source().pending()),
            ),
    {
        if !bin_tag(prefix) {
            return Err(MsgPackErr::InvalidFormat(prefix));
        }
        let width = bin_width_of(prefix);
        let len = match self.read_len(width, 0) {
            Err(e) => {
                return Err(e);
            },
            Ok(n) => n,
        };
        match self.get(len) {
            Err(e) => Err(e),
            Ok(payload) => Ok(Value::Binary(payload)),
        }
    }
}

} // verus!
