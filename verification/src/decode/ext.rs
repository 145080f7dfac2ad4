//! Extensions: the length, the type identifier, the payload. A timestamp is
//! kept as the narrowest payload of its instant.

use crate::decode::Decoder;
use crate::error::MsgPackErr;
use crate::parse::{parse_ext, parse_timestamp, BAD_TIMESTAMP};
use crate::source::{obtained, viewed, Source};
use crate::timestamp::{TIMESTAMP_TYPE, Timestamp};
use crate::value::{Extension, Value};
use crate::wire::{ext_fixed, ext_tag, ext_width_of};
use vstd::prelude::*;

verus! {

impl<R: Source> Decoder<R> {
    /// Reads the extension that follows the tag `prefix`: its length, its
    /// type identifier, then its payload. A timestamp goes through
    /// `decode_timestamp`.
    pub fn decode_ext(&mut self, prefix: u8) -> (r: Result<Value, MsgPackErr>)
        ensures
            obtained(
                old(self).source(),
                final(self).source(),
                viewed(r),
                parse_ext(prefix, old(self).source().pending()),
            ),
    {
        if !ext_tag(prefix) {
            return Err(MsgPackErr::InvalidFormat(prefix));
        }
        let width = ext_width_of(prefix);
        let fixed = ext_fixed(prefix);
        let len = match self.read_len(width, fixed) {
            Err(e) => {
                return Err(e);
            },
            Ok(n) => n,
        };
        let type_id = match self.read_i8() {
            Err(e) => {
                return Err(e);
            },
            Ok(t) => t,
        };
        let data = match self.get(len) {
            Err(e) => {
                return Err(e);
            },
            Ok(b) => b,
        };
        if type_id == TIMESTAMP_TYPE {
            match Self::decode_timestamp(data.as_slice()) {
                Err(e) => Err(e),
                Ok(e) => Ok(Value::Extension(e)),
            }
        } else {
            Ok(Value::Extension(Extension { type_id, data }))
        }
    }

    /// Makes the timestamp extension of a payload of 4, 8 or 12 bytes: the
    /// narrowest payload of the instant it carries. A payload of another
    /// length is reported as `InvalidFormat` with the timestamp's type byte.
    pub fn decode_timestamp(data: &[u8]) -> (r: Result<Extension, MsgPackErr>)
        ensures
            viewed(r) == parse_timestamp(data@),
    {
        match Timestamp::from_payload(data) {
            None => Err(MsgPackErr::InvalidFormat(BAD_TIMESTAMP)),
            Some(t) => Ok(Extension { type_id: TIMESTAMP_TYPE, data: t.to_payload() }),
        }
    }
}

} // verus!
