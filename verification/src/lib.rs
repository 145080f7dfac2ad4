//! MessagePack: a dynamic, self-describing value is encoded into a compact
//! stream of bytes and decoded from one.
//!
//! - [`value`] holds the value model and its mathematical view.
//! - [`wire`] says, as mathematics, which bytes stand for a value, and
//!   [`parse`] which value a sequence of bytes starts with.
//! - [`encode`] and [`decode`] hold the encoder and the decoder; their
//!   contracts are stated over `wire` and `parse`.
//! - [`sink`] and [`source`] are what the two write to and read from.
//! - [`timestamp`] is the timestamp extension, [`float`] the widening of
//!   single precision, [`bytes`] the big-endian fields.
//! - [`laws`] proves what holds of encoding and decoding together: round
//!   trip, minimality, and what reading reports.
//! - [`error`] is the closed set of failures.

use crate::decode::Decoder;
use crate::encode::Encoder;
use crate::error::{write_outcome, ErrorView, MsgPackErr};
use crate::parse::{failed, parse};
use crate::sink::{encoded, Sink};
use crate::source::{SliceReader, Source};
use crate::value::{Value, ValueView};
use crate::wire::{encoding, rejection};
use vstd::prelude::*;

pub mod bytes;
pub mod decode;
pub mod encode;
pub mod error;
pub mod float;
pub mod laws;
pub mod parse;
pub mod sink;
pub mod source;
pub mod timestamp;
pub mod value;
pub mod wire;

verus! {

/// Encodes a value into a vector of bytes. A value that cannot be written,
/// for a length beyond 32 bits or a timestamp of a wrong length, is refused
/// as `InvalidFormat` with its rejection byte.
pub fn to_vec(value: &Value) -> (r: Result<Vec<u8>, MsgPackErr>)
    ensures
        match rejection(value@) {
            Some(b) => r matches Err(e) && e@ == ErrorView::InvalidFormat(b),
            None => r matches Ok(bytes) && bytes@ == encoding(value@),
        },
{
    let mut enc = Encoder::new(Vec::new());
    match enc.encode(value) {
        Err(e) => Err(e),
        Ok(()) => {
            let buf = enc.into_inner();
            assert(buf@ =~= encoding(value@));
            Ok(buf)
        },
    }
}

/// Encodes a value to a sink: the value is encoded in memory and handed
/// over in one write, so that a value that cannot be written leaves the sink
/// untouched.
pub fn to_writer<W: Sink>(writer: &mut W, value: &Value) -> (r: Result<(), MsgPackErr>)
    ensures
        encoded(*old(writer), *final(writer), r, rejection(value@), encoding(value@)),
{
    match to_vec(value) {
        Err(e) => Err(e),
        Ok(bytes) => write_outcome(writer.write_all(bytes.as_slice())),
    }
}

/// Decodes the value that a slice of bytes starts with. Bytes behind the
/// value are left unread. This fails exactly where `parse` does, and as it
/// does.
pub fn from_slice(data: &[u8]) -> (r: Result<Value, MsgPackErr>)
    ensures
        match r {
            Ok(v) => parse(data@) matches Ok((first, _)) && first == v@,
            Err(e) => parse(data@) == failed::<ValueView>(e@),
        },
{
    let mut dec = Decoder::new(SliceReader::new(data));
    dec.decode()
}

/// Decodes the value that a source yields first. With a borrowed source the
/// bytes behind the value can be read afterwards. Only a source that is not
/// reliable can fail with `Io`.
pub fn from_reader<R: Source>(reader: R) -> (r: Result<Value, MsgPackErr>)
    ensures
        match r {
            Ok(v) => parse(reader.pending()) matches Ok((first, _)) && first == v@,
            Err(e) => if e@ == ErrorView::Io {
                !reader.reliable()
            } else {
                parse(reader.pending()) == failed::<ValueView>(e@)
            },
        },
{
    let mut dec = Decoder::new(reader);
    dec.decode()
}

} // verus!
