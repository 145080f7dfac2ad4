//! The encoder: walks a value depth first and writes, for each node, the
//! narrowest wire form that can carry it.

use crate::encode::validate::validate;
use crate::error::{write_outcome, MsgPackErr};
use crate::sink::{emitted, encoded, lemma_emitted_next, lemma_emitted_part, Sink};
use crate::value::{lemma_array_view, lemma_mapping_view, Integer, Value};
use crate::wire::{encoding, rejection, FALSE, NIL, TRUE};
use vstd::prelude::*;

pub mod array;
pub mod bin;
pub mod ext;
pub mod float;
pub mod integer;
pub mod mapping;
pub mod string;
pub mod validate;

verus! {

/// Writes values to a sink that it owns.
pub struct Encoder<W: Sink> {
    pub(crate) w: W,
}

impl<W: Sink> Encoder<W> {
    /// The sink as it stands.
    pub closed spec fn sink(&self) -> W {
        self.w
    }

    /// An encoder that writes to `w`.
    pub fn new(w: W) -> (r: Self)
        ensures
            r.sink() == w,
    {
        Encoder { w }
    }

    /// Gives the sink back.
    pub fn into_inner(self) -> (w: W)
        ensures
            w == self.sink(),
    {
        self.w
    }

    /// Writes one value: each node in the narrowest form that carries it,
    /// children in order, a map's key before its value. A value that cannot
    /// be written is refused before anything is written.
    pub fn encode(&mut self, val: &Value) -> (r: Result<(), MsgPackErr>)
        ensures
            encoded(old(self).sink(), final(self).sink(), r, rejection(val@), encoding(val@)),
    {
        match validate(val) {
            Err(e) => Err(e),
            Ok(()) => self.emit(val),
        }
    }

    /// Writes a value that is known to be writable.
    pub(crate) fn emit(&mut self, val: &Value) -> (r: Result<(), MsgPackErr>)
        requires
            rejection(val@) is None,
        ensures
            emitted(old(self).sink(), final(self).sink(), r, encoding(val@)),
        decreases val,
    {
        match val {
            Value::Nil => {
                let tag: [u8; 1] = [NIL];
                assert(tag@ =~= encoding(val@));
                self.put(tag.as_slice())
            },
            Value::Boolean(b) => {
                let tag: [u8; 1] = [if *b { TRUE } else { FALSE }];
                assert(tag@ =~= encoding(val@));
                self.put(tag.as_slice())
            },
            Value::Integer(i) => match i {
                Integer::U64(v) => self.encode_u64(*v),
                Integer::I64(v) => self.encode_i64(*v),
            },
            Value::Float(bits) => self.encode_f64(*bits),
            Value::String(s) => self.encode_str(s.as_str()),
            Value::Binary(bin) => self.encode_bin(bin.as_slice()),
            Value::Array(arr) => {
                proof {
                    lemma_array_view(*arr);
                }
                self.emit_arr(arr.as_slice())
            },
            Value::Mapping(m) => {
                proof {
                    lemma_mapping_view(*m);
                }
                self.emit_map(m.as_slice())
            },
            Value::Extension(e) => self.encode_ext(e),
        }
    }

    /// Hands `bytes` to the sink in one write.
    pub(crate) fn put(&mut self, bytes: &[u8]) -> (r: Result<(), MsgPackErr>)
        ensures
            emitted(old(self).sink(), final(self).sink(), r, bytes@),
    {
        write_outcome(self.w.write_all(bytes))
    }

    /// Hands `head` and then `body` to the sink.
    pub(crate) fn put_framed(&mut self, head: &[u8], body: &[u8]) -> (r: Result<
        (),
        MsgPackErr,
    >)
        ensures
            emitted(old(self).sink(), final(self).sink(), r, head@ + body@),
    {
        match self.put(head) {
            Err(e) => {
                proof {
                    lemma_emitted_part(old(self).sink(), self.sink(), Err(e), head@, head@ + body@);
                }
                Err(e)
            },
            Ok(()) => {
                let ghost mid = self.sink();
                let r = self.put(body);
                proof {
                    lemma_emitted_next(old(self).sink(), mid, self.sink(), r, head@, body@);
                }
                r
            },
        }
    }
}

} // verus!
