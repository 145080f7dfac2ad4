//! Maps: the count, then the pairs in order, each key before its value.

use crate::bytes::{push_be16, push_be32};
use crate::encode::validate::validate_map;
use crate::encode::Encoder;
use crate::error::MsgPackErr;
use crate::sink::{emitted, encoded, lemma_emitted_next, lemma_emitted_part, Sink};
use crate::value::{pair_views, Value};
use crate::wire::{
    encoding, lemma_pairs_accepted, lemma_pairs_encoding_grows, map_encoding, map_header,
    map_rejection, pairs_encoding, FIXMAP, MAP16, MAP32,
};
use vstd::prelude::*;

verus! {

/// What precedes the pairs of a map of `len` pairs.
pub fn map_head(len: u32) -> (out: Vec<u8>)
    ensures
        out@ == map_header(len as int),
{
    let mut out: Vec<u8> = Vec::new();
    if len <= 15 {
        out.push(FIXMAP + (len as u8));
    } else if len <= 0xffff {
        out.push(MAP16);
        push_be16(&mut out, len as u16);
    } else {
        out.push(MAP32);
        push_be32(&mut out, len);
    }
    assert(out@ =~= map_header(len as int));
    out
}

impl<W: Sink> Encoder<W> {
    /// Writes a map: the narrowest header for its count, then each pair in
    /// the order given, the key before its value. A map with too many pairs,
    /// or with a key or value that cannot be written, is refused before
    /// anything is written.
    pub fn encode_map(&mut self, map: &[(Value, Value)]) -> (r: Result<(), MsgPackErr>)
        ensures
            encoded(
                old(self).sink(),
                final(self).sink(),
                r,
                map_rejection(pair_views(map@)),
                map_encoding(pair_views(map@)),
            ),
    {
        match validate_map(map) {
            Err(e) => Err(e),
            Ok(()) => self.emit_map(map),
        }
    }

    /// Writes a map that is known to be writable.
    pub(crate) fn emit_map(&mut self, map: &[(Value, Value)]) -> (r: Result<(), MsgPackErr>)
        requires
            map_rejection(pair_views(map@)) is None,
        ensures
            emitted(old(self).sink(), final(self).sink(), r, map_encoding(pair_views(map@))),
        decreases map@,
    {
        let n = map.len();
        let ghost pairs = pair_views(map@);
        let ghost start = self.sink();
        let head = map_head(n as u32);
        match self.put(head.as_slice()) {
            Err(e) => {
                proof {
                    lemma_emitted_part(start, self.sink(), Err(e), head@, map_encoding(pairs));
                }
                return Err(e);
            },
            Ok(()) => {},
        }
        let mut i: usize = 0;
        assert(head@ + pairs_encoding(pairs, 0) =~= head@);
        while i < n
            invariant
                n == map@.len(),
                i <= n,
                pairs == pair_views(map@),
                start == old(self).sink(),
                head@ == map_header(n as int),
                map_rejection(pairs) is None,
                emitted(start, self.sink(), Ok(()), head@ + pairs_encoding(pairs, i as nat)),
            decreases n - i,
        {
            let ghost done = head@ + pairs_encoding(pairs, i as nat);
            let ghost key = encoding(pairs[i as int].0);
            let ghost value = encoding(pairs[i as int].1);
            proof {
                lemma_pairs_accepted(pairs, n as nat, i as int);
                lemma_pairs_encoding_grows(pairs, (i + 1) as nat, n as nat);
                assert(done + key + value =~= head@ + pairs_encoding(pairs, (i + 1) as nat));
                assert((done + key).is_prefix_of(done + key + value));
            }
            let ghost before = self.sink();
            let r = self.emit(&map[i].0);
            proof {
                lemma_emitted_next(start, before, self.sink(), r, done, key);
            }
            match r {
                Err(e) => {
                    proof {
                        lemma_emitted_part(start, self.sink(), r, done + key, map_encoding(pairs));
                    }
                    return Err(e);
                },
                Ok(()) => {},
            }
            let ghost between = self.sink();
            let r = self.emit(&map[i].1);
            proof {
                lemma_emitted_next(start, between, self.sink(), r, done + key, value);
            }
            match r {
                Err(e) => {
                    proof {
                        lemma_emitted_part(
                            start,
                            self.sink(),
                            r,
                            done + key + value,
                            map_encoding(pairs),
                        );
                    }
                    return Err(e);
                },
                Ok(()) => {},
            }
            i += 1;
        }
        Ok(())
    }
}

} // verus!
