//! Maps: the count, then that many pairs, each key before its value.

use crate::decode::Decoder;
use crate::error::{ErrorView, MsgPackErr};
use crate::parse::{lemma_parse_follows, parse_map, parse_pairs};
use crate::source::{obtained, Source};
use crate::value::{pair_views, Value, ValueView};
use crate::wire::{map_tag, map_width_of, FIXMAP};
use vstd::prelude::*;

verus! {

/// What reading `n` pairs gives, behind the pairs `done` that were read
/// before them.
pub open spec fn pairs_after(
    done: Seq<(ValueView, ValueView)>,
    bytes: Seq<u8>,
    n: nat,
) -> Result<(Seq<(ValueView, ValueView)>, Seq<u8>), ErrorView> {
    match parse_pairs(bytes, n) {
        Err(e) => Err(e),
        Ok((pairs, rest)) => Ok((done + pairs, rest)),
    }
}

/// What a result of pairs says, each key and value taken by its view.
pub open spec fn pairs_viewed(r: Result<Vec<(Value, Value)>, MsgPackErr>) -> Result<
    Seq<(ValueView, ValueView)>,
    ErrorView,
> {
    match r {
        Ok(pairs) => Ok(pair_views(pairs@)),
        Err(e) => Err(e@),
    }
}

impl<R: Source> Decoder<R> {
    /// Reads the pairs of the map that follows the tag `prefix`: its count,
    /// then each pair in order, the key before its value.
    pub fn decode_map(&mut self, prefix: u8) -> (r: Result<Vec<(Value, Value)>, MsgPackErr>)
        ensures
            obtained(
                old(self).source(),
                final(self).source(),
                pairs_viewed(r),
                parse_map(prefix, old(self).source().pending()),
            ),
        decreases old(self).source().pending().len(), 1nat,
    {
        if !map_tag(prefix) {
            return Err(MsgPackErr::InvalidFormat(prefix));
        }
        let width = map_width_of(prefix);
        let fixed = (prefix - FIXMAP) as usize;
        let len = match self.read_len(width, fixed) {
            Err(e) => {
                return Err(e);
            },
            Ok(n) => n,
        };
        let ghost start = old(self).source();
        let ghost after = self.source().pending();
        let mut map: Vec<(Value, Value)> = Vec::new();
        let mut i: usize = 0;
        assert(pair_views(map@) + parse_pairs(after, len as nat)->Ok_0.0 =~= parse_pairs(
            after,
            len as nat,
        )->Ok_0.0);
        while i < len
            invariant
                i <= len,
                self.source().reliable() == start.reliable(),
                self.source().pending().len() <= after.len(),
                after.len() <= start.pending().len(),
                start == old(self).source(),
                parse_map(prefix, start.pending()) == parse_pairs(after, len as nat),
                pairs_after(pair_views(map@), self.source().pending(), (len - i) as nat)
                    == parse_pairs(after, len as nat),
            decreases len - i,
        {
            let ghost before = self.source().pending();
            let ghost done = pair_views(map@);
            proof {
                lemma_parse_follows(before);
            }
            let key = match self.decode() {
                Err(e) => {
                    return Err(e);
                },
                Ok(k) => k,
            };
            proof {
                lemma_parse_follows(self.source().pending());
            }
            let val = match self.decode() {
                Err(e) => {
                    return Err(e);
                },
                Ok(v) => v,
            };
            let ghost pair = (key@, val@);
            map.push((key, val));
            proof {
                let rest = self.source().pending();
                let more = parse_pairs(rest, (len - i - 1) as nat);
                assert(pair_views(map@) =~= done + seq![pair]);
                if more is Ok {
                    assert(done + (seq![pair] + more->Ok_0.0) =~= pair_views(map@)
                        + more->Ok_0.0);
                }
            }
            i += 1;
        }
        proof {
            assert(pair_views(map@) + Seq::<(ValueView, ValueView)>::empty() =~= pair_views(
                map@,
            ));
        }
        Ok(map)
    }
}

} // verus!
