//! Arrays: the count, then that many values.

use crate::decode::Decoder;
use crate::error::{ErrorView, MsgPackErr};
use crate::parse::{lemma_parse_follows, parse_arr, parse_items};
use crate::source::{obtained, viewed, Source};
use crate::value::{lemma_array_view, views, Value, ValueView};
use crate::wire::{array_tag, array_width_of, FIXARRAY};
use vstd::prelude::*;

verus! {

/// What reading `n` values gives, behind the values `done` that were read
/// before them.
pub open spec fn items_after(done: Seq<ValueView>, bytes: Seq<u8>, n: nat) -> Result<
    (Seq<ValueView>, Seq<u8>),
    ErrorView,
> {
    match parse_items(bytes, n) {
        Err(e) => Err(e),
        Ok((items, rest)) => Ok((done + items, rest)),
    }
}

impl<R: Source> Decoder<R> {
    /// Reads the array that follows the tag `prefix`: its count, then each
    /// element in order.
    pub fn decode_arr(&mut self, prefix: u8) -> (r: Result<Value, MsgPackErr>)
        ensures
            obtained(
                old(self).source(),
                final(self).source(),
                viewed(r),
                parse_arr(prefix, old(self).source().pending()),
            ),
        decreases old(self).source().pending().len(), 1nat,
    {
        if !array_tag(prefix) {
            return Err(MsgPackErr::InvalidFormat(prefix));
        }
        let width = array_width_of(prefix);
        let fixed = (prefix - FIXARRAY) as usize;
        let len = match self.read_len(width, fixed) {
            Err(e) => {
                return Err(e);
            },
            Ok(n) => n,
        };
        let ghost start = old(self).source();
        let ghost after = self.source().pending();
        let mut arr: Vec<Value> = Vec::new();
        let mut i: usize = 0;
        assert(views(arr@) + parse_items(after, len as nat)->Ok_0.0 =~= parse_items(
            after,
            len as nat,
        )->Ok_0.0);
        while i < len
            invariant
                i <= len,
                self.source().reliable() == start.reliable(),
                self.source().pending().len() <= after.len(),
                after.len() <= start.pending().len(),
                start == old(self).source(),
                parse_arr(prefix, start.pending()) == (match parse_items(after, len as nat) {
                    Err(e) => Err(e),
                    Ok((items, rest)) => Ok((ValueView::Array(items), rest)),
                }),
                items_after(views(arr@), self.source().pending(), (len - i) as nat) == parse_items(
                    after,
                    len as nat,
                ),
            decreases len - i,
        {
            let ghost before = self.source().pending();
            let ghost done = views(arr@);
            proof {
                lemma_parse_follows(before);
            }
            match self.decode() {
                Err(e) => {
                    return Err(e);
                },
                Ok(value) => {
                    arr.push(value);
                    proof {
                        let rest = self.source().pending();
                        let more = parse_items(rest, (len - i - 1) as nat);
                        assert(views(arr@) =~= done + seq![value@]);
                        if more is Ok {
                            assert(done + (seq![value@] + more->Ok_0.0) =~= views(arr@)
                                + more->Ok_0.0);
                        }
                    }
                },
            }
            i += 1;
        }
        proof {
            lemma_array_view(arr);
            assert(views(arr@) + Seq::<ValueView>::empty() =~= views(arr@));
        }
        Ok(Value::Array(arr))
    }
}

} // verus!
