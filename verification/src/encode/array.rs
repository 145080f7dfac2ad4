//! Arrays: the count, then the elements in order.

use crate::bytes::{push_be16, push_be32};
use crate::encode::validate::validate_arr;
use crate::encode::Encoder;
use crate::error::MsgPackErr;
use crate::sink::{emitted, encoded, lemma_emitted_next, lemma_emitted_part, Sink};
use crate::value::{views, Value};
use crate::wire::{
    array_encoding, array_header, array_rejection, encoding, items_encoding, lemma_items_accepted,
    lemma_items_encoding_grows, ARRAY16, ARRAY32, FIXARRAY,
};
use vstd::prelude::*;

verus! {

/// What precedes the elements of an array of `len` elements.
pub fn array_head(len: u32) -> (out: Vec<u8>)
    ensures
        out@ == array_header(len as int),
{
    let mut out: Vec<u8> = Vec::new();
    if len <= 15 {
        out.push(FIXARRAY + (len as u8));
    } else if len <= 0xffff {
        out.push(ARRAY16);
        push_be16(&mut out, len as u16);
    } else {
        out.push(ARRAY32);
        push_be32(&mut out, len);
    }
    assert(out@ =~= array_header(len as int));
    out
}

impl<W: Sink> Encoder<W> {
    /// Writes an array: the narrowest header for its count, then each element
    /// in order. An array with too many elements, or with an element that
    /// cannot be written, is refused before anything is written.
    pub fn encode_arr(&mut self, arr: &[Value]) -> (r: Result<(), MsgPackErr>)
        ensures
            encoded(
                old(self).sink(),
                final(self).sink(),
                r,
                array_rejection(views(arr@)),
                array_encoding(views(arr@)),
            ),
    {
        match validate_arr(arr) {
            Err(e) => Err(e),
            Ok(()) => self.emit_arr(arr),
        }
    }

    /// Writes an array that is known to be writable.
    pub(crate) fn emit_arr(&mut self, arr: &[Value]) -> (r: Result<(), MsgPackErr>)
        requires
            array_rejection(views(arr@)) is None,
        ensures
            emitted(old(self).sink(), final(self).sink(), r, array_encoding(views(arr@))),
        decreases arr@,
    {
        let n = arr.len();
        let ghost items = views(arr@);
        let ghost start = self.sink();
        let head = array_head(n as u32);
        match self.put(head.as_slice()) {
            Err(e) => {
                proof {
                    lemma_emitted_part(start, self.sink(), Err(e), head@, array_encoding(items));
                }
                return Err(e);
            },
            Ok(()) => {},
        }
        let mut i: usize = 0;
        assert(head@ + items_encoding(items, 0) =~= head@);
        while i < n
            invariant
                n == arr@.len(),
                i <= n,
                items == views(arr@),
                start == old(self).sink(),
                head@ == array_header(n as int),
                array_rejection(items) is None,
                emitted(start, self.sink(), Ok(()), head@ + items_encoding(items, i as nat)),
            decreases n - i,
        {
            let ghost before = self.sink();
            let ghost done = head@ + items_encoding(items, i as nat);
            proof {
                lemma_items_accepted(items, n as nat, i as int);
            }
            let r = self.emit(&arr[i]);
            proof {
                lemma_emitted_next(start, before, self.sink(), r, done, encoding(items[i as int]));
                assert(done + encoding(items[i as int]) =~= head@ + items_encoding(
                    items,
                    (i + 1) as nat,
                ));
            }
            match r {
                Err(e) => {
                    proof {
                        lemma_items_encoding_grows(items, (i + 1) as nat, n as nat);
                        lemma_emitted_part(
                            start,
                            self.sink(),
                            r,
                            head@ + items_encoding(items, (i + 1) as nat),
                            array_encoding(items),
                        );
                    }
                    return Err(e);
                },
                Ok(()) => {},
            }
            i += 1;
        }
        Ok(())
    }
}

} // verus!
