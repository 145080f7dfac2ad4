//! A source that yields bytes on demand, and what it means for a value to
//! have been read from one.

use crate::error::{ErrorView, MsgPackErr};
use crate::parse::{failed, found, take};
use vstd::prelude::*;
use vstd::slice::{slice_subrange, slice_to_vec};

verus! {

/// Where a decoder reads. An implementation reports through `pending` the
/// bytes that it has yet to yield, in order.
///
/// The defaults are for implementations outside verified code, which cannot
/// say what they hold: such a source counts as one that may fail, and what is
/// proved of the values read from it rests on its keeping to the contract of
/// `read_exact`.
pub trait Source {
    /// The bytes yet to be yielded.
    open spec fn pending(&self) -> Seq<u8> {
        arbitrary()
    }

    /// Whether reading fails only at the end of the input.
    open spec fn reliable(&self) -> bool {
        false
    }

    /// Yields the next `n` bytes. Where fewer than `n` are left this fails
    /// with `UnexpectedEof`; any other failure is an `Io` one.
    fn read_exact(&mut self, n: usize) -> (r: Result<Vec<u8>, MsgPackErr>)
        ensures
            final(self).reliable() == old(self).reliable(),
            match r {
                Ok(bytes) => take(old(self).pending(), n as int) == found(
                    bytes@,
                    final(self).pending(),
                ),
                Err(e) => if e@ == ErrorView::Io {
                    !old(self).reliable()
                } else {
                    e@ == ErrorView::UnexpectedEof && take(old(self).pending(), n as int) is Err
                },
            },
    ;
}

/// Reads from a slice of bytes in memory.
pub struct SliceReader<'a> {
    pub data: &'a [u8],
    pub pos: usize,
}

impl<'a> SliceReader<'a> {
    /// The bytes from `pos` on.
    pub open spec fn unread(&self) -> Seq<u8> {
        if self.pos <= self.data@.len() {
            self.data@.skip(self.pos as int)
        } else {
            Seq::empty()
        }
    }

    /// A reader at the start of `data`.
    pub fn new(data: &'a [u8]) -> (r: Self)
        ensures
            r.pending() == data@,
            r.data == data,
            r.pos == 0,
    {
        assert(data@.skip(0) =~= data@);
        SliceReader { data, pos: 0 }
    }
}

/// A slice yields its bytes from `pos` on and fails only at its end.
impl<'a> Source for SliceReader<'a> {
    open spec fn pending(&self) -> Seq<u8> {
        self.unread()
    }

    open spec fn reliable(&self) -> bool {
        true
    }

    fn read_exact(&mut self, n: usize) -> (r: Result<Vec<u8>, MsgPackErr>) {
        let len = self.data.len();
        let start = if self.pos <= len {
            self.pos
        } else {
            len
        };
        if n > len - start {
            return Err(MsgPackErr::UnexpectedEof);
        }
        let end = start + n;
        let bytes = slice_to_vec(slice_subrange(self.data, start, end));
        proof {
            let p = old(self).unread();
            assert(p =~= self.data@.skip(start as int));
            assert(bytes@ =~= p.take(n as int));
            assert(self.data@.skip(end as int) =~= p.skip(n as int));
        }
        self.pos = end;
        Ok(bytes)
    }
}

/// A borrowed source is a source.
impl<'a, R: Source> Source for &'a mut R {
    open spec fn pending(&self) -> Seq<u8> {
        (**self).pending()
    }

    open spec fn reliable(&self) -> bool {
        (**self).reliable()
    }

    fn read_exact(&mut self, n: usize) -> (r: Result<Vec<u8>, MsgPackErr>) {
        (**self).read_exact(n)
    }
}

/// What a result says, with the value and the error each taken by its view.
pub open spec fn viewed<T: View>(r: Result<T, MsgPackErr>) -> Result<T::V, ErrorView> {
    match r {
        Ok(v) => Ok(v@),
        Err(e) => Err(e@),
    }
}

/// Reading took a source from `before` to `after` and gave `got`, where the
/// bytes that were pending read as `expected`: on success the value is the
/// expected one and exactly the bytes behind it are still pending; a failure
/// is the expected one, unless the source itself failed, which a reliable
/// source does not.
pub open spec fn obtained<R: Source, V>(
    before: R,
    after: R,
    got: Result<V, ErrorView>,
    expected: Result<(V, Seq<u8>), ErrorView>,
) -> bool {
    &&& after.reliable() == before.reliable()
    &&& match got {
        Ok(v) => expected == found(v, after.pending()),
        Err(e) => if e == ErrorView::Io {
            !before.reliable()
        } else {
            expected == failed::<V>(e)
        },
    }
}

} // verus!
