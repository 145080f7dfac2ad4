//! A sink that accepts bytes, and what it means for bytes to have been
//! written to one.

use crate::error::{ErrorView, MsgPackErr};
use vstd::prelude::*;

verus! {

/// Where an encoder writes. An implementation reports through `written` every
/// byte it has accepted so far, in order.
///
/// The defaults are for implementations outside verified code, which cannot
/// say what they hold: such a sink counts as one that may fail, and what is
/// proved of the bytes it holds rests on its keeping to the contract of
/// `write_all`.
pub trait Sink {
    /// The bytes accepted so far.
    open spec fn written(&self) -> Seq<u8> {
        arbitrary()
    }

    /// Whether every write is sure to succeed.
    open spec fn reliable(&self) -> bool {
        false
    }

    /// Appends all of `buf`. Where that fails, some part of `buf`, from its
    /// start, may have been appended all the same.
    fn write_all(&mut self, buf: &[u8]) -> (r: Result<(), std::io::Error>)
        ensures
            final(self).reliable() == old(self).reliable(),
            old(self).reliable() ==> r is Ok,
            r is Ok ==> final(self).written() == old(self).written() + buf@,
            r is Err ==> exists|n: int|
                0 <= n <= buf@.len() && final(self).written() == old(self).written()
                    + #[trigger] buf@.take(n),
    ;
}

/// A vector takes every byte and never fails.
impl Sink for Vec<u8> {
    open spec fn written(&self) -> Seq<u8> {
        self@
    }

    open spec fn reliable(&self) -> bool {
        true
    }

    fn write_all(&mut self, buf: &[u8]) -> (r: Result<(), std::io::Error>) {
        self.extend_from_slice(buf);
        Ok(())
    }
}

/// A borrowed sink is a sink.
impl<'a, W: Sink> Sink for &'a mut W {
    open spec fn written(&self) -> Seq<u8> {
        (**self).written()
    }

    open spec fn reliable(&self) -> bool {
        (**self).reliable()
    }

    fn write_all(&mut self, buf: &[u8]) -> (r: Result<(), std::io::Error>) {
        (**self).write_all(buf)
    }
}

/// A sink went from `before` to `after` by taking `bytes`, or, where `r` is an
/// error, by taking some part of `bytes` from their start and then failing.
/// A reliable sink does not fail.
pub open spec fn emitted<W: Sink>(
    before: W,
    after: W,
    r: Result<(), MsgPackErr>,
    bytes: Seq<u8>,
) -> bool {
    &&& after.reliable() == before.reliable()
    &&& match r {
        Ok(()) => after.written() == before.written() + bytes,
        Err(e) => {
            &&& e@ == ErrorView::Io
            &&& !before.reliable()
            &&& exists|n: int|
                0 <= n <= bytes.len() && after.written() == before.written()
                    + #[trigger] bytes.take(n)
        },
    }
}

/// The outcome of encoding one value: a value that cannot be written is
/// refused with its rejection byte before anything reaches the sink; any
/// other value is emitted.
pub open spec fn encoded<W: Sink>(
    before: W,
    after: W,
    r: Result<(), MsgPackErr>,
    rejection: Option<u8>,
    bytes: Seq<u8>,
) -> bool {
    match rejection {
        Some(b) => {
            &&& r matches Err(e)
            &&& e@ == ErrorView::InvalidFormat(b)
            &&& after == before
        },
        None => emitted(before, after, r, bytes),
    }
}

/// Emitting `x` and then `y` emits `x + y`, also where the second step fails.
pub proof fn lemma_emitted_next<W: Sink>(
    a: W,
    b: W,
    c: W,
    r: Result<(), MsgPackErr>,
    x: Seq<u8>,
    y: Seq<u8>,
)
    requires
        emitted(a, b, Ok(()), x),
        emitted(b, c, r, y),
    ensures
        emitted(a, c, r, x + y),
{
    match r {
        Ok(()) => {
            assert(a.written() + x + y =~= a.written() + (x + y));
        },
        Err(e) => {
            let n = choose|n: int|
                0 <= n <= y.len() && c.written() == b.written() + #[trigger] y.take(n);
            assert(a.written() + x + y.take(n) =~= a.written() + (x + y).take(x.len() + n));
        },
    }
}

/// A failed emission of `x` is a failed emission of anything that starts
/// with `x`.
pub proof fn lemma_emitted_part<W: Sink>(
    a: W,
    c: W,
    r: Result<(), MsgPackErr>,
    x: Seq<u8>,
    z: Seq<u8>,
)
    requires
        emitted(a, c, r, x),
        r is Err,
        x.is_prefix_of(z),
    ensures
        emitted(a, c, r, z),
{
    let n = choose|n: int| 0 <= n <= x.len() && c.written() == a.written() + #[trigger] x.take(n);
    assert(x.take(n) =~= z.take(n));
}

} // verus!
