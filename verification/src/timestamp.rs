//! The timestamp extension: an instant as seconds and nanoseconds, carried
//! under type identifier `-1` in one of three payload widths.
//!
//! - 4 bytes: unsigned seconds; nanoseconds are zero.
//! - 8 bytes: one word with the nanoseconds in its upper 30 bits and the
//!   seconds in its lower 34 bits.
//! - 12 bytes: unsigned nanoseconds in 4 bytes, then signed seconds in 8.

use crate::bytes::{
    be32, be32_value, be64, be64_value, i64_bits, i64_of, lemma_be_len, lemma_be_of_negative,
    lemma_be_of_value, lemma_value_of_be, lemma_value_of_front, push_be32, push_be64, read_be32,
    read_be64, signed,
};
use vstd::prelude::*;

verus! {

/// The type identifier reserved for timestamps.
pub const TIMESTAMP_TYPE: i8 = -1;

/// Seconds that fit the 34-bit field of the 8-byte form lie below this, 2^34.
pub const SECONDS_LIMIT_34: u64 = 0x4_0000_0000;

/// Nanoseconds that the 8-byte form may carry lie below this, a full second.
pub const NANOS_LIMIT: u32 = 1_000_000_000;

/// An instant: seconds since the epoch and nanoseconds beside them.
#[derive(Debug, Clone, Copy, PartialEq, Eq)]
pub struct Timestamp {
    pub secs: i64,
    pub nanos: u32,
}

/// The narrowest payload that carries `secs` and `nanos` without loss: 4
/// bytes where there are no nanoseconds and the seconds fit 32 bits
/// unsigned; else 8 bytes where the seconds fit 34 bits unsigned and the
/// nanoseconds stay below a full second; else 12 bytes.
pub open spec fn packed(secs: int, nanos: int) -> Seq<u8> {
    if nanos == 0 && 0 <= secs < 0x1_0000_0000 {
        be32(secs)
    } else if 0 <= secs < 0x4_0000_0000 && nanos < 1_000_000_000 {
        be64(nanos * 0x4_0000_0000 + secs)
    } else {
        be32(nanos) + be64(secs)
    }
}

/// The seconds and nanoseconds that a payload carries, by its length; `None`
/// for a length other than 4, 8 or 12.
pub open spec fn unpacked(payload: Seq<u8>) -> Option<(int, int)> {
    if payload.len() == 4 {
        Some((be32_value(payload), 0))
    } else if payload.len() == 8 {
        Some((be64_value(payload) % 0x4_0000_0000, be64_value(payload) / 0x4_0000_0000))
    } else if payload.len() == 12 {
        Some(
            (signed(be64_value(payload.skip(4)), 0x8000_0000_0000_0000), be32_value(payload)),
        )
    } else {
        None
    }
}

/// The narrowest payload for the instant that `payload` carries.
pub open spec fn canonical(payload: Seq<u8>) -> Option<Seq<u8>> {
    match unpacked(payload) {
        Some((secs, nanos)) => Some(packed(secs, nanos)),
        None => None,
    }
}

impl Timestamp {
    /// Reads a payload of 4, 8 or 12 bytes; `None` for any other length.
    pub fn from_payload(data: &[u8]) -> (r: Option<Timestamp>)
        ensures
            match r {
                Some(t) => unpacked(data@) == Some((t.secs as int, t.nanos as int)),
                None => unpacked(data@) is None,
            },
    {
        let len = data.len();
        assert(data@.skip(0) =~= data@);
        proof {
            lemma_be_of_value(data@);
        }
        if len == 4 {
            Some(Timestamp { secs: read_be32(data, 0) as i64, nanos: 0 })
        } else if len == 8 {
            let raw = read_be64(data, 0);
            Some(
                Timestamp {
                    secs: (raw % 0x4_0000_0000) as i64,
                    nanos: (raw / 0x4_0000_0000) as u32,
                },
            )
        } else if len == 12 {
            let nanos = read_be32(data, 0);
            let secs = i64_of(read_be64(data, 4));
            Some(Timestamp { secs, nanos })
        } else {
            None
        }
    }

    /// Writes the narrowest payload that carries this instant without loss.
    pub fn to_payload(&self) -> (r: Vec<u8>)
        ensures
            r@ == packed(self.secs as int, self.nanos as int),
    {
        let mut out: Vec<u8> = Vec::new();
        if self.nanos == 0 && 0 <= self.secs && self.secs <= 0xffff_ffff {
            push_be32(&mut out, self.secs as u32);
        } else if 0 <= self.secs && (self.secs as u64) < SECONDS_LIMIT_34 && self.nanos
            < NANOS_LIMIT {
            push_be64(&mut out, (self.nanos as u64) * 0x4_0000_0000 + (self.secs as u64));
        } else {
            push_be32(&mut out, self.nanos);
            push_be64(&mut out, i64_bits(self.secs));
        }
        out
    }
}

/// Unpacking a packed instant gives the instant back.
pub proof fn lemma_unpack_packed(secs: int, nanos: int)
    requires
        i64::MIN <= secs <= i64::MAX,
        0 <= nanos <= u32::MAX,
    ensures
        unpacked(packed(secs, nanos)) == Some((secs, nanos)),
        packed(secs, nanos).len() == 4 || packed(secs, nanos).len() == 8 || packed(
            secs,
            nanos,
        ).len() == 12,
{
    if nanos == 0 && 0 <= secs < 0x1_0000_0000 {
        lemma_be_len(secs);
        lemma_value_of_be(secs);
    } else if 0 <= secs < 0x4_0000_0000 && nanos < 1_000_000_000 {
        let raw = nanos * 0x4_0000_0000 + secs;
        lemma_be_len(raw);
        lemma_value_of_be(raw);
        assert(be64_value(be64(raw)) == raw);
        assert(raw % 0x4_0000_0000 == secs);
        assert(raw / 0x4_0000_0000 == nanos);
    } else {
        lemma_unpack_packed_wide(secs, nanos);
    }
}

proof fn lemma_unpack_packed_wide(secs: int, nanos: int)
    requires
        i64::MIN <= secs <= i64::MAX,
        0 <= nanos <= u32::MAX,
    ensures
        unpacked(be32(nanos) + be64(secs)) == Some((secs, nanos)),
        (be32(nanos) + be64(secs)).len() == 12,
{
    let a = be32(nanos);
    let b = be64(secs);
    let p = a + b;
    lemma_be_len(secs);
    lemma_be_len(nanos);
    assert(p.len() == 12);
    assert(p.skip(4) =~= b);
    assert(be32_value(p) == be32_value(a)) by {
        lemma_value_of_front(a, b);
    }
    assert(be32_value(a) == nanos) by {
        lemma_value_of_be(nanos);
    }
    assert(signed(be64_value(b), 0x8000_0000_0000_0000) == secs) by {
        if secs < 0 {
            lemma_be_of_negative(secs);
            lemma_value_of_be(secs + 0x1_0000_0000_0000_0000);
        } else {
            lemma_value_of_be(secs);
        }
    }
}

/// The canonical payload of a canonical payload is that payload.
pub proof fn lemma_canonical_is_fixed(payload: Seq<u8>)
    requires
        unpacked(payload) is Some,
    ensures
        canonical(payload) is Some,
        canonical(canonical(payload).unwrap()) == canonical(payload),
{
    lemma_unpacked_in_range(payload);
    let (secs, nanos) = unpacked(payload).unwrap();
    lemma_unpack_packed(secs, nanos);
}

/// What a payload carries fits the types of [`Timestamp`].
pub proof fn lemma_unpacked_in_range(payload: Seq<u8>)
    requires
        unpacked(payload) is Some,
    ensures
        i64::MIN <= unpacked(payload).unwrap().0 <= i64::MAX,
        0 <= unpacked(payload).unwrap().1 <= u32::MAX,
{
    lemma_be_of_value(payload);
    if payload.len() == 12 {
        lemma_be_of_value(payload.skip(4));
    }
}

} // verus!
