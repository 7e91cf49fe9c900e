use vstd::prelude::*;

use crate::codec::SerDes;
use crate::cursor::SquashCursor;
use crate::error::{err_decoded_outside_range, err_outside_range, err_uint_fit, err_uint_width, Error, Result};
use crate::num::le::{le_bytes, lemma_le_bytes_digits, lemma_le_value_bound, lemma_pow256_values, pow256};
use crate::num::ux::{u24, u40, u48, u56};
use crate::object::{lemma_uint_roundtrip, uint_decode, SquashObject};

verus! {

/// The number of bytes that hold every number from `0` to `diff`: the
/// fewest `k` with `diff < 256^k`, at most eight.
pub open spec fn spec_uint_bytes(diff: nat) -> nat {
    if diff < 0x100 {
        1
    } else if diff < 0x1_0000 {
        2
    } else if diff < 0x100_0000 {
        3
    } else if diff < 0x1_0000_0000 {
        4
    } else if diff < 0x100_0000_0000 {
        5
    } else if diff < 0x1_0000_0000_0000 {
        6
    } else if diff < 0x100_0000_0000_0000 {
        7
    } else {
        8
    }
}

/// The width of a range is the fewest bytes that hold every number up to
/// `diff`: `diff < 256^k`, and one byte fewer would not do.
pub proof fn lemma_uint_bytes_fewest(diff: nat)
    requires
        diff < 0x1_0000_0000_0000_0000,
    ensures
        1 <= spec_uint_bytes(diff) <= 8,
        diff < pow256(spec_uint_bytes(diff)),
        spec_uint_bytes(diff) > 1 ==> diff >= pow256((spec_uint_bytes(diff) - 1) as nat),
{
    lemma_pow256_values();
}

/// `max - min` as an unsigned 64-bit number, wrapping where `max < min`.
pub open spec fn range_diff(min: i64, max: i64) -> nat {
    if max >= min {
        (max - min) as nat
    } else {
        (max - min + 0x1_0000_0000_0000_0000) as nat
    }
}

/// What writing `x` in `bytes` bytes writes: its little-endian bytes; `None`
/// where the width is not one of 1 to 8 or `x` does not fit.
pub open spec fn uint_encode(x: nat, bytes: nat) -> Option<Seq<u8>> {
    if 1 <= bytes <= 8 && x < pow256(bytes) {
        Some(le_bytes(x, bytes))
    } else {
        None
    }
}

/// Reading a `bytes`-byte number off the end of `b`; `None` where the width
/// is not one of 1 to 8 or the bytes run out.
pub open spec fn uint_read(b: Seq<u8>, bytes: nat) -> Option<(nat, nat)> {
    if 1 <= bytes <= 8 {
        uint_decode(b, bytes)
    } else {
        None
    }
}

/// The number of bytes that hold `0..=diff`.
fn uint_bytes(diff: u64) -> (r: u8)
    ensures
        r == spec_uint_bytes(diff as nat),
{
    if diff < 0x100 {
        1
    } else if diff < 0x1_0000 {
        2
    } else if diff < 0x100_0000 {
        3
    } else if diff < 0x1_0000_0000 {
        4
    } else if diff < 0x100_0000_0000 {
        5
    } else if diff < 0x1_0000_0000_0000 {
        6
    } else if diff < 0x100_0000_0000_0000 {
        7
    } else {
        8
    }
}

/// `256^bytes`, for the widths below eight.
fn uint_limit(bytes: u8) -> (r: u64)
    requires
        1 <= bytes <= 7,
    ensures
        r == pow256(bytes as nat),
{
    proof { lemma_pow256_values(); }
    match bytes {
        1 => 0x100,
        2 => 0x1_0000,
        3 => 0x100_0000,
        4 => 0x1_0000_0000,
        5 => 0x100_0000_0000,
        6 => 0x1_0000_0000_0000,
        _ => 0x100_0000_0000_0000,
    }
}

/// Writes `x` as a `bytes`-byte little-endian number.
pub fn write_uint(cursor: &mut SquashCursor, x: u64, bytes: u8) -> (r: Result<usize>)
    ensures
        match uint_encode(x as nat, bytes as nat) {
            Some(e) => if old(cursor)@.pos + e.len() <= usize::MAX {
                &&& r matches Ok(n) && n == e.len()
                &&& final(cursor)@ == old(cursor)@.pushed(e)
            } else {
                r is Err
            },
            None => r matches Err(Error::Custom(_)) && final(cursor)@ == old(cursor)@,
        },
{
    proof { lemma_pow256_values(); }
    if 1 <= bytes && bytes <= 7 && x >= uint_limit(bytes) {
        return Err(err_uint_fit(x, bytes));
    }
    match bytes {
        1 => cursor.push(x as u8),
        2 => cursor.push(x as u16),
        3 => match u24::new(x as u32) {
            Ok(v) => cursor.push(v),
            Err(e) => Err(e),
        },
        4 => cursor.push(x as u32),
        5 => match u40::new(x) {
            Ok(v) => cursor.push(v),
            Err(e) => Err(e),
        },
        6 => match u48::new(x) {
            Ok(v) => cursor.push(v),
            Err(e) => Err(e),
        },
        7 => match u56::new(x) {
            Ok(v) => cursor.push(v),
            Err(e) => Err(e),
        },
        8 => cursor.push(x),
        _ => Err(err_uint_width(bytes)),
    }
}

/// Reads a `bytes`-byte little-endian number.
pub fn read_uint(cursor: &mut SquashCursor, bytes: u8) -> (r: Result<u64>)
    ensures
        match uint_read(old(cursor)@.readable(), bytes as nat) {
            Some((x, k)) => {
                &&& r matches Ok(v) && v == x
                &&& final(cursor)@ == old(cursor)@.popped(k)
            },
            None => r is Err,
        },
        !(1 <= bytes <= 8) ==> (r matches Err(Error::Custom(_)) && final(cursor)@ == old(cursor)@),
{
    proof {
        lemma_pow256_values();
        let rd = cursor@.readable();
        if 1 <= bytes <= 8 && bytes <= rd.len() {
            lemma_le_value_bound(rd.skip(rd.len() - bytes));
        }
    }
    match bytes {
        1 => match cursor.pop::<u8>() {
            Ok(v) => Ok(v as u64),
            Err(e) => Err(e),
        },
        2 => match cursor.pop::<u16>() {
            Ok(v) => Ok(v as u64),
            Err(e) => Err(e),
        },
        3 => match cursor.pop::<u24>() {
            Ok(v) => Ok(v.convert() as u64),
            Err(e) => Err(e),
        },
        4 => match cursor.pop::<u32>() {
            Ok(v) => Ok(v as u64),
            Err(e) => Err(e),
        },
        5 => match cursor.pop::<u40>() {
            Ok(v) => Ok(v.convert()),
            Err(e) => Err(e),
        },
        6 => match cursor.pop::<u48>() {
            Ok(v) => Ok(v.convert()),
            Err(e) => Err(e),
        },
        7 => match cursor.pop::<u56>() {
            Ok(v) => Ok(v.convert()),
            Err(e) => Err(e),
        },
        8 => cursor.pop::<u64>(),
        _ => Err(err_uint_width(bytes)),
    }
}

/// An integer in `[min, max]`, written as `value - min` in the fewest bytes
/// that hold `max - min`.
#[derive(Clone, Copy, Debug, PartialEq, Eq)]
pub struct Range {
    pub min: i64,
    pub max: i64,
}

impl Range {
    pub fn new(min: i64, max: i64) -> (r: Range)
        requires
            min <= max,
        ensures
            r.min == min,
            r.max == max,
    {
        Range { min, max }
    }

    /// The width of the written numbers.
    pub open spec fn spec_bytes(&self) -> nat {
        spec_uint_bytes(range_diff(self.min, self.max))
    }

    fn bytes(&self) -> (r: u8)
        ensures
            r == self.spec_bytes(),
    {
        let diff: u64 = if self.max >= self.min {
            (self.max as i128 - self.min as i128) as u64
        } else {
            (self.max as i128 - self.min as i128 + 0x1_0000_0000_0000_0000) as u64
        };
        uint_bytes(diff)
    }
}

impl SerDes for Range {
    type Value = i64;

    open spec fn spec_valid(&self) -> bool {
        true
    }

    open spec fn spec_encode(&self, v: i64) -> Option<Seq<u8>> {
        if v < self.min || v > self.max {
            None
        } else {
            uint_encode((v - self.min) as nat, self.spec_bytes())
        }
    }

    open spec fn spec_decode(&self, bytes: Seq<u8>) -> Option<(i64, nat)> {
        match uint_read(bytes, self.spec_bytes()) {
            Some((x, k)) => if self.min + x > self.max {
                None
            } else {
                Some(((self.min + x) as i64, k))
            },
            None => None,
        }
    }

    open spec fn spec_readback(&self, v: i64) -> i64 {
        v
    }

    open spec fn spec_roundtrips(&self, v: i64, prefix_len: nat) -> bool {
        true
    }

    proof fn lemma_decode_len(&self, bytes: Seq<u8>) {
    }

    proof fn lemma_roundtrip(&self, v: i64, prefix: Seq<u8>) {
        lemma_pow256_values();
        lemma_uint_roundtrip((v - self.min) as nat, self.spec_bytes(), prefix);
    }

    /// A value outside `[min, max]` is refused with a `Custom` error, and the
    /// cursor stays as it was.
    fn ser(&self, cursor: &mut SquashCursor, value: &i64) -> (r: Result<usize>)
        ensures
            (*value < self.min || *value > self.max) ==> (r matches Err(Error::Custom(_))
                && final(cursor)@ == old(cursor)@),
    {
        if *value < self.min || *value > self.max {
            return Err(err_outside_range(*value, self.min, self.max));
        }
        proof { lemma_pow256_values(); }
        write_uint(cursor, (*value as i128 - self.min as i128) as u64, self.bytes())
    }

    /// A number read back that lands above `max` is refused with a `Custom`
    /// error; every value read back lies in `[min, max]`.
    fn des(&self, cursor: &mut SquashCursor) -> (r: Result<i64>)
        ensures
            r matches Ok(v) ==> self.min <= v <= self.max,
            (uint_read(old(cursor)@.readable(), self.spec_bytes()) matches Some((x, _)) && self.min + x > self.max)
                ==> r matches Err(Error::Custom(_)),
    {
        proof { lemma_pow256_values(); }
        let x = match read_uint(cursor, self.bytes()) {
            Ok(x) => x,
            Err(e) => {
                return Err(e);
            },
        };
        let value = self.min as i128 + x as i128;
        if value < self.min as i128 || value > self.max as i128 {
            return Err(err_decoded_outside_range(value, self.min, self.max));
        }
        Ok(value as i64)
    }
}

/// An unsigned integer in a fixed number of bytes, 1 to 8, little-endian.
#[derive(Clone, Copy, Debug, PartialEq, Eq)]
pub struct Uint(pub u8);

impl SerDes for Uint {
    type Value = u64;

    open spec fn spec_valid(&self) -> bool {
        true
    }

    open spec fn spec_encode(&self, v: u64) -> Option<Seq<u8>> {
        uint_encode(v as nat, self.0 as nat)
    }

    open spec fn spec_decode(&self, bytes: Seq<u8>) -> Option<(u64, nat)> {
        match uint_read(bytes, self.0 as nat) {
            Some((x, k)) => Some((x as u64, k)),
            None => None,
        }
    }

    open spec fn spec_readback(&self, v: u64) -> u64 {
        v
    }

    open spec fn spec_roundtrips(&self, v: u64, prefix_len: nat) -> bool {
        true
    }

    proof fn lemma_decode_len(&self, bytes: Seq<u8>) {
    }

    proof fn lemma_roundtrip(&self, v: u64, prefix: Seq<u8>) {
        lemma_uint_roundtrip(v as nat, self.0 as nat, prefix);
    }

    /// A width outside 1 to 8, or a value that does not fit it, is refused
    /// with a `Custom` error, and the cursor stays as it was.
    fn ser(&self, cursor: &mut SquashCursor, value: &u64) -> (r: Result<usize>)
        ensures
            uint_encode(*value as nat, self.0 as nat) is None ==> (r matches Err(Error::Custom(_))
                && final(cursor)@ == old(cursor)@),
    {
        write_uint(cursor, *value, self.0)
    }

    /// A width outside 1 to 8 is refused with a `Custom` error, and the
    /// cursor stays as it was.
    fn des(&self, cursor: &mut SquashCursor) -> (r: Result<u64>)
        ensures
            !(1 <= self.0 <= 8) ==> (r matches Err(Error::Custom(_)) && final(cursor)@ == old(cursor)@),
    {
        read_uint(cursor, self.0)
    }
}

/// A value in `[min, max]` is written as `value - min` in the fewest bytes
/// that hold `max - min`, lowest byte first: byte `i` is the `i`-th base-256
/// digit of `value - min`.
pub proof fn lemma_range_layout(r: Range, v: i64)
    requires
        r.min <= v <= r.max,
    ensures
        r.spec_encode(v) matches Some(e) && e.len() == r.spec_bytes() && forall|i: int| 0 <= i < e.len() ==> #[trigger] e[i]
            == (((v - r.min) as nat / pow256(i as nat)) % 256) as u8,
        1 <= r.spec_bytes() <= 8,
        ((r.max - r.min) as nat) < pow256(r.spec_bytes()),
        r.spec_bytes() > 1 ==> ((r.max - r.min) as nat) >= pow256((r.spec_bytes() - 1) as nat),
{
    lemma_uint_bytes_fewest(range_diff(r.min, r.max));
    lemma_le_bytes_digits((v - r.min) as nat, r.spec_bytes());
}

/// A fixed-width number is written in exactly its width, lowest byte first,
/// where the width is 1 to 8 and the number fits; otherwise nothing is.
pub proof fn lemma_uint_layout(u: Uint, v: u64)
    ensures
        (1 <= u.0 <= 8 && (v as nat) < pow256(u.0 as nat)) ==> (u.spec_encode(v) matches Some(e) && e.len() == u.0
            && forall|i: int| 0 <= i < e.len() ==> #[trigger] e[i] == ((v as nat / pow256(i as nat)) % 256) as u8),
        !(1 <= u.0 <= 8 && (v as nat) < pow256(u.0 as nat)) ==> u.spec_encode(v) is None,
{
    lemma_le_bytes_digits(v as nat, u.0 as nat);
}

} // verus!
