use vstd::prelude::*;

use crate::cursor::SquashCursor;
use crate::error::{Error, IoError, Result};
use crate::num::le::{le_bytes, lemma_le_bytes_digits, lemma_pow256_values, pow256};
use crate::object::{lemma_uint_roundtrip, pop_uint, push_uint, uint_decode, SquashObject};

verus! {

/// Two's complement of `v` in `n` bytes, as a non-negative number.
pub open spec fn twos(v: int, n: nat) -> nat {
    if v >= 0 {
        v as nat
    } else {
        (v + pow256(n)) as nat
    }
}

/// The signed number whose `n`-byte two's complement is `x`.
pub open spec fn untwos(x: nat, n: nat) -> int {
    if 2 * x < pow256(n) {
        x as int
    } else {
        x - pow256(n)
    }
}

impl SquashObject for u8 {
    open spec fn spec_encode(v: u8) -> Option<Seq<u8>> {
        Some(le_bytes(v as nat, 1))
    }

    open spec fn spec_decode(bytes: Seq<u8>) -> Option<(u8, nat)> {
        match uint_decode(bytes, 1) {
            Some((x, k)) => Some((x as u8, k)),
            None => None,
        }
    }

    open spec fn spec_roundtrips(v: u8) -> bool {
        true
    }

    proof fn lemma_decode_len(bytes: Seq<u8>) {
    }

    proof fn lemma_roundtrip(v: u8, prefix: Seq<u8>) {
        lemma_pow256_values();
        lemma_uint_roundtrip(v as nat, 1, prefix);
    }

    fn push_obj(self, cursor: &mut SquashCursor) -> Result<usize> {
        proof { lemma_pow256_values(); }
        push_uint(cursor, self as u64, 1)
    }

    /// With no byte left to pop, the error is `SeekBeforeStart` and the
    /// cursor stays where it was.
    fn pop_obj(cursor: &mut SquashCursor) -> (r: Result<u8>)
        ensures
            old(cursor)@.pos == 0 ==> (r matches Err(Error::Io(IoError::SeekBeforeStart)) && final(cursor)@ == old(cursor)@),
    {
        let ghost rd = cursor@.readable();
        proof { lemma_pow256_values(); }
        match pop_uint(cursor, 1) {
            Ok(x) => {
                proof {
                    assert(uint_decode(rd, 1) == Some((x as nat, 1nat)));
                    assert(u8::spec_decode(rd) == Some((x as u8, 1nat)));
                }
                Ok(x as u8)
            },
            Err(e) => Err(e),
        }
    }
}

impl SquashObject for u16 {
    open spec fn spec_encode(v: u16) -> Option<Seq<u8>> {
        Some(le_bytes(v as nat, 2))
    }

    open spec fn spec_decode(bytes: Seq<u8>) -> Option<(u16, nat)> {
        match uint_decode(bytes, 2) {
            Some((x, k)) => Some((x as u16, k)),
            None => None,
        }
    }

    open spec fn spec_roundtrips(v: u16) -> bool {
        true
    }

    proof fn lemma_decode_len(bytes: Seq<u8>) {
    }

    proof fn lemma_roundtrip(v: u16, prefix: Seq<u8>) {
        lemma_pow256_values();
        lemma_uint_roundtrip(v as nat, 2, prefix);
    }

    fn push_obj(self, cursor: &mut SquashCursor) -> Result<usize> {
        proof { lemma_pow256_values(); }
        push_uint(cursor, self as u64, 2)
    }

    fn pop_obj(cursor: &mut SquashCursor) -> Result<u16> {
        proof { lemma_pow256_values(); }
        match pop_uint(cursor, 2) {
            Ok(x) => Ok(x as u16),
            Err(e) => Err(e),
        }
    }
}

impl SquashObject for u32 {
    open spec fn spec_encode(v: u32) -> Option<Seq<u8>> {
        Some(le_bytes(v as nat, 4))
    }

    open spec fn spec_decode(bytes: Seq<u8>) -> Option<(u32, nat)> {
        match uint_decode(bytes, 4) {
            Some((x, k)) => Some((x as u32, k)),
            None => None,
        }
    }

    open spec fn spec_roundtrips(v: u32) -> bool {
        true
    }

    proof fn lemma_decode_len(bytes: Seq<u8>) {
    }

    proof fn lemma_roundtrip(v: u32, prefix: Seq<u8>) {
        lemma_pow256_values();
        lemma_uint_roundtrip(v as nat, 4, prefix);
    }

    fn push_obj(self, cursor: &mut SquashCursor) -> Result<usize> {
        proof { lemma_pow256_values(); }
        push_uint(cursor, self as u64, 4)
    }

    fn pop_obj(cursor: &mut SquashCursor) -> Result<u32> {
        proof { lemma_pow256_values(); }
        match pop_uint(cursor, 4) {
            Ok(x) => Ok(x as u32),
            Err(e) => Err(e),
        }
    }
}

impl SquashObject for u64 {
    open spec fn spec_encode(v: u64) -> Option<Seq<u8>> {
        Some(le_bytes(v as nat, 8))
    }

    open spec fn spec_decode(bytes: Seq<u8>) -> Option<(u64, nat)> {
        match uint_decode(bytes, 8) {
            Some((x, k)) => Some((x as u64, k)),
            None => None,
        }
    }

    open spec fn spec_roundtrips(v: u64) -> bool {
        true
    }

    proof fn lemma_decode_len(bytes: Seq<u8>) {
    }

    proof fn lemma_roundtrip(v: u64, prefix: Seq<u8>) {
        lemma_pow256_values();
        lemma_uint_roundtrip(v as nat, 8, prefix);
    }

    fn push_obj(self, cursor: &mut SquashCursor) -> Result<usize> {
        proof { lemma_pow256_values(); }
        push_uint(cursor, self, 8)
    }

    fn pop_obj(cursor: &mut SquashCursor) -> Result<u64> {
        proof { lemma_pow256_values(); }
        match pop_uint(cursor, 8) {
            Ok(x) => Ok(x),
            Err(e) => Err(e),
        }
    }
}

impl SquashObject for i8 {
    open spec fn spec_encode(v: i8) -> Option<Seq<u8>> {
        Some(le_bytes(twos(v as int, 1), 1))
    }

    open spec fn spec_decode(bytes: Seq<u8>) -> Option<(i8, nat)> {
        match uint_decode(bytes, 1) {
            Some((x, k)) => Some((untwos(x, 1) as i8, k)),
            None => None,
        }
    }

    open spec fn spec_roundtrips(v: i8) -> bool {
        true
    }

    proof fn lemma_decode_len(bytes: Seq<u8>) {
    }

    proof fn lemma_roundtrip(v: i8, prefix: Seq<u8>) {
        lemma_pow256_values();
        lemma_uint_roundtrip(twos(v as int, 1), 1, prefix);
    }

    fn push_obj(self, cursor: &mut SquashCursor) -> Result<usize> {
        proof { lemma_pow256_values(); }
        let x: u64 = if self >= 0 {
            self as u64
        } else {
            (self as i64 + 0x100) as u64
        };
        push_uint(cursor, x, 1)
    }

    fn pop_obj(cursor: &mut SquashCursor) -> Result<i8> {
        proof { lemma_pow256_values(); }
        match pop_uint(cursor, 1) {
            Ok(x) => Ok(if x < 0x80 {
                x as i8
            } else {
                (x as i64 - 0x100) as i8
            }),
            Err(e) => Err(e),
        }
    }
}

impl SquashObject for i16 {
    open spec fn spec_encode(v: i16) -> Option<Seq<u8>> {
        Some(le_bytes(twos(v as int, 2), 2))
    }

    open spec fn spec_decode(bytes: Seq<u8>) -> Option<(i16, nat)> {
        match uint_decode(bytes, 2) {
            Some((x, k)) => Some((untwos(x, 2) as i16, k)),
            None => None,
        }
    }

    open spec fn spec_roundtrips(v: i16) -> bool {
        true
    }

    proof fn lemma_decode_len(bytes: Seq<u8>) {
    }

    proof fn lemma_roundtrip(v: i16, prefix: Seq<u8>) {
        lemma_pow256_values();
        lemma_uint_roundtrip(twos(v as int, 2), 2, prefix);
    }

    fn push_obj(self, cursor: &mut SquashCursor) -> Result<usize> {
        proof { lemma_pow256_values(); }
        let x: u64 = if self >= 0 {
            self as u64
        } else {
            (self as i64 + 0x1_0000) as u64
        };
        push_uint(cursor, x, 2)
    }

    fn pop_obj(cursor: &mut SquashCursor) -> Result<i16> {
        proof { lemma_pow256_values(); }
        match pop_uint(cursor, 2) {
            Ok(x) => Ok(if x < 0x8000 {
                x as i16
            } else {
                (x as i64 - 0x1_0000) as i16
            }),
            Err(e) => Err(e),
        }
    }
}

impl SquashObject for i32 {
    open spec fn spec_encode(v: i32) -> Option<Seq<u8>> {
        Some(le_bytes(twos(v as int, 4), 4))
    }

    open spec fn spec_decode(bytes: Seq<u8>) -> Option<(i32, nat)> {
        match uint_decode(bytes, 4) {
            Some((x, k)) => Some((untwos(x, 4) as i32, k)),
            None => None,
        }
    }

    open spec fn spec_roundtrips(v: i32) -> bool {
        true
    }

    proof fn lemma_decode_len(bytes: Seq<u8>) {
    }

    proof fn lemma_roundtrip(v: i32, prefix: Seq<u8>) {
        lemma_pow256_values();
        lemma_uint_roundtrip(twos(v as int, 4), 4, prefix);
    }

    fn push_obj(self, cursor: &mut SquashCursor) -> Result<usize> {
        proof { lemma_pow256_values(); }
        let x: u64 = if self >= 0 {
            self as u64
        } else {
            (self as i64 + 0x1_0000_0000) as u64
        };
        push_uint(cursor, x, 4)
    }

    fn pop_obj(cursor: &mut SquashCursor) -> Result<i32> {
        proof { lemma_pow256_values(); }
        match pop_uint(cursor, 4) {
            Ok(x) => Ok(if x < 0x8000_0000 {
                x as i32
            } else {
                (x as i64 - 0x1_0000_0000) as i32
            }),
            Err(e) => Err(e),
        }
    }
}

impl SquashObject for i64 {
    open spec fn spec_encode(v: i64) -> Option<Seq<u8>> {
        Some(le_bytes(twos(v as int, 8), 8))
    }

    open spec fn spec_decode(bytes: Seq<u8>) -> Option<(i64, nat)> {
        match uint_decode(bytes, 8) {
            Some((x, k)) => Some((untwos(x, 8) as i64, k)),
            None => None,
        }
    }

    open spec fn spec_roundtrips(v: i64) -> bool {
        true
    }

    proof fn lemma_decode_len(bytes: Seq<u8>) {
    }

    proof fn lemma_roundtrip(v: i64, prefix: Seq<u8>) {
        lemma_pow256_values();
        lemma_uint_roundtrip(twos(v as int, 8), 8, prefix);
    }

    fn push_obj(self, cursor: &mut SquashCursor) -> Result<usize> {
        proof { lemma_pow256_values(); }
        let x: u64 = if self >= 0 {
            self as u64
        } else {
            (self + 0x7fff_ffff_ffff_ffff + 1) as u64 + 0x8000_0000_0000_0000
        };
        push_uint(cursor, x, 8)
    }

    fn pop_obj(cursor: &mut SquashCursor) -> Result<i64> {
        proof { lemma_pow256_values(); }
        match pop_uint(cursor, 8) {
            Ok(x) => Ok(if x < 0x8000_0000_0000_0000 {
                x as i64
            } else {
                (x - 0x8000_0000_0000_0000) as i64 - 0x7fff_ffff_ffff_ffff - 1
            }),
            Err(e) => Err(e),
        }
    }
}

/// A `u8` is written as the 1 byte(s), lowest first: byte `i` is the
/// `i`-th base-256 digit.
pub proof fn lemma_u8_layout(v: u8)
    ensures
        u8::spec_encode(v) matches Some(e) && e.len() == 1 && forall|i: int| 0 <= i < 1 ==> #[trigger] e[i]
            == (((v as nat) / pow256(i as nat)) % 256) as u8,
{
    lemma_le_bytes_digits(v as nat, 1);
}

/// A `u16` is written as the 2 byte(s), lowest first: byte `i` is the
/// `i`-th base-256 digit.
pub proof fn lemma_u16_layout(v: u16)
    ensures
        u16::spec_encode(v) matches Some(e) && e.len() == 2 && forall|i: int| 0 <= i < 2 ==> #[trigger] e[i]
            == (((v as nat) / pow256(i as nat)) % 256) as u8,
{
    lemma_le_bytes_digits(v as nat, 2);
}

/// A `u32` is written as the 4 byte(s), lowest first: byte `i` is the
/// `i`-th base-256 digit.
pub proof fn lemma_u32_layout(v: u32)
    ensures
        u32::spec_encode(v) matches Some(e) && e.len() == 4 && forall|i: int| 0 <= i < 4 ==> #[trigger] e[i]
            == (((v as nat) / pow256(i as nat)) % 256) as u8,
{
    lemma_le_bytes_digits(v as nat, 4);
}

/// A `u64` is written as the 8 byte(s), lowest first: byte `i` is the
/// `i`-th base-256 digit.
pub proof fn lemma_u64_layout(v: u64)
    ensures
        u64::spec_encode(v) matches Some(e) && e.len() == 8 && forall|i: int| 0 <= i < 8 ==> #[trigger] e[i]
            == (((v as nat) / pow256(i as nat)) % 256) as u8,
{
    lemma_le_bytes_digits(v as nat, 8);
}

/// A `i8` is written as the two's complement in 1 byte(s), lowest first: byte `i` is the
/// `i`-th base-256 digit.
pub proof fn lemma_i8_layout(v: i8)
    ensures
        i8::spec_encode(v) matches Some(e) && e.len() == 1 && forall|i: int| 0 <= i < 1 ==> #[trigger] e[i]
            == ((((if v < 0 { v as int + 0x100 } else { v as int }) as nat) / pow256(i as nat)) % 256) as u8,
{
    lemma_pow256_values();
    lemma_le_bytes_digits((if v < 0 { v as int + 0x100 } else { v as int }) as nat, 1);
}

/// A `i16` is written as the two's complement in 2 byte(s), lowest first: byte `i` is the
/// `i`-th base-256 digit.
pub proof fn lemma_i16_layout(v: i16)
    ensures
        i16::spec_encode(v) matches Some(e) && e.len() == 2 && forall|i: int| 0 <= i < 2 ==> #[trigger] e[i]
            == ((((if v < 0 { v as int + 0x10000 } else { v as int }) as nat) / pow256(i as nat)) % 256) as u8,
{
    lemma_pow256_values();
    lemma_le_bytes_digits((if v < 0 { v as int + 0x10000 } else { v as int }) as nat, 2);
}

/// A `i32` is written as the two's complement in 4 byte(s), lowest first: byte `i` is the
/// `i`-th base-256 digit.
pub proof fn lemma_i32_layout(v: i32)
    ensures
        i32::spec_encode(v) matches Some(e) && e.len() == 4 && forall|i: int| 0 <= i < 4 ==> #[trigger] e[i]
            == ((((if v < 0 { v as int + 0x100000000 } else { v as int }) as nat) / pow256(i as nat)) % 256) as u8,
{
    lemma_pow256_values();
    lemma_le_bytes_digits((if v < 0 { v as int + 0x100000000 } else { v as int }) as nat, 4);
}

/// A `i64` is written as the two's complement in 8 byte(s), lowest first: byte `i` is the
/// `i`-th base-256 digit.
pub proof fn lemma_i64_layout(v: i64)
    ensures
        i64::spec_encode(v) matches Some(e) && e.len() == 8 && forall|i: int| 0 <= i < 8 ==> #[trigger] e[i]
            == ((((if v < 0 { v as int + 0x10000000000000000 } else { v as int }) as nat) / pow256(i as nat)) % 256) as u8,
{
    lemma_pow256_values();
    lemma_le_bytes_digits((if v < 0 { v as int + 0x10000000000000000 } else { v as int }) as nat, 8);
}

} // verus!
