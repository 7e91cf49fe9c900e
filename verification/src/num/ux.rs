use vstd::prelude::*;

use crate::cursor::SquashCursor;
use crate::error::{Error, Result};
use crate::num::Zero;
use crate::num::le::{le_bytes, le_encode, lemma_le_bytes_len, le_value, lemma_le_bytes_of_value, lemma_le_roundtrip, lemma_le_value_bound, lemma_pow256_values, pow256};
use crate::num::prim::{twos, untwos};
use crate::object::{lemma_uint_roundtrip, pop_uint, push_uint, uint_decode, SquashObject};

verus! {

/// Little-endian conversion between a number and its bytes.
pub trait LeBytes<const N: usize>: Sized {
    fn to_le_bytes(self) -> [u8; N];

    fn from_le_bytes(bytes: [u8; N]) -> Self;
}

/// The `n` bytes of `x` as an array.
fn bytes_array_3(x: u64) -> (a: [u8; 3])
    requires
        x < 0x100_0000,
    ensures
        a@ == le_bytes(x as nat, 3),
{
    proof { lemma_pow256_values(); }
    let v = le_encode(x, 3);
    proof { lemma_le_bytes_len(x as nat, 3); }
    let a = [v[0], v[1], v[2]];
    assert(a@ =~= v@);
    a
}

fn bytes_array_5(x: u64) -> (a: [u8; 5])
    requires
        x < 0x100_0000_0000,
    ensures
        a@ == le_bytes(x as nat, 5),
{
    proof { lemma_pow256_values(); }
    let v = le_encode(x, 5);
    proof { lemma_le_bytes_len(x as nat, 5); }
    let a = [v[0], v[1], v[2], v[3], v[4]];
    assert(a@ =~= v@);
    a
}

fn bytes_array_6(x: u64) -> (a: [u8; 6])
    requires
        x < 0x1_0000_0000_0000,
    ensures
        a@ == le_bytes(x as nat, 6),
{
    proof { lemma_pow256_values(); }
    let v = le_encode(x, 6);
    proof { lemma_le_bytes_len(x as nat, 6); }
    let a = [v[0], v[1], v[2], v[3], v[4], v[5]];
    assert(a@ =~= v@);
    a
}

fn bytes_array_7(x: u64) -> (a: [u8; 7])
    requires
        x < 0x100_0000_0000_0000,
    ensures
        a@ == le_bytes(x as nat, 7),
{
    proof { lemma_pow256_values(); }
    let v = le_encode(x, 7);
    proof { lemma_le_bytes_len(x as nat, 7); }
    let a = [v[0], v[1], v[2], v[3], v[4], v[5], v[6]];
    assert(a@ =~= v@);
    a
}

/// A 24-bit unsigned integer held as its 3 little-endian bytes.
#[allow(non_camel_case_types)]
#[derive(Copy, Clone, Eq, PartialEq, Ord, PartialOrd, Hash, Default, Debug)]
pub struct u24([u8; 3]);

impl DeepView for u24 {
    type V = u32;

    open spec fn deep_view(&self) -> u32 {
        le_value(self.bytes()) as u32
    }
}

impl u24 {
    /// The little-endian bytes.
    pub closed spec fn bytes(&self) -> Seq<u8> {
        self.0@
    }

    /// The number `val`, where it fits; `ValueTooLarge` otherwise.
    pub fn new(val: u32) -> (r: Result<u24>)
        ensures
            val < 0x100_0000 ==> (r matches Ok(x) && x.deep_view() == val),
            !(val < 0x100_0000) ==> (r matches Err(e) && e == Error::ValueTooLarge),
    {
        if val < 0x100_0000 {
            proof { lemma_pow256_values(); }
            let raw: u64 = val as u64;
            let a = bytes_array_3(raw);
            proof {
                lemma_le_roundtrip(raw as nat, 3);
            }
            Ok(u24(a))
        } else {
            Err(Error::ValueTooLarge)
        }
    }

    /// The number.
    pub fn convert(self) -> (r: u32)
        ensures
            r == self.deep_view(),
    {
        proof { lemma_pow256_values(); lemma_le_value_bound(self.0@); }
        let x = crate::num::le::le_decode(&self.0);
        x as u32
    }
}

impl LeBytes<3> for u24 {
    fn to_le_bytes(self) -> (r: [u8; 3])
        ensures
            r@ == self.bytes(),
    {
        self.0
    }

    fn from_le_bytes(bytes: [u8; 3]) -> (r: u24)
        ensures
            r.bytes() == bytes@,
    {
        u24(bytes)
    }
}

impl Zero for u24 {
    closed spec fn spec_zero() -> u24 {
        u24([0u8, 0u8, 0u8])
    }

    fn zero() -> u24 {
        u24([0u8, 0u8, 0u8])
    }
}

impl u24 {
    /// Zero has every byte zero, and is the number zero.
    pub proof fn lemma_zero()
        ensures
            u24::spec_zero().bytes() == seq![0u8; 3],
            u24::spec_zero().deep_view() == 0,
    {
        reveal_with_fuel(le_value, 4);
        assert(u24::spec_zero().bytes() =~= seq![0u8; 3]);
    }
}

impl SquashObject for u24 {
    open spec fn spec_encode(v: u32) -> Option<Seq<u8>> {
        if (v as nat) < pow256(3) {
            Some(le_bytes(v as nat, 3))
        } else {
            None
        }
    }

    open spec fn spec_decode(bytes: Seq<u8>) -> Option<(u32, nat)> {
        match uint_decode(bytes, 3) {
            Some((x, k)) => Some((x as u32, k)),
            None => None,
        }
    }

    open spec fn spec_roundtrips(v: u32) -> bool {
        (v as nat) < pow256(3)
    }

    proof fn lemma_decode_len(bytes: Seq<u8>) {
    }

    proof fn lemma_roundtrip(v: u32, prefix: Seq<u8>) {
        lemma_pow256_values();
        lemma_uint_roundtrip(v as nat, 3, prefix);
    }

    fn push_obj(self, cursor: &mut SquashCursor) -> Result<usize> {
        proof {
            lemma_pow256_values();
            lemma_le_value_bound(self.0@);
            lemma_le_bytes_of_value(self.0@);
        }
        let x = crate::num::le::le_decode(&self.0);
        push_uint(cursor, x, 3)
    }

    fn pop_obj(cursor: &mut SquashCursor) -> Result<u24> {
        proof { lemma_pow256_values(); }
        match pop_uint(cursor, 3) {
            Ok(x) => {
                let a = bytes_array_3(x);
                proof { lemma_le_roundtrip(x as nat, 3); }
                Ok(u24(a))
            },
            Err(e) => Err(e),
        }
    }
}

/// A 40-bit unsigned integer held as its 5 little-endian bytes.
#[allow(non_camel_case_types)]
#[derive(Copy, Clone, Eq, PartialEq, Ord, PartialOrd, Hash, Default, Debug)]
pub struct u40([u8; 5]);

impl DeepView for u40 {
    type V = u64;

    open spec fn deep_view(&self) -> u64 {
        le_value(self.bytes()) as u64
    }
}

impl u40 {
    /// The little-endian bytes.
    pub closed spec fn bytes(&self) -> Seq<u8> {
        self.0@
    }

    /// The number `val`, where it fits; `ValueTooLarge` otherwise.
    pub fn new(val: u64) -> (r: Result<u40>)
        ensures
            val < 0x100_0000_0000 ==> (r matches Ok(x) && x.deep_view() == val),
            !(val < 0x100_0000_0000) ==> (r matches Err(e) && e == Error::ValueTooLarge),
    {
        if val < 0x100_0000_0000 {
            proof { lemma_pow256_values(); }
            let raw: u64 = val as u64;
            let a = bytes_array_5(raw);
            proof {
                lemma_le_roundtrip(raw as nat, 5);
            }
            Ok(u40(a))
        } else {
            Err(Error::ValueTooLarge)
        }
    }

    /// The number.
    pub fn convert(self) -> (r: u64)
        ensures
            r == self.deep_view(),
    {
        proof { lemma_pow256_values(); lemma_le_value_bound(self.0@); }
        let x = crate::num::le::le_decode(&self.0);
        x as u64
    }
}

impl LeBytes<5> for u40 {
    fn to_le_bytes(self) -> (r: [u8; 5])
        ensures
            r@ == self.bytes(),
    {
        self.0
    }

    fn from_le_bytes(bytes: [u8; 5]) -> (r: u40)
        ensures
            r.bytes() == bytes@,
    {
        u40(bytes)
    }
}

impl Zero for u40 {
    closed spec fn spec_zero() -> u40 {
        u40([0u8, 0u8, 0u8, 0u8, 0u8])
    }

    fn zero() -> u40 {
        u40([0u8, 0u8, 0u8, 0u8, 0u8])
    }
}

impl u40 {
    /// Zero has every byte zero, and is the number zero.
    pub proof fn lemma_zero()
        ensures
            u40::spec_zero().bytes() == seq![0u8; 5],
            u40::spec_zero().deep_view() == 0,
    {
        reveal_with_fuel(le_value, 6);
        assert(u40::spec_zero().bytes() =~= seq![0u8; 5]);
    }
}

impl SquashObject for u40 {
    open spec fn spec_encode(v: u64) -> Option<Seq<u8>> {
        if (v as nat) < pow256(5) {
            Some(le_bytes(v as nat, 5))
        } else {
            None
        }
    }

    open spec fn spec_decode(bytes: Seq<u8>) -> Option<(u64, nat)> {
        match uint_decode(bytes, 5) {
            Some((x, k)) => Some((x as u64, k)),
            None => None,
        }
    }

    open spec fn spec_roundtrips(v: u64) -> bool {
        (v as nat) < pow256(5)
    }

    proof fn lemma_decode_len(bytes: Seq<u8>) {
    }

    proof fn lemma_roundtrip(v: u64, prefix: Seq<u8>) {
        lemma_pow256_values();
        lemma_uint_roundtrip(v as nat, 5, prefix);
    }

    fn push_obj(self, cursor: &mut SquashCursor) -> Result<usize> {
        proof {
            lemma_pow256_values();
            lemma_le_value_bound(self.0@);
            lemma_le_bytes_of_value(self.0@);
        }
        let x = crate::num::le::le_decode(&self.0);
        push_uint(cursor, x, 5)
    }

    fn pop_obj(cursor: &mut SquashCursor) -> Result<u40> {
        proof { lemma_pow256_values(); }
        match pop_uint(cursor, 5) {
            Ok(x) => {
                let a = bytes_array_5(x);
                proof { lemma_le_roundtrip(x as nat, 5); }
                Ok(u40(a))
            },
            Err(e) => Err(e),
        }
    }
}

/// A 48-bit unsigned integer held as its 6 little-endian bytes.
#[allow(non_camel_case_types)]
#[derive(Copy, Clone, Eq, PartialEq, Ord, PartialOrd, Hash, Default, Debug)]
pub struct u48([u8; 6]);

impl DeepView for u48 {
    type V = u64;

    open spec fn deep_view(&self) -> u64 {
        le_value(self.bytes()) as u64
    }
}

impl u48 {
    /// The little-endian bytes.
    pub closed spec fn bytes(&self) -> Seq<u8> {
        self.0@
    }

    /// The number `val`, where it fits; `ValueTooLarge` otherwise.
    pub fn new(val: u64) -> (r: Result<u48>)
        ensures
            val < 0x1_0000_0000_0000 ==> (r matches Ok(x) && x.deep_view() == val),
            !(val < 0x1_0000_0000_0000) ==> (r matches Err(e) && e == Error::ValueTooLarge),
    {
        if val < 0x1_0000_0000_0000 {
            proof { lemma_pow256_values(); }
            let raw: u64 = val as u64;
            let a = bytes_array_6(raw);
            proof {
                lemma_le_roundtrip(raw as nat, 6);
            }
            Ok(u48(a))
        } else {
            Err(Error::ValueTooLarge)
        }
    }

    /// The number.
    pub fn convert(self) -> (r: u64)
        ensures
            r == self.deep_view(),
    {
        proof { lemma_pow256_values(); lemma_le_value_bound(self.0@); }
        let x = crate::num::le::le_decode(&self.0);
        x as u64
    }
}

impl LeBytes<6> for u48 {
    fn to_le_bytes(self) -> (r: [u8; 6])
        ensures
            r@ == self.bytes(),
    {
        self.0
    }

    fn from_le_bytes(bytes: [u8; 6]) -> (r: u48)
        ensures
            r.bytes() == bytes@,
    {
        u48(bytes)
    }
}

impl Zero for u48 {
    closed spec fn spec_zero() -> u48 {
        u48([0u8, 0u8, 0u8, 0u8, 0u8, 0u8])
    }

    fn zero() -> u48 {
        u48([0u8, 0u8, 0u8, 0u8, 0u8, 0u8])
    }
}

impl u48 {
    /// Zero has every byte zero, and is the number zero.
    pub proof fn lemma_zero()
        ensures
            u48::spec_zero().bytes() == seq![0u8; 6],
            u48::spec_zero().deep_view() == 0,
    {
        reveal_with_fuel(le_value, 7);
        assert(u48::spec_zero().bytes() =~= seq![0u8; 6]);
    }
}

impl SquashObject for u48 {
    open spec fn spec_encode(v: u64) -> Option<Seq<u8>> {
        if (v as nat) < pow256(6) {
            Some(le_bytes(v as nat, 6))
        } else {
            None
        }
    }

    open spec fn spec_decode(bytes: Seq<u8>) -> Option<(u64, nat)> {
        match uint_decode(bytes, 6) {
            Some((x, k)) => Some((x as u64, k)),
            None => None,
        }
    }

    open spec fn spec_roundtrips(v: u64) -> bool {
        (v as nat) < pow256(6)
    }

    proof fn lemma_decode_len(bytes: Seq<u8>) {
    }

    proof fn lemma_roundtrip(v: u64, prefix: Seq<u8>) {
        lemma_pow256_values();
        lemma_uint_roundtrip(v as nat, 6, prefix);
    }

    fn push_obj(self, cursor: &mut SquashCursor) -> Result<usize> {
        proof {
            lemma_pow256_values();
            lemma_le_value_bound(self.0@);
            lemma_le_bytes_of_value(self.0@);
        }
        let x = crate::num::le::le_decode(&self.0);
        push_uint(cursor, x, 6)
    }

    fn pop_obj(cursor: &mut SquashCursor) -> Result<u48> {
        proof { lemma_pow256_values(); }
        match pop_uint(cursor, 6) {
            Ok(x) => {
                let a = bytes_array_6(x);
                proof { lemma_le_roundtrip(x as nat, 6); }
                Ok(u48(a))
            },
            Err(e) => Err(e),
        }
    }
}

/// A 56-bit unsigned integer held as its 7 little-endian bytes.
#[allow(non_camel_case_types)]
#[derive(Copy, Clone, Eq, PartialEq, Ord, PartialOrd, Hash, Default, Debug)]
pub struct u56([u8; 7]);

impl DeepView for u56 {
    type V = u64;

    open spec fn deep_view(&self) -> u64 {
        le_value(self.bytes()) as u64
    }
}

impl u56 {
    /// The little-endian bytes.
    pub closed spec fn bytes(&self) -> Seq<u8> {
        self.0@
    }

    /// The number `val`, where it fits; `ValueTooLarge` otherwise.
    pub fn new(val: u64) -> (r: Result<u56>)
        ensures
            val < 0x100_0000_0000_0000 ==> (r matches Ok(x) && x.deep_view() == val),
            !(val < 0x100_0000_0000_0000) ==> (r matches Err(e) && e == Error::ValueTooLarge),
    {
        if val < 0x100_0000_0000_0000 {
            proof { lemma_pow256_values(); }
            let raw: u64 = val as u64;
            let a = bytes_array_7(raw);
            proof {
                lemma_le_roundtrip(raw as nat, 7);
            }
            Ok(u56(a))
        } else {
            Err(Error::ValueTooLarge)
        }
    }

    /// The number.
    pub fn convert(self) -> (r: u64)
        ensures
            r == self.deep_view(),
    {
        proof { lemma_pow256_values(); lemma_le_value_bound(self.0@); }
        let x = crate::num::le::le_decode(&self.0);
        x as u64
    }
}

impl LeBytes<7> for u56 {
    fn to_le_bytes(self) -> (r: [u8; 7])
        ensures
            r@ == self.bytes(),
    {
        self.0
    }

    fn from_le_bytes(bytes: [u8; 7]) -> (r: u56)
        ensures
            r.bytes() == bytes@,
    {
        u56(bytes)
    }
}

impl Zero for u56 {
    closed spec fn spec_zero() -> u56 {
        u56([0u8, 0u8, 0u8, 0u8, 0u8, 0u8, 0u8])
    }

    fn zero() -> u56 {
        u56([0u8, 0u8, 0u8, 0u8, 0u8, 0u8, 0u8])
    }
}

impl u56 {
    /// Zero has every byte zero, and is the number zero.
    pub proof fn lemma_zero()
        ensures
            u56::spec_zero().bytes() == seq![0u8; 7],
            u56::spec_zero().deep_view() == 0,
    {
        reveal_with_fuel(le_value, 8);
        assert(u56::spec_zero().bytes() =~= seq![0u8; 7]);
    }
}

impl SquashObject for u56 {
    open spec fn spec_encode(v: u64) -> Option<Seq<u8>> {
        if (v as nat) < pow256(7) {
            Some(le_bytes(v as nat, 7))
        } else {
            None
        }
    }

    open spec fn spec_decode(bytes: Seq<u8>) -> Option<(u64, nat)> {
        match uint_decode(bytes, 7) {
            Some((x, k)) => Some((x as u64, k)),
            None => None,
        }
    }

    open spec fn spec_roundtrips(v: u64) -> bool {
        (v as nat) < pow256(7)
    }

    proof fn lemma_decode_len(bytes: Seq<u8>) {
    }

    proof fn lemma_roundtrip(v: u64, prefix: Seq<u8>) {
        lemma_pow256_values();
        lemma_uint_roundtrip(v as nat, 7, prefix);
    }

    fn push_obj(self, cursor: &mut SquashCursor) -> Result<usize> {
        proof {
            lemma_pow256_values();
            lemma_le_value_bound(self.0@);
            lemma_le_bytes_of_value(self.0@);
        }
        let x = crate::num::le::le_decode(&self.0);
        push_uint(cursor, x, 7)
    }

    fn pop_obj(cursor: &mut SquashCursor) -> Result<u56> {
        proof { lemma_pow256_values(); }
        match pop_uint(cursor, 7) {
            Ok(x) => {
                let a = bytes_array_7(x);
                proof { lemma_le_roundtrip(x as nat, 7); }
                Ok(u56(a))
            },
            Err(e) => Err(e),
        }
    }
}

/// A 24-bit signed integer held as its 3 little-endian bytes.
#[allow(non_camel_case_types)]
#[derive(Copy, Clone, Eq, PartialEq, Ord, PartialOrd, Hash, Default, Debug)]
pub struct i24([u8; 3]);

impl DeepView for i24 {
    type V = i32;

    open spec fn deep_view(&self) -> i32 {
        untwos(le_value(self.bytes()), 3) as i32
    }
}

impl i24 {
    /// The little-endian bytes.
    pub closed spec fn bytes(&self) -> Seq<u8> {
        self.0@
    }

    /// The number `val`, where it fits; `ValueTooLarge` otherwise.
    pub fn new(val: i32) -> (r: Result<i24>)
        ensures
            -0x80_0000 <= val < 0x80_0000 ==> (r matches Ok(x) && x.deep_view() == val),
            !(-0x80_0000 <= val < 0x80_0000) ==> (r matches Err(e) && e == Error::ValueTooLarge),
    {
        if -0x80_0000 <= val && val < 0x80_0000 {
            proof { lemma_pow256_values(); }
            let raw: u64 = if val >= 0 {
                val as u64
            } else {
                (val as i64 + 0x100_0000) as u64
            };
            let a = bytes_array_3(raw);
            proof {
                lemma_le_roundtrip(raw as nat, 3);
            }
            Ok(i24(a))
        } else {
            Err(Error::ValueTooLarge)
        }
    }

    /// The number.
    pub fn convert(self) -> (r: i32)
        ensures
            r == self.deep_view(),
    {
        proof { lemma_pow256_values(); lemma_le_value_bound(self.0@); }
        let x = crate::num::le::le_decode(&self.0);
        proof { lemma_le_value_bound(self.0@); }
        if x < 0x80_0000 {
            x as i32
        } else {
            (x as i64 - 0x100_0000) as i32
        }
    }
}

impl LeBytes<3> for i24 {
    fn to_le_bytes(self) -> (r: [u8; 3])
        ensures
            r@ == self.bytes(),
    {
        self.0
    }

    fn from_le_bytes(bytes: [u8; 3]) -> (r: i24)
        ensures
            r.bytes() == bytes@,
    {
        i24(bytes)
    }
}

impl Zero for i24 {
    closed spec fn spec_zero() -> i24 {
        i24([0u8, 0u8, 0u8])
    }

    fn zero() -> i24 {
        i24([0u8, 0u8, 0u8])
    }
}

impl i24 {
    /// Zero has every byte zero, and is the number zero.
    pub proof fn lemma_zero()
        ensures
            i24::spec_zero().bytes() == seq![0u8; 3],
            i24::spec_zero().deep_view() == 0,
    {
        reveal_with_fuel(le_value, 4);
        assert(i24::spec_zero().bytes() =~= seq![0u8; 3]);
    }
}

impl SquashObject for i24 {
    open spec fn spec_encode(v: i32) -> Option<Seq<u8>> {
        if -0x80_0000 <= v < 0x80_0000 {
            Some(le_bytes(twos(v as int, 3), 3))
        } else {
            None
        }
    }

    open spec fn spec_decode(bytes: Seq<u8>) -> Option<(i32, nat)> {
        match uint_decode(bytes, 3) {
            Some((x, k)) => Some((untwos(x, 3) as i32, k)),
            None => None,
        }
    }

    open spec fn spec_roundtrips(v: i32) -> bool {
        -0x80_0000 <= v < 0x80_0000
    }

    proof fn lemma_decode_len(bytes: Seq<u8>) {
    }

    proof fn lemma_roundtrip(v: i32, prefix: Seq<u8>) {
        lemma_pow256_values();
        lemma_uint_roundtrip(twos(v as int, 3), 3, prefix);
    }

    fn push_obj(self, cursor: &mut SquashCursor) -> Result<usize> {
        proof {
            lemma_pow256_values();
            lemma_le_value_bound(self.0@);
            lemma_le_bytes_of_value(self.0@);
        }
        let x = crate::num::le::le_decode(&self.0);
        push_uint(cursor, x, 3)
    }

    fn pop_obj(cursor: &mut SquashCursor) -> Result<i24> {
        proof { lemma_pow256_values(); }
        match pop_uint(cursor, 3) {
            Ok(x) => {
                let a = bytes_array_3(x);
                proof { lemma_le_roundtrip(x as nat, 3); }
                Ok(i24(a))
            },
            Err(e) => Err(e),
        }
    }
}

/// A 40-bit signed integer held as its 5 little-endian bytes.
#[allow(non_camel_case_types)]
#[derive(Copy, Clone, Eq, PartialEq, Ord, PartialOrd, Hash, Default, Debug)]
pub struct i40([u8; 5]);

impl DeepView for i40 {
    type V = i64;

    open spec fn deep_view(&self) -> i64 {
        untwos(le_value(self.bytes()), 5) as i64
    }
}

impl i40 {
    /// The little-endian bytes.
    pub closed spec fn bytes(&self) -> Seq<u8> {
        self.0@
    }

    /// The number `val`, where it fits; `ValueTooLarge` otherwise.
    pub fn new(val: i64) -> (r: Result<i40>)
        ensures
            -0x80_0000_0000 <= val < 0x80_0000_0000 ==> (r matches Ok(x) && x.deep_view() == val),
            !(-0x80_0000_0000 <= val < 0x80_0000_0000) ==> (r matches Err(e) && e == Error::ValueTooLarge),
    {
        if -0x80_0000_0000 <= val && val < 0x80_0000_0000 {
            proof { lemma_pow256_values(); }
            let raw: u64 = if val >= 0 {
                val as u64
            } else {
                (val as i64 + 0x100_0000_0000) as u64
            };
            let a = bytes_array_5(raw);
            proof {
                lemma_le_roundtrip(raw as nat, 5);
            }
            Ok(i40(a))
        } else {
            Err(Error::ValueTooLarge)
        }
    }

    /// The number.
    pub fn convert(self) -> (r: i64)
        ensures
            r == self.deep_view(),
    {
        proof { lemma_pow256_values(); lemma_le_value_bound(self.0@); }
        let x = crate::num::le::le_decode(&self.0);
        proof { lemma_le_value_bound(self.0@); }
        if x < 0x80_0000_0000 {
            x as i64
        } else {
            (x as i64 - 0x100_0000_0000) as i64
        }
    }
}

impl LeBytes<5> for i40 {
    fn to_le_bytes(self) -> (r: [u8; 5])
        ensures
            r@ == self.bytes(),
    {
        self.0
    }

    fn from_le_bytes(bytes: [u8; 5]) -> (r: i40)
        ensures
            r.bytes() == bytes@,
    {
        i40(bytes)
    }
}

impl Zero for i40 {
    closed spec fn spec_zero() -> i40 {
        i40([0u8, 0u8, 0u8, 0u8, 0u8])
    }

    fn zero() -> i40 {
        i40([0u8, 0u8, 0u8, 0u8, 0u8])
    }
}

impl i40 {
    /// Zero has every byte zero, and is the number zero.
    pub proof fn lemma_zero()
        ensures
            i40::spec_zero().bytes() == seq![0u8; 5],
            i40::spec_zero().deep_view() == 0,
    {
        reveal_with_fuel(le_value, 6);
        assert(i40::spec_zero().bytes() =~= seq![0u8; 5]);
    }
}

impl SquashObject for i40 {
    open spec fn spec_encode(v: i64) -> Option<Seq<u8>> {
        if -0x80_0000_0000 <= v < 0x80_0000_0000 {
            Some(le_bytes(twos(v as int, 5), 5))
        } else {
            None
        }
    }

    open spec fn spec_decode(bytes: Seq<u8>) -> Option<(i64, nat)> {
        match uint_decode(bytes, 5) {
            Some((x, k)) => Some((untwos(x, 5) as i64, k)),
            None => None,
        }
    }

    open spec fn spec_roundtrips(v: i64) -> bool {
        -0x80_0000_0000 <= v < 0x80_0000_0000
    }

    proof fn lemma_decode_len(bytes: Seq<u8>) {
    }

    proof fn lemma_roundtrip(v: i64, prefix: Seq<u8>) {
        lemma_pow256_values();
        lemma_uint_roundtrip(twos(v as int, 5), 5, prefix);
    }

    fn push_obj(self, cursor: &mut SquashCursor) -> Result<usize> {
        proof {
            lemma_pow256_values();
            lemma_le_value_bound(self.0@);
            lemma_le_bytes_of_value(self.0@);
        }
        let x = crate::num::le::le_decode(&self.0);
        push_uint(cursor, x, 5)
    }

    fn pop_obj(cursor: &mut SquashCursor) -> Result<i40> {
        proof { lemma_pow256_values(); }
        match pop_uint(cursor, 5) {
            Ok(x) => {
                let a = bytes_array_5(x);
                proof { lemma_le_roundtrip(x as nat, 5); }
                Ok(i40(a))
            },
            Err(e) => Err(e),
        }
    }
}

/// A 48-bit signed integer held as its 6 little-endian bytes.
#[allow(non_camel_case_types)]
#[derive(Copy, Clone, Eq, PartialEq, Ord, PartialOrd, Hash, Default, Debug)]
pub struct i48([u8; 6]);

impl DeepView for i48 {
    type V = i64;

    open spec fn deep_view(&self) -> i64 {
        untwos(le_value(self.bytes()), 6) as i64
    }
}

impl i48 {
    /// The little-endian bytes.
    pub closed spec fn bytes(&self) -> Seq<u8> {
        self.0@
    }

    /// The number `val`, where it fits; `ValueTooLarge` otherwise.
    pub fn new(val: i64) -> (r: Result<i48>)
        ensures
            -0x8000_0000_0000 <= val < 0x8000_0000_0000 ==> (r matches Ok(x) && x.deep_view() == val),
            !(-0x8000_0000_0000 <= val < 0x8000_0000_0000) ==> (r matches Err(e) && e == Error::ValueTooLarge),
    {
        if -0x8000_0000_0000 <= val && val < 0x8000_0000_0000 {
            proof { lemma_pow256_values(); }
            let raw: u64 = if val >= 0 {
                val as u64
            } else {
                (val as i64 + 0x1_0000_0000_0000) as u64
            };
            let a = bytes_array_6(raw);
            proof {
                lemma_le_roundtrip(raw as nat, 6);
            }
            Ok(i48(a))
        } else {
            Err(Error::ValueTooLarge)
        }
    }

    /// The number.
    pub fn convert(self) -> (r: i64)
        ensures
            r == self.deep_view(),
    {
        proof { lemma_pow256_values(); lemma_le_value_bound(self.0@); }
        let x = crate::num::le::le_decode(&self.0);
        proof { lemma_le_value_bound(self.0@); }
        if x < 0x8000_0000_0000 {
            x as i64
        } else {
            (x as i64 - 0x1_0000_0000_0000) as i64
        }
    }
}

impl LeBytes<6> for i48 {
    fn to_le_bytes(self) -> (r: [u8; 6])
        ensures
            r@ == self.bytes(),
    {
        self.0
    }

    fn from_le_bytes(bytes: [u8; 6]) -> (r: i48)
        ensures
            r.bytes() == bytes@,
    {
        i48(bytes)
    }
}

impl Zero for i48 {
    closed spec fn spec_zero() -> i48 {
        i48([0u8, 0u8, 0u8, 0u8, 0u8, 0u8])
    }

    fn zero() -> i48 {
        i48([0u8, 0u8, 0u8, 0u8, 0u8, 0u8])
    }
}

impl i48 {
    /// Zero has every byte zero, and is the number zero.
    pub proof fn lemma_zero()
        ensures
            i48::spec_zero().bytes() == seq![0u8; 6],
            i48::spec_zero().deep_view() == 0,
    {
        reveal_with_fuel(le_value, 7);
        assert(i48::spec_zero().bytes() =~= seq![0u8; 6]);
    }
}

impl SquashObject for i48 {
    open spec fn spec_encode(v: i64) -> Option<Seq<u8>> {
        if -0x8000_0000_0000 <= v < 0x8000_0000_0000 {
            Some(le_bytes(twos(v as int, 6), 6))
        } else {
            None
        }
    }

    open spec fn spec_decode(bytes: Seq<u8>) -> Option<(i64, nat)> {
        match uint_decode(bytes, 6) {
            Some((x, k)) => Some((untwos(x, 6) as i64, k)),
            None => None,
        }
    }

    open spec fn spec_roundtrips(v: i64) -> bool {
        -0x8000_0000_0000 <= v < 0x8000_0000_0000
    }

    proof fn lemma_decode_len(bytes: Seq<u8>) {
    }

    proof fn lemma_roundtrip(v: i64, prefix: Seq<u8>) {
        lemma_pow256_values();
        lemma_uint_roundtrip(twos(v as int, 6), 6, prefix);
    }

    fn push_obj(self, cursor: &mut SquashCursor) -> Result<usize> {
        proof {
            lemma_pow256_values();
            lemma_le_value_bound(self.0@);
            lemma_le_bytes_of_value(self.0@);
        }
        let x = crate::num::le::le_decode(&self.0);
        push_uint(cursor, x, 6)
    }

    fn pop_obj(cursor: &mut SquashCursor) -> Result<i48> {
        proof { lemma_pow256_values(); }
        match pop_uint(cursor, 6) {
            Ok(x) => {
                let a = bytes_array_6(x);
                proof { lemma_le_roundtrip(x as nat, 6); }
                Ok(i48(a))
            },
            Err(e) => Err(e),
        }
    }
}

/// A 56-bit signed integer held as its 7 little-endian bytes.
#[allow(non_camel_case_types)]
#[derive(Copy, Clone, Eq, PartialEq, Ord, PartialOrd, Hash, Default, Debug)]
pub struct i56([u8; 7]);

impl DeepView for i56 {
    type V = i64;

    open spec fn deep_view(&self) -> i64 {
        untwos(le_value(self.bytes()), 7) as i64
    }
}

impl i56 {
    /// The little-endian bytes.
    pub closed spec fn bytes(&self) -> Seq<u8> {
        self.0@
    }

    /// The number `val`, where it fits; `ValueTooLarge` otherwise.
    pub fn new(val: i64) -> (r: Result<i56>)
        ensures
            -0x80_0000_0000_0000 <= val < 0x80_0000_0000_0000 ==> (r matches Ok(x) && x.deep_view() == val),
            !(-0x80_0000_0000_0000 <= val < 0x80_0000_0000_0000) ==> (r matches Err(e) && e == Error::ValueTooLarge),
    {
        if -0x80_0000_0000_0000 <= val && val < 0x80_0000_0000_0000 {
            proof { lemma_pow256_values(); }
            let raw: u64 = if val >= 0 {
                val as u64
            } else {
                (val as i64 + 0x100_0000_0000_0000) as u64
            };
            let a = bytes_array_7(raw);
            proof {
                lemma_le_roundtrip(raw as nat, 7);
            }
            Ok(i56(a))
        } else {
            Err(Error::ValueTooLarge)
        }
    }

    /// The number.
    pub fn convert(self) -> (r: i64)
        ensures
            r == self.deep_view(),
    {
        proof { lemma_pow256_values(); lemma_le_value_bound(self.0@); }
        let x = crate::num::le::le_decode(&self.0);
        proof { lemma_le_value_bound(self.0@); }
        if x < 0x80_0000_0000_0000 {
            x as i64
        } else {
            (x as i64 - 0x100_0000_0000_0000) as i64
        }
    }
}

impl LeBytes<7> for i56 {
    fn to_le_bytes(self) -> (r: [u8; 7])
        ensures
            r@ == self.bytes(),
    {
        self.0
    }

    fn from_le_bytes(bytes: [u8; 7]) -> (r: i56)
        ensures
            r.bytes() == bytes@,
    {
        i56(bytes)
    }
}

impl Zero for i56 {
    closed spec fn spec_zero() -> i56 {
        i56([0u8, 0u8, 0u8, 0u8, 0u8, 0u8, 0u8])
    }

    fn zero() -> i56 {
        i56([0u8, 0u8, 0u8, 0u8, 0u8, 0u8, 0u8])
    }
}

impl i56 {
    /// Zero has every byte zero, and is the number zero.
    pub proof fn lemma_zero()
        ensures
            i56::spec_zero().bytes() == seq![0u8; 7],
            i56::spec_zero().deep_view() == 0,
    {
        reveal_with_fuel(le_value, 8);
        assert(i56::spec_zero().bytes() =~= seq![0u8; 7]);
    }
}

impl SquashObject for i56 {
    open spec fn spec_encode(v: i64) -> Option<Seq<u8>> {
        if -0x80_0000_0000_0000 <= v < 0x80_0000_0000_0000 {
            Some(le_bytes(twos(v as int, 7), 7))
        } else {
            None
        }
    }

    open spec fn spec_decode(bytes: Seq<u8>) -> Option<(i64, nat)> {
        match uint_decode(bytes, 7) {
            Some((x, k)) => Some((untwos(x, 7) as i64, k)),
            None => None,
        }
    }

    open spec fn spec_roundtrips(v: i64) -> bool {
        -0x80_0000_0000_0000 <= v < 0x80_0000_0000_0000
    }

    proof fn lemma_decode_len(bytes: Seq<u8>) {
    }

    proof fn lemma_roundtrip(v: i64, prefix: Seq<u8>) {
        lemma_pow256_values();
        lemma_uint_roundtrip(twos(v as int, 7), 7, prefix);
    }

    fn push_obj(self, cursor: &mut SquashCursor) -> Result<usize> {
        proof {
            lemma_pow256_values();
            lemma_le_value_bound(self.0@);
            lemma_le_bytes_of_value(self.0@);
        }
        let x = crate::num::le::le_decode(&self.0);
        push_uint(cursor, x, 7)
    }

    fn pop_obj(cursor: &mut SquashCursor) -> Result<i56> {
        proof { lemma_pow256_values(); }
        match pop_uint(cursor, 7) {
            Ok(x) => {
                let a = bytes_array_7(x);
                proof { lemma_le_roundtrip(x as nat, 7); }
                Ok(i56(a))
            },
            Err(e) => Err(e),
        }
    }
}

} // verus!
