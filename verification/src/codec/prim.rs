use vstd::prelude::*;

use crate::cursor::SquashCursor;
use crate::error::Result;
use crate::codec::SerDes;
use crate::num::ux::{i24, i40, i48, i56, u24, u40, u48, u56};
use crate::num::vlq::Vlq;
use crate::object::SquashObject;

verus! {

/// A `u8` pushed as its own bytes.
#[derive(Clone, Copy, Debug, Default, PartialEq, Eq)]
pub struct U8;

impl SerDes for U8 {
    type Value = u8;

    open spec fn spec_valid(&self) -> bool {
        true
    }

    open spec fn spec_encode(&self, v: u8) -> Option<Seq<u8>> {
        u8::spec_encode(v.deep_view())
    }

    open spec fn spec_decode(&self, bytes: Seq<u8>) -> Option<(u8, nat)> {
        u8::spec_decode(bytes)
    }

    open spec fn spec_readback(&self, v: u8) -> u8 {
        v.deep_view()
    }

    open spec fn spec_roundtrips(&self, v: u8, prefix_len: nat) -> bool {
        u8::spec_roundtrips(v.deep_view())
    }

    proof fn lemma_decode_len(&self, bytes: Seq<u8>) {
        u8::lemma_decode_len(bytes);
    }

    proof fn lemma_roundtrip(&self, v: u8, prefix: Seq<u8>) {
        u8::lemma_roundtrip(v.deep_view(), prefix);
    }

    fn ser(&self, cursor: &mut SquashCursor, value: &u8) -> Result<usize> {
        cursor.push(*value)
    }

    fn des(&self, cursor: &mut SquashCursor) -> Result<u8> {
        cursor.pop::<u8>()
    }
}

/// A `u16` pushed as its own bytes.
#[derive(Clone, Copy, Debug, Default, PartialEq, Eq)]
pub struct U16;

impl SerDes for U16 {
    type Value = u16;

    open spec fn spec_valid(&self) -> bool {
        true
    }

    open spec fn spec_encode(&self, v: u16) -> Option<Seq<u8>> {
        u16::spec_encode(v.deep_view())
    }

    open spec fn spec_decode(&self, bytes: Seq<u8>) -> Option<(u16, nat)> {
        u16::spec_decode(bytes)
    }

    open spec fn spec_readback(&self, v: u16) -> u16 {
        v.deep_view()
    }

    open spec fn spec_roundtrips(&self, v: u16, prefix_len: nat) -> bool {
        u16::spec_roundtrips(v.deep_view())
    }

    proof fn lemma_decode_len(&self, bytes: Seq<u8>) {
        u16::lemma_decode_len(bytes);
    }

    proof fn lemma_roundtrip(&self, v: u16, prefix: Seq<u8>) {
        u16::lemma_roundtrip(v.deep_view(), prefix);
    }

    fn ser(&self, cursor: &mut SquashCursor, value: &u16) -> Result<usize> {
        cursor.push(*value)
    }

    fn des(&self, cursor: &mut SquashCursor) -> Result<u16> {
        cursor.pop::<u16>()
    }
}

/// A `u24` pushed as its own bytes.
#[derive(Clone, Copy, Debug, Default, PartialEq, Eq)]
pub struct U24;

impl SerDes for U24 {
    type Value = u24;

    open spec fn spec_valid(&self) -> bool {
        true
    }

    open spec fn spec_encode(&self, v: u24) -> Option<Seq<u8>> {
        u24::spec_encode(v.deep_view())
    }

    open spec fn spec_decode(&self, bytes: Seq<u8>) -> Option<(u32, nat)> {
        u24::spec_decode(bytes)
    }

    open spec fn spec_readback(&self, v: u24) -> u32 {
        v.deep_view()
    }

    open spec fn spec_roundtrips(&self, v: u24, prefix_len: nat) -> bool {
        u24::spec_roundtrips(v.deep_view())
    }

    proof fn lemma_decode_len(&self, bytes: Seq<u8>) {
        u24::lemma_decode_len(bytes);
    }

    proof fn lemma_roundtrip(&self, v: u24, prefix: Seq<u8>) {
        u24::lemma_roundtrip(v.deep_view(), prefix);
    }

    fn ser(&self, cursor: &mut SquashCursor, value: &u24) -> Result<usize> {
        cursor.push(*value)
    }

    fn des(&self, cursor: &mut SquashCursor) -> Result<u24> {
        cursor.pop::<u24>()
    }
}

/// A `u32` pushed as its own bytes.
#[derive(Clone, Copy, Debug, Default, PartialEq, Eq)]
pub struct U32;

impl SerDes for U32 {
    type Value = u32;

    open spec fn spec_valid(&self) -> bool {
        true
    }

    open spec fn spec_encode(&self, v: u32) -> Option<Seq<u8>> {
        u32::spec_encode(v.deep_view())
    }

    open spec fn spec_decode(&self, bytes: Seq<u8>) -> Option<(u32, nat)> {
        u32::spec_decode(bytes)
    }

    open spec fn spec_readback(&self, v: u32) -> u32 {
        v.deep_view()
    }

    open spec fn spec_roundtrips(&self, v: u32, prefix_len: nat) -> bool {
        u32::spec_roundtrips(v.deep_view())
    }

    proof fn lemma_decode_len(&self, bytes: Seq<u8>) {
        u32::lemma_decode_len(bytes);
    }

    proof fn lemma_roundtrip(&self, v: u32, prefix: Seq<u8>) {
        u32::lemma_roundtrip(v.deep_view(), prefix);
    }

    fn ser(&self, cursor: &mut SquashCursor, value: &u32) -> Result<usize> {
        cursor.push(*value)
    }

    fn des(&self, cursor: &mut SquashCursor) -> Result<u32> {
        cursor.pop::<u32>()
    }
}

/// A `u40` pushed as its own bytes.
#[derive(Clone, Copy, Debug, Default, PartialEq, Eq)]
pub struct U40;

impl SerDes for U40 {
    type Value = u40;

    open spec fn spec_valid(&self) -> bool {
        true
    }

    open spec fn spec_encode(&self, v: u40) -> Option<Seq<u8>> {
        u40::spec_encode(v.deep_view())
    }

    open spec fn spec_decode(&self, bytes: Seq<u8>) -> Option<(u64, nat)> {
        u40::spec_decode(bytes)
    }

    open spec fn spec_readback(&self, v: u40) -> u64 {
        v.deep_view()
    }

    open spec fn spec_roundtrips(&self, v: u40, prefix_len: nat) -> bool {
        u40::spec_roundtrips(v.deep_view())
    }

    proof fn lemma_decode_len(&self, bytes: Seq<u8>) {
        u40::lemma_decode_len(bytes);
    }

    proof fn lemma_roundtrip(&self, v: u40, prefix: Seq<u8>) {
        u40::lemma_roundtrip(v.deep_view(), prefix);
    }

    fn ser(&self, cursor: &mut SquashCursor, value: &u40) -> Result<usize> {
        cursor.push(*value)
    }

    fn des(&self, cursor: &mut SquashCursor) -> Result<u40> {
        cursor.pop::<u40>()
    }
}

/// A `u48` pushed as its own bytes.
#[derive(Clone, Copy, Debug, Default, PartialEq, Eq)]
pub struct U48;

impl SerDes for U48 {
    type Value = u48;

    open spec fn spec_valid(&self) -> bool {
        true
    }

    open spec fn spec_encode(&self, v: u48) -> Option<Seq<u8>> {
        u48::spec_encode(v.deep_view())
    }

    open spec fn spec_decode(&self, bytes: Seq<u8>) -> Option<(u64, nat)> {
        u48::spec_decode(bytes)
    }

    open spec fn spec_readback(&self, v: u48) -> u64 {
        v.deep_view()
    }

    open spec fn spec_roundtrips(&self, v: u48, prefix_len: nat) -> bool {
        u48::spec_roundtrips(v.deep_view())
    }

    proof fn lemma_decode_len(&self, bytes: Seq<u8>) {
        u48::lemma_decode_len(bytes);
    }

    proof fn lemma_roundtrip(&self, v: u48, prefix: Seq<u8>) {
        u48::lemma_roundtrip(v.deep_view(), prefix);
    }

    fn ser(&self, cursor: &mut SquashCursor, value: &u48) -> Result<usize> {
        cursor.push(*value)
    }

    fn des(&self, cursor: &mut SquashCursor) -> Result<u48> {
        cursor.pop::<u48>()
    }
}

/// A `u56` pushed as its own bytes.
#[derive(Clone, Copy, Debug, Default, PartialEq, Eq)]
pub struct U56;

impl SerDes for U56 {
    type Value = u56;

    open spec fn spec_valid(&self) -> bool {
        true
    }

    open spec fn spec_encode(&self, v: u56) -> Option<Seq<u8>> {
        u56::spec_encode(v.deep_view())
    }

    open spec fn spec_decode(&self, bytes: Seq<u8>) -> Option<(u64, nat)> {
        u56::spec_decode(bytes)
    }

    open spec fn spec_readback(&self, v: u56) -> u64 {
        v.deep_view()
    }

    open spec fn spec_roundtrips(&self, v: u56, prefix_len: nat) -> bool {
        u56::spec_roundtrips(v.deep_view())
    }

    proof fn lemma_decode_len(&self, bytes: Seq<u8>) {
        u56::lemma_decode_len(bytes);
    }

    proof fn lemma_roundtrip(&self, v: u56, prefix: Seq<u8>) {
        u56::lemma_roundtrip(v.deep_view(), prefix);
    }

    fn ser(&self, cursor: &mut SquashCursor, value: &u56) -> Result<usize> {
        cursor.push(*value)
    }

    fn des(&self, cursor: &mut SquashCursor) -> Result<u56> {
        cursor.pop::<u56>()
    }
}

/// A `u64` pushed as its own bytes.
#[derive(Clone, Copy, Debug, Default, PartialEq, Eq)]
pub struct U64;

impl SerDes for U64 {
    type Value = u64;

    open spec fn spec_valid(&self) -> bool {
        true
    }

    open spec fn spec_encode(&self, v: u64) -> Option<Seq<u8>> {
        u64::spec_encode(v.deep_view())
    }

    open spec fn spec_decode(&self, bytes: Seq<u8>) -> Option<(u64, nat)> {
        u64::spec_decode(bytes)
    }

    open spec fn spec_readback(&self, v: u64) -> u64 {
        v.deep_view()
    }

    open spec fn spec_roundtrips(&self, v: u64, prefix_len: nat) -> bool {
        u64::spec_roundtrips(v.deep_view())
    }

    proof fn lemma_decode_len(&self, bytes: Seq<u8>) {
        u64::lemma_decode_len(bytes);
    }

    proof fn lemma_roundtrip(&self, v: u64, prefix: Seq<u8>) {
        u64::lemma_roundtrip(v.deep_view(), prefix);
    }

    fn ser(&self, cursor: &mut SquashCursor, value: &u64) -> Result<usize> {
        cursor.push(*value)
    }

    fn des(&self, cursor: &mut SquashCursor) -> Result<u64> {
        cursor.pop::<u64>()
    }
}

/// A `i8` pushed as its own bytes.
#[derive(Clone, Copy, Debug, Default, PartialEq, Eq)]
pub struct I8;

impl SerDes for I8 {
    type Value = i8;

    open spec fn spec_valid(&self) -> bool {
        true
    }

    open spec fn spec_encode(&self, v: i8) -> Option<Seq<u8>> {
        i8::spec_encode(v.deep_view())
    }

    open spec fn spec_decode(&self, bytes: Seq<u8>) -> Option<(i8, nat)> {
        i8::spec_decode(bytes)
    }

    open spec fn spec_readback(&self, v: i8) -> i8 {
        v.deep_view()
    }

    open spec fn spec_roundtrips(&self, v: i8, prefix_len: nat) -> bool {
        i8::spec_roundtrips(v.deep_view())
    }

    proof fn lemma_decode_len(&self, bytes: Seq<u8>) {
        i8::lemma_decode_len(bytes);
    }

    proof fn lemma_roundtrip(&self, v: i8, prefix: Seq<u8>) {
        i8::lemma_roundtrip(v.deep_view(), prefix);
    }

    fn ser(&self, cursor: &mut SquashCursor, value: &i8) -> Result<usize> {
        cursor.push(*value)
    }

    fn des(&self, cursor: &mut SquashCursor) -> Result<i8> {
        cursor.pop::<i8>()
    }
}

/// A `i16` pushed as its own bytes.
#[derive(Clone, Copy, Debug, Default, PartialEq, Eq)]
pub struct I16;

impl SerDes for I16 {
    type Value = i16;

    open spec fn spec_valid(&self) -> bool {
        true
    }

    open spec fn spec_encode(&self, v: i16) -> Option<Seq<u8>> {
        i16::spec_encode(v.deep_view())
    }

    open spec fn spec_decode(&self, bytes: Seq<u8>) -> Option<(i16, nat)> {
        i16::spec_decode(bytes)
    }

    open spec fn spec_readback(&self, v: i16) -> i16 {
        v.deep_view()
    }

    open spec fn spec_roundtrips(&self, v: i16, prefix_len: nat) -> bool {
        i16::spec_roundtrips(v.deep_view())
    }

    proof fn lemma_decode_len(&self, bytes: Seq<u8>) {
        i16::lemma_decode_len(bytes);
    }

    proof fn lemma_roundtrip(&self, v: i16, prefix: Seq<u8>) {
        i16::lemma_roundtrip(v.deep_view(), prefix);
    }

    fn ser(&self, cursor: &mut SquashCursor, value: &i16) -> Result<usize> {
        cursor.push(*value)
    }

    fn des(&self, cursor: &mut SquashCursor) -> Result<i16> {
        cursor.pop::<i16>()
    }
}

/// A `i24` pushed as its own bytes.
#[derive(Clone, Copy, Debug, Default, PartialEq, Eq)]
pub struct I24;

impl SerDes for I24 {
    type Value = i24;

    open spec fn spec_valid(&self) -> bool {
        true
    }

    open spec fn spec_encode(&self, v: i24) -> Option<Seq<u8>> {
        i24::spec_encode(v.deep_view())
    }

    open spec fn spec_decode(&self, bytes: Seq<u8>) -> Option<(i32, nat)> {
        i24::spec_decode(bytes)
    }

    open spec fn spec_readback(&self, v: i24) -> i32 {
        v.deep_view()
    }

    open spec fn spec_roundtrips(&self, v: i24, prefix_len: nat) -> bool {
        i24::spec_roundtrips(v.deep_view())
    }

    proof fn lemma_decode_len(&self, bytes: Seq<u8>) {
        i24::lemma_decode_len(bytes);
    }

    proof fn lemma_roundtrip(&self, v: i24, prefix: Seq<u8>) {
        i24::lemma_roundtrip(v.deep_view(), prefix);
    }

    fn ser(&self, cursor: &mut SquashCursor, value: &i24) -> Result<usize> {
        cursor.push(*value)
    }

    fn des(&self, cursor: &mut SquashCursor) -> Result<i24> {
        cursor.pop::<i24>()
    }
}

/// A `i32` pushed as its own bytes.
#[derive(Clone, Copy, Debug, Default, PartialEq, Eq)]
pub struct I32;

impl SerDes for I32 {
    type Value = i32;

    open spec fn spec_valid(&self) -> bool {
        true
    }

    open spec fn spec_encode(&self, v: i32) -> Option<Seq<u8>> {
        i32::spec_encode(v.deep_view())
    }

    open spec fn spec_decode(&self, bytes: Seq<u8>) -> Option<(i32, nat)> {
        i32::spec_decode(bytes)
    }

    open spec fn spec_readback(&self, v: i32) -> i32 {
        v.deep_view()
    }

    open spec fn spec_roundtrips(&self, v: i32, prefix_len: nat) -> bool {
        i32::spec_roundtrips(v.deep_view())
    }

    proof fn lemma_decode_len(&self, bytes: Seq<u8>) {
        i32::lemma_decode_len(bytes);
    }

    proof fn lemma_roundtrip(&self, v: i32, prefix: Seq<u8>) {
        i32::lemma_roundtrip(v.deep_view(), prefix);
    }

    fn ser(&self, cursor: &mut SquashCursor, value: &i32) -> Result<usize> {
        cursor.push(*value)
    }

    fn des(&self, cursor: &mut SquashCursor) -> Result<i32> {
        cursor.pop::<i32>()
    }
}

/// A `i40` pushed as its own bytes.
#[derive(Clone, Copy, Debug, Default, PartialEq, Eq)]
pub struct I40;

impl SerDes for I40 {
    type Value = i40;

    open spec fn spec_valid(&self) -> bool {
        true
    }

    open spec fn spec_encode(&self, v: i40) -> Option<Seq<u8>> {
        i40::spec_encode(v.deep_view())
    }

    open spec fn spec_decode(&self, bytes: Seq<u8>) -> Option<(i64, nat)> {
        i40::spec_decode(bytes)
    }

    open spec fn spec_readback(&self, v: i40) -> i64 {
        v.deep_view()
    }

    open spec fn spec_roundtrips(&self, v: i40, prefix_len: nat) -> bool {
        i40::spec_roundtrips(v.deep_view())
    }

    proof fn lemma_decode_len(&self, bytes: Seq<u8>) {
        i40::lemma_decode_len(bytes);
    }

    proof fn lemma_roundtrip(&self, v: i40, prefix: Seq<u8>) {
        i40::lemma_roundtrip(v.deep_view(), prefix);
    }

    fn ser(&self, cursor: &mut SquashCursor, value: &i40) -> Result<usize> {
        cursor.push(*value)
    }

    fn des(&self, cursor: &mut SquashCursor) -> Result<i40> {
        cursor.pop::<i40>()
    }
}

/// A `i48` pushed as its own bytes.
#[derive(Clone, Copy, Debug, Default, PartialEq, Eq)]
pub struct I48;

impl SerDes for I48 {
    type Value = i48;

    open spec fn spec_valid(&self) -> bool {
        true
    }

    open spec fn spec_encode(&self, v: i48) -> Option<Seq<u8>> {
        i48::spec_encode(v.deep_view())
    }

    open spec fn spec_decode(&self, bytes: Seq<u8>) -> Option<(i64, nat)> {
        i48::spec_decode(bytes)
    }

    open spec fn spec_readback(&self, v: i48) -> i64 {
        v.deep_view()
    }

    open spec fn spec_roundtrips(&self, v: i48, prefix_len: nat) -> bool {
        i48::spec_roundtrips(v.deep_view())
    }

    proof fn lemma_decode_len(&self, bytes: Seq<u8>) {
        i48::lemma_decode_len(bytes);
    }

    proof fn lemma_roundtrip(&self, v: i48, prefix: Seq<u8>) {
        i48::lemma_roundtrip(v.deep_view(), prefix);
    }

    fn ser(&self, cursor: &mut SquashCursor, value: &i48) -> Result<usize> {
        cursor.push(*value)
    }

    fn des(&self, cursor: &mut SquashCursor) -> Result<i48> {
        cursor.pop::<i48>()
    }
}

/// A `i56` pushed as its own bytes.
#[derive(Clone, Copy, Debug, Default, PartialEq, Eq)]
pub struct I56;

impl SerDes for I56 {
    type Value = i56;

    open spec fn spec_valid(&self) -> bool {
        true
    }

    open spec fn spec_encode(&self, v: i56) -> Option<Seq<u8>> {
        i56::spec_encode(v.deep_view())
    }

    open spec fn spec_decode(&self, bytes: Seq<u8>) -> Option<(i64, nat)> {
        i56::spec_decode(bytes)
    }

    open spec fn spec_readback(&self, v: i56) -> i64 {
        v.deep_view()
    }

    open spec fn spec_roundtrips(&self, v: i56, prefix_len: nat) -> bool {
        i56::spec_roundtrips(v.deep_view())
    }

    proof fn lemma_decode_len(&self, bytes: Seq<u8>) {
        i56::lemma_decode_len(bytes);
    }

    proof fn lemma_roundtrip(&self, v: i56, prefix: Seq<u8>) {
        i56::lemma_roundtrip(v.deep_view(), prefix);
    }

    fn ser(&self, cursor: &mut SquashCursor, value: &i56) -> Result<usize> {
        cursor.push(*value)
    }

    fn des(&self, cursor: &mut SquashCursor) -> Result<i56> {
        cursor.pop::<i56>()
    }
}

/// A `i64` pushed as its own bytes.
#[derive(Clone, Copy, Debug, Default, PartialEq, Eq)]
pub struct I64;

impl SerDes for I64 {
    type Value = i64;

    open spec fn spec_valid(&self) -> bool {
        true
    }

    open spec fn spec_encode(&self, v: i64) -> Option<Seq<u8>> {
        i64::spec_encode(v.deep_view())
    }

    open spec fn spec_decode(&self, bytes: Seq<u8>) -> Option<(i64, nat)> {
        i64::spec_decode(bytes)
    }

    open spec fn spec_readback(&self, v: i64) -> i64 {
        v.deep_view()
    }

    open spec fn spec_roundtrips(&self, v: i64, prefix_len: nat) -> bool {
        i64::spec_roundtrips(v.deep_view())
    }

    proof fn lemma_decode_len(&self, bytes: Seq<u8>) {
        i64::lemma_decode_len(bytes);
    }

    proof fn lemma_roundtrip(&self, v: i64, prefix: Seq<u8>) {
        i64::lemma_roundtrip(v.deep_view(), prefix);
    }

    fn ser(&self, cursor: &mut SquashCursor, value: &i64) -> Result<usize> {
        cursor.push(*value)
    }

    fn des(&self, cursor: &mut SquashCursor) -> Result<i64> {
        cursor.pop::<i64>()
    }
}

/// A single boolean as one byte.
#[derive(Clone, Copy, Debug, Default, PartialEq, Eq)]
pub struct Bool;

impl SerDes for Bool {
    type Value = bool;

    open spec fn spec_valid(&self) -> bool {
        true
    }

    open spec fn spec_encode(&self, v: bool) -> Option<Seq<u8>> {
        bool::spec_encode(v.deep_view())
    }

    open spec fn spec_decode(&self, bytes: Seq<u8>) -> Option<(bool, nat)> {
        bool::spec_decode(bytes)
    }

    open spec fn spec_readback(&self, v: bool) -> bool {
        v.deep_view()
    }

    open spec fn spec_roundtrips(&self, v: bool, prefix_len: nat) -> bool {
        bool::spec_roundtrips(v.deep_view())
    }

    proof fn lemma_decode_len(&self, bytes: Seq<u8>) {
        bool::lemma_decode_len(bytes);
    }

    proof fn lemma_roundtrip(&self, v: bool, prefix: Seq<u8>) {
        bool::lemma_roundtrip(v.deep_view(), prefix);
    }

    fn ser(&self, cursor: &mut SquashCursor, value: &bool) -> Result<usize> {
        cursor.push(*value)
    }

    fn des(&self, cursor: &mut SquashCursor) -> Result<bool> {
        cursor.pop::<bool>()
    }
}

/// A variable-length quantity.
#[derive(Clone, Copy, Debug, Default, PartialEq, Eq)]
pub struct VlqCodec;

impl SerDes for VlqCodec {
    type Value = u64;

    open spec fn spec_valid(&self) -> bool {
        true
    }

    open spec fn spec_encode(&self, v: u64) -> Option<Seq<u8>> {
        Vlq::spec_encode(v)
    }

    open spec fn spec_decode(&self, bytes: Seq<u8>) -> Option<(u64, nat)> {
        Vlq::spec_decode(bytes)
    }

    open spec fn spec_readback(&self, v: u64) -> u64 {
        v
    }

    open spec fn spec_roundtrips(&self, v: u64, prefix_len: nat) -> bool {
        true
    }

    proof fn lemma_decode_len(&self, bytes: Seq<u8>) {
        Vlq::lemma_decode_len(bytes);
    }

    proof fn lemma_roundtrip(&self, v: u64, prefix: Seq<u8>) {
        Vlq::lemma_roundtrip(v, prefix);
    }

    fn ser(&self, cursor: &mut SquashCursor, value: &u64) -> Result<usize> {
        cursor.push(Vlq(*value))
    }

    fn des(&self, cursor: &mut SquashCursor) -> Result<u64> {
        match cursor.pop::<Vlq>() {
            Ok(v) => Ok(v.0),
            Err(e) => Err(e),
        }
    }
}

} // verus!
