use vstd::prelude::*;

use crate::codec::bits::{bit_at, bit_of, lemma_bit_at_div, lemma_pack_bits, pack_bits, pack_byte};
use crate::cursor::SquashCursor;
use crate::error::Result;
use crate::object::{lemma_u8_spec, SquashObject};

verus! {
/// 2 booleans packed into one byte, the first in the lowest bit.
#[derive(Copy, Clone, PartialEq, Eq, Structural, PartialOrd, Ord, Hash, Debug, Default)]
pub struct BoolTuple2(pub bool, pub bool);

impl DeepView for BoolTuple2 {
    type V = BoolTuple2;

    open spec fn deep_view(&self) -> BoolTuple2 {
        *self
    }
}

impl BoolTuple2 {
    /// The booleans in order.
    pub open spec fn bits(self) -> Seq<bool> {
        seq![self.0, self.1]
    }
}

impl SquashObject for BoolTuple2 {
    open spec fn spec_encode(v: BoolTuple2) -> Option<Seq<u8>> {
        u8::spec_encode(pack_bits(v.bits()) as u8)
    }

    open spec fn spec_decode(bytes: Seq<u8>) -> Option<(BoolTuple2, nat)> {
        match u8::spec_decode(bytes) {
            Some((x, k)) => Some((BoolTuple2(bit_at(x as nat, 0), bit_at(x as nat, 1)), k)),
            None => None,
        }
    }

    open spec fn spec_roundtrips(v: BoolTuple2) -> bool {
        true
    }

    proof fn lemma_decode_len(bytes: Seq<u8>) {
    }

    proof fn lemma_roundtrip(v: BoolTuple2, prefix: Seq<u8>) {
        let b = v.bits();
        lemma_pack_bits(b, 0);
        lemma_pack_bits(b, 1);
        u8::lemma_roundtrip(pack_bits(b) as u8, prefix);
    }

    fn push_obj(self, cursor: &mut SquashCursor) -> Result<usize> {
        let bits = vec![self.0, self.1];
        proof {
            assert(bits@.subrange(0, 2) =~= self.bits());
        }
        let byte = pack_byte(bits.as_slice(), 0, 2);
        cursor.push(byte)
    }

    fn pop_obj(cursor: &mut SquashCursor) -> Result<BoolTuple2> {
        match cursor.pop::<u8>() {
            Ok(x) => Ok(BoolTuple2(bit_of(x, 0), bit_of(x, 1))),
            Err(e) => Err(e),
        }
    }
}

/// 3 booleans packed into one byte, the first in the lowest bit.
#[derive(Copy, Clone, PartialEq, Eq, Structural, PartialOrd, Ord, Hash, Debug, Default)]
pub struct BoolTuple3(pub bool, pub bool, pub bool);

impl DeepView for BoolTuple3 {
    type V = BoolTuple3;

    open spec fn deep_view(&self) -> BoolTuple3 {
        *self
    }
}

impl BoolTuple3 {
    /// The booleans in order.
    pub open spec fn bits(self) -> Seq<bool> {
        seq![self.0, self.1, self.2]
    }
}

impl SquashObject for BoolTuple3 {
    open spec fn spec_encode(v: BoolTuple3) -> Option<Seq<u8>> {
        u8::spec_encode(pack_bits(v.bits()) as u8)
    }

    open spec fn spec_decode(bytes: Seq<u8>) -> Option<(BoolTuple3, nat)> {
        match u8::spec_decode(bytes) {
            Some((x, k)) => Some((BoolTuple3(bit_at(x as nat, 0), bit_at(x as nat, 1), bit_at(x as nat, 2)), k)),
            None => None,
        }
    }

    open spec fn spec_roundtrips(v: BoolTuple3) -> bool {
        true
    }

    proof fn lemma_decode_len(bytes: Seq<u8>) {
    }

    proof fn lemma_roundtrip(v: BoolTuple3, prefix: Seq<u8>) {
        let b = v.bits();
        lemma_pack_bits(b, 0);
        lemma_pack_bits(b, 1);
        lemma_pack_bits(b, 2);
        u8::lemma_roundtrip(pack_bits(b) as u8, prefix);
    }

    fn push_obj(self, cursor: &mut SquashCursor) -> Result<usize> {
        let bits = vec![self.0, self.1, self.2];
        proof {
            assert(bits@.subrange(0, 3) =~= self.bits());
        }
        let byte = pack_byte(bits.as_slice(), 0, 3);
        cursor.push(byte)
    }

    fn pop_obj(cursor: &mut SquashCursor) -> Result<BoolTuple3> {
        match cursor.pop::<u8>() {
            Ok(x) => Ok(BoolTuple3(bit_of(x, 0), bit_of(x, 1), bit_of(x, 2))),
            Err(e) => Err(e),
        }
    }
}

/// 4 booleans packed into one byte, the first in the lowest bit.
#[derive(Copy, Clone, PartialEq, Eq, Structural, PartialOrd, Ord, Hash, Debug, Default)]
pub struct BoolTuple4(pub bool, pub bool, pub bool, pub bool);

impl DeepView for BoolTuple4 {
    type V = BoolTuple4;

    open spec fn deep_view(&self) -> BoolTuple4 {
        *self
    }
}

impl BoolTuple4 {
    /// The booleans in order.
    pub open spec fn bits(self) -> Seq<bool> {
        seq![self.0, self.1, self.2, self.3]
    }
}

impl SquashObject for BoolTuple4 {
    open spec fn spec_encode(v: BoolTuple4) -> Option<Seq<u8>> {
        u8::spec_encode(pack_bits(v.bits()) as u8)
    }

    open spec fn spec_decode(bytes: Seq<u8>) -> Option<(BoolTuple4, nat)> {
        match u8::spec_decode(bytes) {
            Some((x, k)) => Some((BoolTuple4(bit_at(x as nat, 0), bit_at(x as nat, 1), bit_at(x as nat, 2), bit_at(x as nat, 3)), k)),
            None => None,
        }
    }

    open spec fn spec_roundtrips(v: BoolTuple4) -> bool {
        true
    }

    proof fn lemma_decode_len(bytes: Seq<u8>) {
    }

    proof fn lemma_roundtrip(v: BoolTuple4, prefix: Seq<u8>) {
        let b = v.bits();
        lemma_pack_bits(b, 0);
        lemma_pack_bits(b, 1);
        lemma_pack_bits(b, 2);
        lemma_pack_bits(b, 3);
        u8::lemma_roundtrip(pack_bits(b) as u8, prefix);
    }

    fn push_obj(self, cursor: &mut SquashCursor) -> Result<usize> {
        let bits = vec![self.0, self.1, self.2, self.3];
        proof {
            assert(bits@.subrange(0, 4) =~= self.bits());
        }
        let byte = pack_byte(bits.as_slice(), 0, 4);
        cursor.push(byte)
    }

    fn pop_obj(cursor: &mut SquashCursor) -> Result<BoolTuple4> {
        match cursor.pop::<u8>() {
            Ok(x) => Ok(BoolTuple4(bit_of(x, 0), bit_of(x, 1), bit_of(x, 2), bit_of(x, 3))),
            Err(e) => Err(e),
        }
    }
}

/// 5 booleans packed into one byte, the first in the lowest bit.
#[derive(Copy, Clone, PartialEq, Eq, Structural, PartialOrd, Ord, Hash, Debug, Default)]
pub struct BoolTuple5(pub bool, pub bool, pub bool, pub bool, pub bool);

impl DeepView for BoolTuple5 {
    type V = BoolTuple5;

    open spec fn deep_view(&self) -> BoolTuple5 {
        *self
    }
}

impl BoolTuple5 {
    /// The booleans in order.
    pub open spec fn bits(self) -> Seq<bool> {
        seq![self.0, self.1, self.2, self.3, self.4]
    }
}

impl SquashObject for BoolTuple5 {
    open spec fn spec_encode(v: BoolTuple5) -> Option<Seq<u8>> {
        u8::spec_encode(pack_bits(v.bits()) as u8)
    }

    open spec fn spec_decode(bytes: Seq<u8>) -> Option<(BoolTuple5, nat)> {
        match u8::spec_decode(bytes) {
            Some((x, k)) => Some((BoolTuple5(bit_at(x as nat, 0), bit_at(x as nat, 1), bit_at(x as nat, 2), bit_at(x as nat, 3), bit_at(x as nat, 4)), k)),
            None => None,
        }
    }

    open spec fn spec_roundtrips(v: BoolTuple5) -> bool {
        true
    }

    proof fn lemma_decode_len(bytes: Seq<u8>) {
    }

    proof fn lemma_roundtrip(v: BoolTuple5, prefix: Seq<u8>) {
        let b = v.bits();
        lemma_pack_bits(b, 0);
        lemma_pack_bits(b, 1);
        lemma_pack_bits(b, 2);
        lemma_pack_bits(b, 3);
        lemma_pack_bits(b, 4);
        u8::lemma_roundtrip(pack_bits(b) as u8, prefix);
    }

    fn push_obj(self, cursor: &mut SquashCursor) -> Result<usize> {
        let bits = vec![self.0, self.1, self.2, self.3, self.4];
        proof {
            assert(bits@.subrange(0, 5) =~= self.bits());
        }
        let byte = pack_byte(bits.as_slice(), 0, 5);
        cursor.push(byte)
    }

    fn pop_obj(cursor: &mut SquashCursor) -> Result<BoolTuple5> {
        match cursor.pop::<u8>() {
            Ok(x) => Ok(BoolTuple5(bit_of(x, 0), bit_of(x, 1), bit_of(x, 2), bit_of(x, 3), bit_of(x, 4))),
            Err(e) => Err(e),
        }
    }
}

/// 6 booleans packed into one byte, the first in the lowest bit.
#[derive(Copy, Clone, PartialEq, Eq, Structural, PartialOrd, Ord, Hash, Debug, Default)]
pub struct BoolTuple6(pub bool, pub bool, pub bool, pub bool, pub bool, pub bool);

impl DeepView for BoolTuple6 {
    type V = BoolTuple6;

    open spec fn deep_view(&self) -> BoolTuple6 {
        *self
    }
}

impl BoolTuple6 {
    /// The booleans in order.
    pub open spec fn bits(self) -> Seq<bool> {
        seq![self.0, self.1, self.2, self.3, self.4, self.5]
    }
}

impl SquashObject for BoolTuple6 {
    open spec fn spec_encode(v: BoolTuple6) -> Option<Seq<u8>> {
        u8::spec_encode(pack_bits(v.bits()) as u8)
    }

    open spec fn spec_decode(bytes: Seq<u8>) -> Option<(BoolTuple6, nat)> {
        match u8::spec_decode(bytes) {
            Some((x, k)) => Some((BoolTuple6(bit_at(x as nat, 0), bit_at(x as nat, 1), bit_at(x as nat, 2), bit_at(x as nat, 3), bit_at(x as nat, 4), bit_at(x as nat, 5)), k)),
            None => None,
        }
    }

    open spec fn spec_roundtrips(v: BoolTuple6) -> bool {
        true
    }

    proof fn lemma_decode_len(bytes: Seq<u8>) {
    }

    proof fn lemma_roundtrip(v: BoolTuple6, prefix: Seq<u8>) {
        let b = v.bits();
        lemma_pack_bits(b, 0);
        lemma_pack_bits(b, 1);
        lemma_pack_bits(b, 2);
        lemma_pack_bits(b, 3);
        lemma_pack_bits(b, 4);
        lemma_pack_bits(b, 5);
        u8::lemma_roundtrip(pack_bits(b) as u8, prefix);
    }

    fn push_obj(self, cursor: &mut SquashCursor) -> Result<usize> {
        let bits = vec![self.0, self.1, self.2, self.3, self.4, self.5];
        proof {
            assert(bits@.subrange(0, 6) =~= self.bits());
        }
        let byte = pack_byte(bits.as_slice(), 0, 6);
        cursor.push(byte)
    }

    fn pop_obj(cursor: &mut SquashCursor) -> Result<BoolTuple6> {
        match cursor.pop::<u8>() {
            Ok(x) => Ok(BoolTuple6(bit_of(x, 0), bit_of(x, 1), bit_of(x, 2), bit_of(x, 3), bit_of(x, 4), bit_of(x, 5))),
            Err(e) => Err(e),
        }
    }
}

/// 7 booleans packed into one byte, the first in the lowest bit.
#[derive(Copy, Clone, PartialEq, Eq, Structural, PartialOrd, Ord, Hash, Debug, Default)]
pub struct BoolTuple7(pub bool, pub bool, pub bool, pub bool, pub bool, pub bool, pub bool);

impl DeepView for BoolTuple7 {
    type V = BoolTuple7;

    open spec fn deep_view(&self) -> BoolTuple7 {
        *self
    }
}

impl BoolTuple7 {
    /// The booleans in order.
    pub open spec fn bits(self) -> Seq<bool> {
        seq![self.0, self.1, self.2, self.3, self.4, self.5, self.6]
    }
}

impl SquashObject for BoolTuple7 {
    open spec fn spec_encode(v: BoolTuple7) -> Option<Seq<u8>> {
        u8::spec_encode(pack_bits(v.bits()) as u8)
    }

    open spec fn spec_decode(bytes: Seq<u8>) -> Option<(BoolTuple7, nat)> {
        match u8::spec_decode(bytes) {
            Some((x, k)) => Some((BoolTuple7(bit_at(x as nat, 0), bit_at(x as nat, 1), bit_at(x as nat, 2), bit_at(x as nat, 3), bit_at(x as nat, 4), bit_at(x as nat, 5), bit_at(x as nat, 6)), k)),
            None => None,
        }
    }

    open spec fn spec_roundtrips(v: BoolTuple7) -> bool {
        true
    }

    proof fn lemma_decode_len(bytes: Seq<u8>) {
    }

    proof fn lemma_roundtrip(v: BoolTuple7, prefix: Seq<u8>) {
        let b = v.bits();
        lemma_pack_bits(b, 0);
        lemma_pack_bits(b, 1);
        lemma_pack_bits(b, 2);
        lemma_pack_bits(b, 3);
        lemma_pack_bits(b, 4);
        lemma_pack_bits(b, 5);
        lemma_pack_bits(b, 6);
        u8::lemma_roundtrip(pack_bits(b) as u8, prefix);
    }

    fn push_obj(self, cursor: &mut SquashCursor) -> Result<usize> {
        let bits = vec![self.0, self.1, self.2, self.3, self.4, self.5, self.6];
        proof {
            assert(bits@.subrange(0, 7) =~= self.bits());
        }
        let byte = pack_byte(bits.as_slice(), 0, 7);
        cursor.push(byte)
    }

    fn pop_obj(cursor: &mut SquashCursor) -> Result<BoolTuple7> {
        match cursor.pop::<u8>() {
            Ok(x) => Ok(BoolTuple7(bit_of(x, 0), bit_of(x, 1), bit_of(x, 2), bit_of(x, 3), bit_of(x, 4), bit_of(x, 5), bit_of(x, 6))),
            Err(e) => Err(e),
        }
    }
}

/// 8 booleans packed into one byte, the first in the lowest bit.
#[derive(Copy, Clone, PartialEq, Eq, Structural, PartialOrd, Ord, Hash, Debug, Default)]
pub struct BoolTuple8(pub bool, pub bool, pub bool, pub bool, pub bool, pub bool, pub bool, pub bool);

impl DeepView for BoolTuple8 {
    type V = BoolTuple8;

    open spec fn deep_view(&self) -> BoolTuple8 {
        *self
    }
}

impl BoolTuple8 {
    /// The booleans in order.
    pub open spec fn bits(self) -> Seq<bool> {
        seq![self.0, self.1, self.2, self.3, self.4, self.5, self.6, self.7]
    }
}

impl SquashObject for BoolTuple8 {
    open spec fn spec_encode(v: BoolTuple8) -> Option<Seq<u8>> {
        u8::spec_encode(pack_bits(v.bits()) as u8)
    }

    open spec fn spec_decode(bytes: Seq<u8>) -> Option<(BoolTuple8, nat)> {
        match u8::spec_decode(bytes) {
            Some((x, k)) => Some((BoolTuple8(bit_at(x as nat, 0), bit_at(x as nat, 1), bit_at(x as nat, 2), bit_at(x as nat, 3), bit_at(x as nat, 4), bit_at(x as nat, 5), bit_at(x as nat, 6), bit_at(x as nat, 7)), k)),
            None => None,
        }
    }

    open spec fn spec_roundtrips(v: BoolTuple8) -> bool {
        true
    }

    proof fn lemma_decode_len(bytes: Seq<u8>) {
    }

    proof fn lemma_roundtrip(v: BoolTuple8, prefix: Seq<u8>) {
        let b = v.bits();
        lemma_pack_bits(b, 0);
        lemma_pack_bits(b, 1);
        lemma_pack_bits(b, 2);
        lemma_pack_bits(b, 3);
        lemma_pack_bits(b, 4);
        lemma_pack_bits(b, 5);
        lemma_pack_bits(b, 6);
        lemma_pack_bits(b, 7);
        u8::lemma_roundtrip(pack_bits(b) as u8, prefix);
    }

    fn push_obj(self, cursor: &mut SquashCursor) -> Result<usize> {
        let bits = vec![self.0, self.1, self.2, self.3, self.4, self.5, self.6, self.7];
        proof {
            assert(bits@.subrange(0, 8) =~= self.bits());
        }
        let byte = pack_byte(bits.as_slice(), 0, 8);
        cursor.push(byte)
    }

    fn pop_obj(cursor: &mut SquashCursor) -> Result<BoolTuple8> {
        match cursor.pop::<u8>() {
            Ok(x) => Ok(BoolTuple8(bit_of(x, 0), bit_of(x, 1), bit_of(x, 2), bit_of(x, 3), bit_of(x, 4), bit_of(x, 5), bit_of(x, 6), bit_of(x, 7))),
            Err(e) => Err(e),
        }
    }
}

/// Boolean `i` is bit `i` of the one byte written: the byte is the sum of
/// `2^i` over the booleans that hold, and reading a byte back takes each
/// boolean from its own bit.
pub proof fn lemma_booltuple2_layout(v: BoolTuple2, bytes: Seq<u8>)
    ensures
        BoolTuple2::spec_encode(v) == Some(seq![((if v.0 { 1int } else { 0 }) + (if v.1 { 2int } else { 0 })) as u8]),
        bytes.len() > 0 ==> (BoolTuple2::spec_decode(bytes) matches Some((w, k)) && k == 1 && w.0 == ((bytes.last() / 1) % 2 == 1)),
        bytes.len() > 0 ==> (BoolTuple2::spec_decode(bytes) matches Some((w, k)) && k == 1 && w.1 == ((bytes.last() / 2) % 2 == 1)),
{
    reveal_with_fuel(pack_bits, 3);
    lemma_u8_spec(0, bytes);
    vstd::arithmetic::power2::lemma2_to64();
    if bytes.len() > 0 {
        lemma_bit_at_div(bytes.last() as nat, 0);
        lemma_bit_at_div(bytes.last() as nat, 1);
    }
    lemma_u8_spec(pack_bits(v.bits()) as u8, Seq::empty());
}

/// Boolean `i` is bit `i` of the one byte written: the byte is the sum of
/// `2^i` over the booleans that hold, and reading a byte back takes each
/// boolean from its own bit.
pub proof fn lemma_booltuple3_layout(v: BoolTuple3, bytes: Seq<u8>)
    ensures
        BoolTuple3::spec_encode(v) == Some(seq![((if v.0 { 1int } else { 0 }) + (if v.1 { 2int } else { 0 }) + (if v.2 { 4int } else { 0 })) as u8]),
        bytes.len() > 0 ==> (BoolTuple3::spec_decode(bytes) matches Some((w, k)) && k == 1 && w.0 == ((bytes.last() / 1) % 2 == 1)),
        bytes.len() > 0 ==> (BoolTuple3::spec_decode(bytes) matches Some((w, k)) && k == 1 && w.1 == ((bytes.last() / 2) % 2 == 1)),
        bytes.len() > 0 ==> (BoolTuple3::spec_decode(bytes) matches Some((w, k)) && k == 1 && w.2 == ((bytes.last() / 4) % 2 == 1)),
{
    reveal_with_fuel(pack_bits, 4);
    lemma_u8_spec(0, bytes);
    vstd::arithmetic::power2::lemma2_to64();
    if bytes.len() > 0 {
        lemma_bit_at_div(bytes.last() as nat, 0);
        lemma_bit_at_div(bytes.last() as nat, 1);
        lemma_bit_at_div(bytes.last() as nat, 2);
    }
    lemma_u8_spec(pack_bits(v.bits()) as u8, Seq::empty());
}

/// Boolean `i` is bit `i` of the one byte written: the byte is the sum of
/// `2^i` over the booleans that hold, and reading a byte back takes each
/// boolean from its own bit.
pub proof fn lemma_booltuple4_layout(v: BoolTuple4, bytes: Seq<u8>)
    ensures
        BoolTuple4::spec_encode(v) == Some(seq![((if v.0 { 1int } else { 0 }) + (if v.1 { 2int } else { 0 }) + (if v.2 { 4int } else { 0 }) + (if v.3 { 8int } else { 0 })) as u8]),
        bytes.len() > 0 ==> (BoolTuple4::spec_decode(bytes) matches Some((w, k)) && k == 1 && w.0 == ((bytes.last() / 1) % 2 == 1)),
        bytes.len() > 0 ==> (BoolTuple4::spec_decode(bytes) matches Some((w, k)) && k == 1 && w.1 == ((bytes.last() / 2) % 2 == 1)),
        bytes.len() > 0 ==> (BoolTuple4::spec_decode(bytes) matches Some((w, k)) && k == 1 && w.2 == ((bytes.last() / 4) % 2 == 1)),
        bytes.len() > 0 ==> (BoolTuple4::spec_decode(bytes) matches Some((w, k)) && k == 1 && w.3 == ((bytes.last() / 8) % 2 == 1)),
{
    reveal_with_fuel(pack_bits, 5);
    lemma_u8_spec(0, bytes);
    vstd::arithmetic::power2::lemma2_to64();
    if bytes.len() > 0 {
        lemma_bit_at_div(bytes.last() as nat, 0);
        lemma_bit_at_div(bytes.last() as nat, 1);
        lemma_bit_at_div(bytes.last() as nat, 2);
        lemma_bit_at_div(bytes.last() as nat, 3);
    }
    lemma_u8_spec(pack_bits(v.bits()) as u8, Seq::empty());
}

/// Boolean `i` is bit `i` of the one byte written: the byte is the sum of
/// `2^i` over the booleans that hold, and reading a byte back takes each
/// boolean from its own bit.
pub proof fn lemma_booltuple5_layout(v: BoolTuple5, bytes: Seq<u8>)
    ensures
        BoolTuple5::spec_encode(v) == Some(seq![((if v.0 { 1int } else { 0 }) + (if v.1 { 2int } else { 0 }) + (if v.2 { 4int } else { 0 }) + (if v.3 { 8int } else { 0 }) + (if v.4 { 16int } else { 0 })) as u8]),
        bytes.len() > 0 ==> (BoolTuple5::spec_decode(bytes) matches Some((w, k)) && k == 1 && w.0 == ((bytes.last() / 1) % 2 == 1)),
        bytes.len() > 0 ==> (BoolTuple5::spec_decode(bytes) matches Some((w, k)) && k == 1 && w.1 == ((bytes.last() / 2) % 2 == 1)),
        bytes.len() > 0 ==> (BoolTuple5::spec_decode(bytes) matches Some((w, k)) && k == 1 && w.2 == ((bytes.last() / 4) % 2 == 1)),
        bytes.len() > 0 ==> (BoolTuple5::spec_decode(bytes) matches Some((w, k)) && k == 1 && w.3 == ((bytes.last() / 8) % 2 == 1)),
        bytes.len() > 0 ==> (BoolTuple5::spec_decode(bytes) matches Some((w, k)) && k == 1 && w.4 == ((bytes.last() / 16) % 2 == 1)),
{
    reveal_with_fuel(pack_bits, 6);
    lemma_u8_spec(0, bytes);
    vstd::arithmetic::power2::lemma2_to64();
    if bytes.len() > 0 {
        lemma_bit_at_div(bytes.last() as nat, 0);
        lemma_bit_at_div(bytes.last() as nat, 1);
        lemma_bit_at_div(bytes.last() as nat, 2);
        lemma_bit_at_div(bytes.last() as nat, 3);
        lemma_bit_at_div(bytes.last() as nat, 4);
    }
    lemma_u8_spec(pack_bits(v.bits()) as u8, Seq::empty());
}

/// Boolean `i` is bit `i` of the one byte written: the byte is the sum of
/// `2^i` over the booleans that hold, and reading a byte back takes each
/// boolean from its own bit.
pub proof fn lemma_booltuple6_layout(v: BoolTuple6, bytes: Seq<u8>)
    ensures
        BoolTuple6::spec_encode(v) == Some(seq![((if v.0 { 1int } else { 0 }) + (if v.1 { 2int } else { 0 }) + (if v.2 { 4int } else { 0 }) + (if v.3 { 8int } else { 0 }) + (if v.4 { 16int } else { 0 }) + (if v.5 { 32int } else { 0 })) as u8]),
        bytes.len() > 0 ==> (BoolTuple6::spec_decode(bytes) matches Some((w, k)) && k == 1 && w.0 == ((bytes.last() / 1) % 2 == 1)),
        bytes.len() > 0 ==> (BoolTuple6::spec_decode(bytes) matches Some((w, k)) && k == 1 && w.1 == ((bytes.last() / 2) % 2 == 1)),
        bytes.len() > 0 ==> (BoolTuple6::spec_decode(bytes) matches Some((w, k)) && k == 1 && w.2 == ((bytes.last() / 4) % 2 == 1)),
        bytes.len() > 0 ==> (BoolTuple6::spec_decode(bytes) matches Some((w, k)) && k == 1 && w.3 == ((bytes.last() / 8) % 2 == 1)),
        bytes.len() > 0 ==> (BoolTuple6::spec_decode(bytes) matches Some((w, k)) && k == 1 && w.4 == ((bytes.last() / 16) % 2 == 1)),
        bytes.len() > 0 ==> (BoolTuple6::spec_decode(bytes) matches Some((w, k)) && k == 1 && w.5 == ((bytes.last() / 32) % 2 == 1)),
{
    reveal_with_fuel(pack_bits, 7);
    lemma_u8_spec(0, bytes);
    vstd::arithmetic::power2::lemma2_to64();
    if bytes.len() > 0 {
        lemma_bit_at_div(bytes.last() as nat, 0);
        lemma_bit_at_div(bytes.last() as nat, 1);
        lemma_bit_at_div(bytes.last() as nat, 2);
        lemma_bit_at_div(bytes.last() as nat, 3);
        lemma_bit_at_div(bytes.last() as nat, 4);
        lemma_bit_at_div(bytes.last() as nat, 5);
    }
    lemma_u8_spec(pack_bits(v.bits()) as u8, Seq::empty());
}

/// Boolean `i` is bit `i` of the one byte written: the byte is the sum of
/// `2^i` over the booleans that hold, and reading a byte back takes each
/// boolean from its own bit.
#[verifier::spinoff_prover]
pub proof fn lemma_booltuple7_layout(v: BoolTuple7, bytes: Seq<u8>)
    ensures
        BoolTuple7::spec_encode(v) == Some(seq![((if v.0 { 1int } else { 0 }) + (if v.1 { 2int } else { 0 }) + (if v.2 { 4int } else { 0 }) + (if v.3 { 8int } else { 0 }) + (if v.4 { 16int } else { 0 }) + (if v.5 { 32int } else { 0 }) + (if v.6 { 64int } else { 0 })) as u8]),
        bytes.len() > 0 ==> (BoolTuple7::spec_decode(bytes) matches Some((w, k)) && k == 1 && w.0 == ((bytes.last() / 1) % 2 == 1)),
        bytes.len() > 0 ==> (BoolTuple7::spec_decode(bytes) matches Some((w, k)) && k == 1 && w.1 == ((bytes.last() / 2) % 2 == 1)),
        bytes.len() > 0 ==> (BoolTuple7::spec_decode(bytes) matches Some((w, k)) && k == 1 && w.2 == ((bytes.last() / 4) % 2 == 1)),
        bytes.len() > 0 ==> (BoolTuple7::spec_decode(bytes) matches Some((w, k)) && k == 1 && w.3 == ((bytes.last() / 8) % 2 == 1)),
        bytes.len() > 0 ==> (BoolTuple7::spec_decode(bytes) matches Some((w, k)) && k == 1 && w.4 == ((bytes.last() / 16) % 2 == 1)),
        bytes.len() > 0 ==> (BoolTuple7::spec_decode(bytes) matches Some((w, k)) && k == 1 && w.5 == ((bytes.last() / 32) % 2 == 1)),
        bytes.len() > 0 ==> (BoolTuple7::spec_decode(bytes) matches Some((w, k)) && k == 1 && w.6 == ((bytes.last() / 64) % 2 == 1)),
{
    reveal_with_fuel(pack_bits, 8);
    lemma_u8_spec(0, bytes);
    vstd::arithmetic::power2::lemma2_to64();
    if bytes.len() > 0 {
        lemma_bit_at_div(bytes.last() as nat, 0);
        lemma_bit_at_div(bytes.last() as nat, 1);
        lemma_bit_at_div(bytes.last() as nat, 2);
        lemma_bit_at_div(bytes.last() as nat, 3);
        lemma_bit_at_div(bytes.last() as nat, 4);
        lemma_bit_at_div(bytes.last() as nat, 5);
        lemma_bit_at_div(bytes.last() as nat, 6);
    }
    lemma_u8_spec(pack_bits(v.bits()) as u8, Seq::empty());
}

/// Boolean `i` is bit `i` of the one byte written: the byte is the sum of
/// `2^i` over the booleans that hold, and reading a byte back takes each
/// boolean from its own bit.
#[verifier::spinoff_prover]
#[verifier::rlimit(60)]
pub proof fn lemma_booltuple8_layout(v: BoolTuple8, bytes: Seq<u8>)
    ensures
        BoolTuple8::spec_encode(v) == Some(seq![((if v.0 { 1int } else { 0 }) + (if v.1 { 2int } else { 0 }) + (if v.2 { 4int } else { 0 }) + (if v.3 { 8int } else { 0 }) + (if v.4 { 16int } else { 0 }) + (if v.5 { 32int } else { 0 }) + (if v.6 { 64int } else { 0 }) + (if v.7 { 128int } else { 0 })) as u8]),
        bytes.len() > 0 ==> (BoolTuple8::spec_decode(bytes) matches Some((w, k)) && k == 1 && w.0 == ((bytes.last() / 1) % 2 == 1)),
        bytes.len() > 0 ==> (BoolTuple8::spec_decode(bytes) matches Some((w, k)) && k == 1 && w.1 == ((bytes.last() / 2) % 2 == 1)),
        bytes.len() > 0 ==> (BoolTuple8::spec_decode(bytes) matches Some((w, k)) && k == 1 && w.2 == ((bytes.last() / 4) % 2 == 1)),
        bytes.len() > 0 ==> (BoolTuple8::spec_decode(bytes) matches Some((w, k)) && k == 1 && w.3 == ((bytes.last() / 8) % 2 == 1)),
        bytes.len() > 0 ==> (BoolTuple8::spec_decode(bytes) matches Some((w, k)) && k == 1 && w.4 == ((bytes.last() / 16) % 2 == 1)),
        bytes.len() > 0 ==> (BoolTuple8::spec_decode(bytes) matches Some((w, k)) && k == 1 && w.5 == ((bytes.last() / 32) % 2 == 1)),
        bytes.len() > 0 ==> (BoolTuple8::spec_decode(bytes) matches Some((w, k)) && k == 1 && w.6 == ((bytes.last() / 64) % 2 == 1)),
        bytes.len() > 0 ==> (BoolTuple8::spec_decode(bytes) matches Some((w, k)) && k == 1 && w.7 == ((bytes.last() / 128) % 2 == 1)),
{
    reveal_with_fuel(pack_bits, 9);
    lemma_u8_spec(0, bytes);
    vstd::arithmetic::power2::lemma2_to64();
    if bytes.len() > 0 {
        lemma_bit_at_div(bytes.last() as nat, 0);
        lemma_bit_at_div(bytes.last() as nat, 1);
        lemma_bit_at_div(bytes.last() as nat, 2);
        lemma_bit_at_div(bytes.last() as nat, 3);
        lemma_bit_at_div(bytes.last() as nat, 4);
        lemma_bit_at_div(bytes.last() as nat, 5);
        lemma_bit_at_div(bytes.last() as nat, 6);
        lemma_bit_at_div(bytes.last() as nat, 7);
    }
    lemma_u8_spec(pack_bits(v.bits()) as u8, Seq::empty());
}

} // verus!
