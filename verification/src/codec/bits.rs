use vstd::prelude::*;

use crate::codec::{vlq_to_usize, SerDes};
use crate::cursor::{lemma_popped, lemma_pushed_pushed, SquashCursor};
use crate::error::{err_bits, Error, Result};
use crate::num::vlq::Vlq;
use crate::object::{lemma_u8_spec, SquashObject};

verus! {

/// The number that up to eight bits make, the first bit lowest.
pub open spec fn pack_bits(b: Seq<bool>) -> nat
    decreases b.len(),
{
    if b.len() == 0 {
        0
    } else {
        (if b[0] { 1nat } else { 0nat }) + 2 * pack_bits(b.drop_first())
    }
}

/// Bit `j` of `x`, counting from the lowest.
pub open spec fn bit_at(x: nat, j: nat) -> bool
    decreases j,
{
    if j == 0 {
        x % 2 == 1
    } else {
        bit_at(x / 2, (j - 1) as nat)
    }
}

/// Bit `j` of `x` is the parity of `x / 2^j`.
pub proof fn lemma_bit_at_div(x: nat, j: nat)
    ensures
        bit_at(x, j) == ((x / vstd::arithmetic::power2::pow2(j)) % 2 == 1),
    decreases j,
{
    vstd::arithmetic::power2::lemma_pow2_pos(j);
    if j == 0 {
        vstd::arithmetic::power2::lemma2_to64();
    } else {
        lemma_bit_at_div(x / 2, (j - 1) as nat);
        vstd::arithmetic::power2::lemma_pow2_unfold(j);
        vstd::arithmetic::power2::lemma_pow2_pos((j - 1) as nat);
        vstd::arithmetic::div_mod::lemma_div_denominator(x as int, 2, vstd::arithmetic::power2::pow2((j - 1) as nat) as int);
    }
}

/// The number of bytes `n` bits are packed into.
pub open spec fn bits_len(n: nat) -> nat {
    (n + 7) / 8
}

/// The bits of byte `g` of the packing of `bits`.
pub open spec fn bits_group(bits: Seq<bool>, g: int) -> Seq<bool> {
    bits.subrange(8 * g, if 8 * g + 8 < bits.len() { 8 * g + 8 } else { bits.len() as int })
}

/// The bytes `bits` are packed into: eight to a byte, the first bit of each
/// group lowest; the full bytes first, then a partial byte for what is over.
pub open spec fn bits_bytes(bits: Seq<bool>) -> Seq<u8> {
    Seq::new(bits_len(bits.len()), |g: int| pack_bits(bits_group(bits, g)) as u8)
}

/// Reading `n` bits back from the `ceil(n / 8)` bytes at the end of `bytes`.
pub open spec fn bits_decode(bytes: Seq<u8>, n: nat) -> Option<(Seq<bool>, nat)> {
    if n == 0 {
        Some((Seq::empty(), 0))
    } else if bits_len(n) > bytes.len() {
        None
    } else {
        let b = bytes.skip(bytes.len() - bits_len(n));
        Some((Seq::new(n, |i: int| bit_at(b[i / 8] as nat, (i % 8) as nat)), bits_len(n)))
    }
}

/// `s` cut to `n` bits, or padded with `false` to `n` bits.
pub open spec fn fit_bits(s: Seq<bool>, n: nat) -> Seq<bool> {
    Seq::new(n, |i: int| i < s.len() && s[i])
}

pub proof fn lemma_pack_bits(b: Seq<bool>, j: nat)
    ensures
        b.len() <= 8 ==> pack_bits(b) < 256,
        pack_bits(b) < vstd::arithmetic::power2::pow2(b.len()),
        j < b.len() ==> bit_at(pack_bits(b), j) == b[j as int],
    decreases b.len(),
{
    vstd::arithmetic::power2::lemma2_to64();
    if b.len() > 0 {
        lemma_pack_bits(b.drop_first(), (j - 1) as nat);
        vstd::arithmetic::power2::lemma_pow2_unfold(b.len());
        if b.len() <= 8 {
            vstd::arithmetic::power2::lemma_pow2_strictly_increases((b.len() - 1) as nat, 8);
        }
        if j > 0 && j < b.len() {
            assert(b.drop_first()[j - 1] == b[j as int]);
        }
    }
}

/// Packs `len` bits of `bits` from `start` into a byte.
pub(crate) fn pack_byte(bits: &[bool], start: usize, len: usize) -> (r: u8)
    requires
        len <= 8,
        start + len <= bits.len(),
    ensures
        r == pack_bits(bits@.subrange(start as int, start + len)),
{
    let ghost s = bits@.subrange(start as int, start + len);
    proof {
        lemma_pack_bits(s, 0);
        assert(s.skip(len as int) =~= Seq::<bool>::empty());
    }
    let mut acc: u8 = 0;
    let mut j = len;
    while j > 0
        invariant
            j <= len <= 8,
            start + len <= bits.len(),
            s == bits@.subrange(start as int, start + len),
            acc == pack_bits(s.skip(j as int)),
        decreases j,
    {
        j = j - 1;
        proof {
            assert(s.skip(j as int).drop_first() =~= s.skip(j + 1));
            lemma_pack_bits(s.skip(j as int), 0);
        }
        let bit: u8 = if bits[start + j] {
            1
        } else {
            0
        };
        acc = acc * 2 + bit;
    }
    assert(s.skip(0) =~= s);
    acc
}

/// Bit `j` of `byte`.
pub(crate) fn bit_of(byte: u8, j: usize) -> (r: bool)
    ensures
        r == bit_at(byte as nat, j as nat),
{
    let mut x = byte;
    let mut k: usize = 0;
    while k < j
        invariant
            k <= j,
            bit_at(x as nat, (j - k) as nat) == bit_at(byte as nat, j as nat),
        decreases j - k,
    {
        x = x / 2;
        k = k + 1;
    }
    x % 2 == 1
}

/// The packed bytes of a prefix of whole groups are a prefix of the packed bytes.
proof fn lemma_bits_bytes_group(bits: Seq<bool>, g: int)
    requires
        0 <= g < bits_len(bits.len()),
    ensures
        bits_bytes(bits)[g] == pack_bits(bits_group(bits, g)) as u8,
        bits_group(bits, g).len() <= 8,
{
}

/// Packs `bits` eight to a byte, lowest bit first, full bytes first then a
/// partial byte, and pushes the bytes; returns how many were pushed.
pub fn push_bits(cursor: &mut SquashCursor, bits: &[bool]) -> (r: Result<usize>)
    ensures
        if old(cursor)@.pos + bits_len(bits@.len()) <= usize::MAX {
            &&& r matches Ok(n) && n == bits_len(bits@.len())
            &&& final(cursor)@ == old(cursor)@.pushed(bits_bytes(bits@))
        } else {
            r is Err
        },
{
    let _ = cursor.position();
    let ghost start = cursor@;
    let ghost out = bits_bytes(bits@);
    let n = bits.len();
    if n == 0 {
        proof {
            assert(out =~= Seq::<u8>::empty());
            assert(start.pushed(out).bytes =~= start.bytes);
        }
        return Ok(0);
    }
    let bits_over = n % 8;
    let full = n - bits_over;
    let mut count: usize = 0;
    let mut i: usize = 0;
    assert(start.pushed(out.take(0)).bytes =~= start.bytes) by {
        assert(out.take(0) =~= Seq::<u8>::empty());
    }
    while i < full
        invariant
            n == bits@.len(),
            full == n - n % 8,
            full % 8 == 0,
            i % 8 == 0,
            i <= full,
            count == i / 8,
            start.wf(),
            start == old(cursor)@,
            out == bits_bytes(bits@),
            cursor@ == start.pushed(out.take(count as int)),
            start.pos + count <= usize::MAX,
        decreases full - i,
    {
        let byte = pack_byte(bits, i, 8);
        proof {
            lemma_bits_bytes_group(bits@, count as int);
            lemma_u8_spec(byte, Seq::empty());
            lemma_pushed_pushed(start, out.take(count as int), seq![byte]);
            assert(out.take(count as int) + seq![byte] =~= out.take(count + 1));
        }
        match cursor.push(byte) {
            Ok(_) => {},
            Err(e) => {
                return Err(e);
            },
        }
        count = count + 1;
        i = i + 8;
    }
    if bits_over > 0 {
        let byte = pack_byte(bits, full, bits_over);
        proof {
            lemma_bits_bytes_group(bits@, count as int);
            lemma_u8_spec(byte, Seq::empty());
            lemma_pushed_pushed(start, out.take(count as int), seq![byte]);
            assert(out.take(count as int) + seq![byte] =~= out.take(count + 1));
        }
        match cursor.push(byte) {
            Ok(_) => {},
            Err(e) => {
                return Err(e);
            },
        }
        count = count + 1;
    }
    assert(out.take(count as int) =~= out);
    Ok(count)
}

/// Pops `n` bits packed by `push_bits`: the partial byte first, then the
/// full bytes back to front. Fails where fewer than `ceil(n / 8)` bytes remain.
pub fn pop_bits(cursor: &mut SquashCursor, n: usize) -> (r: Result<Vec<bool>>)
    ensures
        match bits_decode(old(cursor)@.readable(), n as nat) {
            Some((bs, k)) => {
                &&& r matches Ok(v) && v@ == bs
                &&& final(cursor)@ == old(cursor)@.popped(k)
            },
            None => {
                &&& r matches Err(e) && e is Custom
                &&& final(cursor)@ == old(cursor)@
            },
        },
{
    let _ = cursor.position();
    let ghost start = cursor@;
    let ghost rd = start.readable();
    if n == 0 {
        return Ok(Vec::new());
    }
    let need: u64 = n as u64 / 8 + if n % 8 > 0 {
        1
    } else {
        0
    };
    let remaining = match cursor.remaining() {
        Ok(x) => x,
        Err(e) => {
            return Err(e);
        },
    };
    if need > remaining {
        return Err(err_bits(n, need, remaining));
    }
    let ghost b = rd.skip(rd.len() - need);
    let ghost expected = Seq::new(n as nat, |i: int| bit_at(b[i / 8] as nat, (i % 8) as nat));
    let mut arr: Vec<bool> = Vec::new();
    let mut t: usize = 0;
    while t < n
        invariant
            t <= n,
            arr@.len() == t,
        decreases n - t,
    {
        arr.push(false);
        t = t + 1;
    }
    let bytes = n / 8;
    let bits_over = n % 8;
    let base = bytes * 8;
    let ghost mut popped: nat = 0;
    if bits_over > 0 {
        let ghost before = cursor@;
        let byte = match cursor.pop::<u8>() {
            Ok(x) => x,
            Err(e) => {
                return Err(e);
            },
        };
        proof {
            lemma_u8_spec(0, before.readable());
            assert(byte == b[bytes as int]);
            popped = 1;
        }
        let mut j: usize = 0;
        while j < bits_over
            invariant
                j <= bits_over < 8,
                base + bits_over == n,
                b.len() == need,
                need == bytes + 1,
                base == bytes * 8,
                arr@.len() == n,
                expected.len() == n,
                expected == Seq::new(n as nat, |i: int| bit_at(b[i / 8] as nat, (i % 8) as nat)),
                byte == b[bytes as int],
                forall|i: int| base <= i < base + j ==> arr@[i] == expected[i],
            decreases bits_over - j,
        {
            let bit = bit_of(byte, j);
            arr.set(base + j, bit);
            proof {
                assert((base + j) / 8 == bytes as int);
                assert((base + j) % 8 == j as int);
                assert(arr@[base + j] == expected[base + j]);
            }
            j = j + 1;
        }
    }
    let mut g = bytes;
    while g > 0
        invariant
            g <= bytes,
            base == bytes * 8,
            base <= n,
            bytes == n / 8,
            b.len() == need,
            arr@.len() == n,
            expected.len() == n,
            expected == Seq::new(n as nat, |i: int| bit_at(b[i / 8] as nat, (i % 8) as nat)),
            forall|i: int| g * 8 <= i < n ==> arr@[i] == expected[i],
            cursor@ == start.popped((need - g) as nat),
            start.wf(),
            start == old(cursor)@,
            rd == start.readable(),
            need <= rd.len(),
            b == rd.skip(rd.len() - need),
            need == bytes + (if n % 8 > 0 { 1int } else { 0int }),
        decreases g,
    {
        g = g - 1;
        let ghost before = cursor@;
        proof {
            lemma_popped(start, (need - g - 1) as nat);
            lemma_u8_spec(0, before.readable());
        }
        let byte = match cursor.pop::<u8>() {
            Ok(x) => x,
            Err(e) => {
                return Err(e);
            },
        };
        proof {
            assert(byte == b[g as int]);
            lemma_popped(start, (need - g - 1) as nat);
        }
        let mut j: usize = 0;
        while j < 8
            invariant
                j <= 8,
                g < bytes,
                base == bytes * 8,
                base <= n,
                b.len() == need,
                g < need,
                arr@.len() == n,
                expected.len() == n,
                expected == Seq::new(n as nat, |i: int| bit_at(b[i / 8] as nat, (i % 8) as nat)),
                byte == b[g as int],
                forall|i: int| g * 8 + 8 <= i < n ==> arr@[i] == expected[i],
                forall|i: int| g * 8 <= i < g * 8 + j ==> arr@[i] == expected[i],
            decreases 8 - j,
        {
            let bit = bit_of(byte, j);
            arr.set(g * 8 + j, bit);
            proof {
                assert((g * 8 + j) / 8 == g as int);
                assert((g * 8 + j) % 8 == j as int);
                assert(arr@[g * 8 + j] == expected[g * 8 + j]);
            }
            j = j + 1;
        }
    }
    assert(arr@ =~= expected);
    Ok(arr)
}

/// Bits packed by `push_bits` after any prefix read back as the bits.
pub proof fn lemma_bits_roundtrip(bits: Seq<bool>, prefix: Seq<u8>)
    ensures
        bits_bytes(bits).len() == bits_len(bits.len()),
        bits_decode(prefix + bits_bytes(bits), bits.len()) == Some((bits, bits_len(bits.len()))),
{
    let e = bits_bytes(bits);
    let n = bits.len();
    if n > 0 {
        let bytes = prefix + e;
        let b = bytes.skip(bytes.len() - bits_len(n));
        assert(b =~= e);
        let expected = Seq::new(n, |i: int| bit_at(b[i / 8] as nat, (i % 8) as nat));
        assert forall|i: int| 0 <= i < n implies expected[i] == bits[i] by {
            let g = i / 8;
            let grp = bits_group(bits, g);
            lemma_pack_bits(grp, (i % 8) as nat);
            assert(grp[i % 8] == bits[i]);
        }
        assert(expected =~= bits);
    }
}

/// Variable-length packed boolean array: the packed bits, then their count as a VLQ.
#[derive(Clone, Copy, Debug, Default, PartialEq, Eq)]
pub struct BitArray;

impl SerDes for BitArray {
    type Value = Vec<bool>;

    open spec fn spec_valid(&self) -> bool {
        true
    }

    open spec fn spec_encode(&self, v: Vec<bool>) -> Option<Seq<u8>> {
        if v@.len() > u64::MAX {
            None
        } else {
            match Vlq::spec_encode(v@.len() as u64) {
                Some(h) => Some(bits_bytes(v@) + h),
                None => None,
            }
        }
    }

    open spec fn spec_decode(&self, bytes: Seq<u8>) -> Option<(Seq<bool>, nat)> {
        match Vlq::spec_decode(bytes) {
            Some((n, k)) => if n > usize::MAX {
                None
            } else {
                match bits_decode(bytes.take(bytes.len() - k), n as nat) {
                    Some((bs, m)) => Some((bs, k + m)),
                    None => None,
                }
            },
            None => None,
        }
    }

    open spec fn spec_readback(&self, v: Vec<bool>) -> Seq<bool> {
        v@
    }

    open spec fn spec_roundtrips(&self, v: Vec<bool>, prefix_len: nat) -> bool {
        true
    }

    proof fn lemma_decode_len(&self, bytes: Seq<u8>) {
        Vlq::lemma_decode_len(bytes);
    }

    proof fn lemma_roundtrip(&self, v: Vec<bool>, prefix: Seq<u8>) {
        let s = v@;
        let p = bits_bytes(s);
        let h = Vlq::spec_encode(s.len() as u64)->0;
        Vlq::lemma_roundtrip(s.len() as u64, prefix + p);
        let bytes = prefix + (p + h);
        assert(bytes == (prefix + p) + h);
        assert(bytes.take(bytes.len() - h.len()) =~= prefix + p);
        lemma_bits_roundtrip(s, prefix);
        assert(v.len() == s.len());
        assert(v.deep_view() =~= s);
    }

    fn ser(&self, cursor: &mut SquashCursor, value: &Vec<bool>) -> Result<usize> {
        let _ = cursor.position();
        let ghost start = cursor@;
        let mut count = match push_bits(cursor, value.as_slice()) {
            Ok(n) => n,
            Err(e) => {
                return Err(e);
            },
        };
        let r = cursor.push(Vlq(value.len() as u64));
        proof {
            lemma_pushed_pushed(start, bits_bytes(value@), Vlq::spec_encode(value@.len() as u64)->0);
            lemma_bits_roundtrip(value@, Seq::empty());
        }
        match r {
            Ok(n) => {
                count = count + n;
                Ok(count)
            },
            Err(e) => Err(e),
        }
    }

    /// Once a count is read, the read fails only with a `Custom` error: the
    /// count does not fit in `usize`, or fewer bytes remain than its bits take.
    fn des(&self, cursor: &mut SquashCursor) -> (r: Result<Vec<bool>>)
        ensures
            (Vlq::spec_decode(old(cursor)@.readable()) is Some && self.spec_decode(old(cursor)@.readable()) is None)
                ==> r matches Err(Error::Custom(_)),
    {
        let _ = cursor.position();
        let ghost start = cursor@;
        let n = match cursor.pop::<Vlq>() {
            Ok(v) => v.0,
            Err(e) => {
                return Err(e);
            },
        };
        proof {
            let k = Vlq::spec_decode(start.readable()).unwrap().1;
            Vlq::lemma_decode_len(start.readable());
            lemma_popped(start, k);
        }
        let n = match vlq_to_usize(n) {
            Ok(n) => n,
            Err(e) => {
                return Err(e);
            },
        };
        let r = pop_bits(cursor, n);
        proof {
            if r is Ok {
                let v = r->Ok_0;
                assert(v.deep_view() =~= v@);
            }
        }
        r
    }
}

/// Fixed-length packed boolean array: exactly `n` bits, no count; a longer
/// value is cut, a shorter one padded with `false`.
#[derive(Clone, Copy, Debug, Default, PartialEq, Eq)]
pub struct BitArrayN(pub usize);

impl SerDes for BitArrayN {
    type Value = Vec<bool>;

    open spec fn spec_valid(&self) -> bool {
        true
    }

    open spec fn spec_encode(&self, v: Vec<bool>) -> Option<Seq<u8>> {
        Some(bits_bytes(fit_bits(v@, self.0 as nat)))
    }

    open spec fn spec_decode(&self, bytes: Seq<u8>) -> Option<(Seq<bool>, nat)> {
        bits_decode(bytes, self.0 as nat)
    }

    open spec fn spec_readback(&self, v: Vec<bool>) -> Seq<bool> {
        fit_bits(v@, self.0 as nat)
    }

    open spec fn spec_roundtrips(&self, v: Vec<bool>, prefix_len: nat) -> bool {
        true
    }

    proof fn lemma_decode_len(&self, bytes: Seq<u8>) {
    }

    proof fn lemma_roundtrip(&self, v: Vec<bool>, prefix: Seq<u8>) {
        lemma_bits_roundtrip(fit_bits(v@, self.0 as nat), prefix);
    }

    fn ser(&self, cursor: &mut SquashCursor, value: &Vec<bool>) -> Result<usize> {
        let n = self.0;
        let k = if value.len() < n {
            value.len()
        } else {
            n
        };
        let mut bits: Vec<bool> = Vec::new();
        let mut i: usize = 0;
        while i < n
            invariant
                0 <= i <= n,
                k <= n,
                k <= value@.len(),
                k == value@.len() || k == n,
                bits@ == fit_bits(value@, n as nat).take(i as int),
            decreases n - i,
        {
            let b = i < k && value[i];
            bits.push(b);
            i = i + 1;
            assert(bits@ =~= fit_bits(value@, n as nat).take(i as int));
        }
        assert(bits@ =~= fit_bits(value@, n as nat));
        proof {
            lemma_bits_roundtrip(bits@, Seq::empty());
        }
        push_bits(cursor, bits.as_slice())
    }

    fn des(&self, cursor: &mut SquashCursor) -> Result<Vec<bool>> {
        let r = pop_bits(cursor, self.0);
        proof {
            if r is Ok {
                let v = r->Ok_0;
                assert(v.deep_view() =~= v@);
            }
        }
        r
    }
}

} // verus!
