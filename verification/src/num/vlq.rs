use vstd::arithmetic::div_mod::{lemma_basic_div, lemma_div_denominator, lemma_fundamental_div_mod};
use vstd::prelude::*;

use crate::cursor::SquashCursor;
use crate::error::{Error, IoError, Result};
use crate::object::SquashObject;

verus! {

/// A variable-length quantity: an unsigned number below `2^56` written in
/// groups of seven bits, lowest first; every byte but the first carries the
/// flag `0x80`, so that reading back from the end stops at the first byte.
#[derive(Clone, Copy, Debug, PartialEq, Eq, Structural, PartialOrd, Ord, Hash, Default)]
pub struct Vlq(pub u64);

impl DeepView for Vlq {
    type V = u64;

    open spec fn deep_view(&self) -> u64 {
        self.0
    }
}

/// `128` to the power `n`.
pub open spec fn pow128(n: nat) -> nat
    decreases n,
{
    if n == 0 {
        1
    } else {
        128 * pow128((n - 1) as nat)
    }
}

/// The values of `pow128` up to eight groups.
pub proof fn lemma_pow128_values()
    ensures
        pow128(0) == 1,
        pow128(1) == 0x80,
        pow128(2) == 0x4000,
        pow128(3) == 0x20_0000,
        pow128(4) == 0x1000_0000,
        pow128(5) == 0x8_0000_0000,
        pow128(6) == 0x400_0000_0000,
        pow128(7) == 0x2_0000_0000_0000,
        pow128(8) == 0x100_0000_0000_0000,
{
    reveal_with_fuel(pow128, 9);
}

/// The number of bytes a VLQ of `v` takes: the fewest seven-bit groups that hold it.
pub open spec fn vlq_len(v: u64) -> nat {
    if v < 0x80 {
        1
    } else if v < 0x4000 {
        2
    } else if v < 0x20_0000 {
        3
    } else if v < 0x1000_0000 {
        4
    } else if v < 0x8_0000_0000 {
        5
    } else if v < 0x400_0000_0000 {
        6
    } else if v < 0x2_0000_0000_0000 {
        7
    } else {
        8
    }
}

/// The `i`-th byte of the VLQ of `v`: its `i`-th seven-bit group, flagged
/// with `0x80` unless it is the first.
pub open spec fn vlq_byte(v: u64, i: nat) -> u8 {
    ((v as nat / pow128(i)) % 128 + if i == 0 { 0nat } else { 128nat }) as u8
}

/// The bytes of the VLQ of `v`, or `None` where `v` does not fit in 56 bits.
pub open spec fn vlq_encode(v: u64) -> Option<Seq<u8>> {
    if v >= 0x100_0000_0000_0000 {
        None
    } else {
        Some(Seq::new(vlq_len(v), |i: int| vlq_byte(v, i as nat)))
    }
}

/// Reading a VLQ back from the end of `bytes`, `k` bytes in with `acc`
/// gathered so far: each byte adds its low seven bits; a byte below `0x80`
/// ends the number. `None` where the bytes run out or eight flagged bytes
/// come in a row.
pub open spec fn vlq_scan(bytes: Seq<u8>, k: nat, acc: nat) -> Option<(nat, nat)>
    decreases 8 - k,
{
    if k >= 8 || bytes.len() <= k {
        None
    } else {
        let b = bytes[bytes.len() - 1 - k];
        let next = acc * 128 + (b as nat) % 128;
        if b < 128 {
            Some((next, k + 1))
        } else {
            vlq_scan(bytes, k + 1, next)
        }
    }
}

/// Why reading a VLQ back from the end of `bytes` fails, `k` bytes in with
/// `acc` gathered: `Some(x)` where eight flagged bytes come in a row, `x`
/// being what they gather; `None` where the bytes run out first (or the read
/// does not fail).
pub open spec fn vlq_scan_error(bytes: Seq<u8>, k: nat, acc: nat) -> Option<nat>
    decreases 8 - k,
{
    if k >= 8 {
        Some(acc)
    } else if bytes.len() <= k {
        None
    } else {
        let b = bytes[bytes.len() - 1 - k];
        if b < 128 {
            None
        } else {
            vlq_scan_error(bytes, k + 1, acc * 128 + (b as nat) % 128)
        }
    }
}

pub open spec fn vlq_decode(bytes: Seq<u8>) -> Option<(u64, nat)> {
    match vlq_scan(bytes, 0, 0) {
        Some((x, n)) => Some((x as u64, n)),
        None => None,
    }
}

proof fn lemma_vlq_scan_len(bytes: Seq<u8>, k: nat, acc: nat)
    ensures
        vlq_scan(bytes, k, acc) matches Some((x, n)) ==> k < n <= bytes.len() && n <= 8,
    decreases 8 - k,
{
    if k < 8 && bytes.len() > k {
        lemma_vlq_scan_len(bytes, k + 1, acc * 128 + (bytes[bytes.len() - 1 - k] as nat) % 128);
    }
}

/// A scan that starts `k` bytes in with `acc < 128^k` ends below `2^56`.
proof fn lemma_vlq_scan_bound(bytes: Seq<u8>, k: nat, acc: nat)
    requires
        acc < pow128(k),
    ensures
        vlq_scan(bytes, k, acc) matches Some((x, n)) ==> x < pow128(n) && x < 0x100_0000_0000_0000,
    decreases 8 - k,
{
    if k < 8 && bytes.len() > k {
        let b = bytes[bytes.len() - 1 - k];
        let next = acc * 128 + (b as nat) % 128;
        assert(next < pow128(k + 1));
        lemma_vlq_scan_bound(bytes, k + 1, next);
        lemma_vlq_scan_len(bytes, k + 1, next);
        if let Some((x, n)) = vlq_scan(bytes, k, acc) {
            lemma_pow128_mono(n, 8);
            lemma_pow128_values();
        }
    }
}

proof fn lemma_pow128_mono(a: nat, b: nat)
    requires
        a <= b,
    ensures
        pow128(a) <= pow128(b),
    decreases b,
{
    if a < b {
        lemma_pow128_mono(a, (b - 1) as nat);
        lemma_pow128_pos((b - 1) as nat);
    }
}

proof fn lemma_pow128_pos(n: nat)
    ensures
        pow128(n) >= 1,
    decreases n,
{
    if n > 0 {
        lemma_pow128_pos((n - 1) as nat);
    }
}

/// Taking the next lower group: `(v / 128^(j+1)) * 128 + (v / 128^j) % 128 == v / 128^j`.
proof fn lemma_group_step(v: nat, j: nat)
    ensures
        (v / pow128(j + 1)) * 128 + (v / pow128(j)) % 128 == v / pow128(j),
{
    lemma_pow128_pos(j);
    let a = pow128(j);
    lemma_div_denominator(v as int, a as int, 128);
    assert(pow128(j + 1) == a * 128);
    lemma_fundamental_div_mod((v / a) as int, 128);
}

/// Reading back the VLQ of `v`, from `k` bytes in, where the groups above
/// those already read have been gathered into `acc`.
proof fn lemma_vlq_scan_encoded(v: u64, prefix: Seq<u8>, k: nat)
    requires
        v < 0x100_0000_0000_0000,
        k < vlq_len(v),
    ensures
        ({
            let e = vlq_encode(v)->0;
            let c = vlq_len(v);
            vlq_scan(prefix + e, k, v as nat / pow128((c - k) as nat)) == Some((v as nat, c))
        }),
    decreases vlq_len(v) - k,
{
    let e = vlq_encode(v)->0;
    let c = vlq_len(v);
    let bytes = prefix + e;
    lemma_pow128_values();
    assert(c <= 8);
    let j = (c - 1 - k) as nat;
    assert(bytes[bytes.len() - 1 - k] == e[j as int]);
    assert(e[j as int] == vlq_byte(v, j));
    lemma_group_step(v as nat, j);
    assert((c - k) as nat == j + 1);
    if k + 1 < c {
        lemma_vlq_scan_encoded(v, prefix, k + 1);
        assert(((c - (k + 1)) as nat) == j);
    } else {
        assert(j == 0);
        assert(v as nat / pow128(0) == v);
    }
}

/// The bytes a VLQ is pushed as pop back as that VLQ.
proof fn lemma_vlq_roundtrip(v: u64, prefix: Seq<u8>)
    requires
        v < 0x100_0000_0000_0000,
    ensures
        vlq_encode(v)->0.len() == vlq_len(v),
        vlq_decode(prefix + vlq_encode(v)->0) == Some((v, vlq_len(v))),
{
    lemma_pow128_values();
    let c = vlq_len(v);
    assert(v < pow128(c));
    lemma_basic_div(v as int, pow128(c) as int);
    lemma_vlq_scan_encoded(v, prefix, 0);
}

/// A VLQ takes the fewest seven-bit groups that hold the value (one more
/// would be a zero group), and byte `i` holds the `i`-th base-128 digit,
/// flagged with `0x80` on every byte but the first. Values of `2^56` and more
/// have none.
pub proof fn lemma_vlq_fewest(v: u64)
    ensures
        v >= 0x100_0000_0000_0000 <==> vlq_encode(v) is None,
        v < 0x100_0000_0000_0000 ==> (vlq_encode(v) matches Some(e) && 1 <= e.len() <= 8 && v < pow128(e.len())
            && (e.len() > 1 ==> v >= pow128((e.len() - 1) as nat))),
        v < 0x100_0000_0000_0000 ==> forall|i: int| 0 <= i < vlq_encode(v)->0.len() ==> #[trigger] vlq_encode(v)->0[i] as nat
            == (v as nat / pow128(i as nat)) % 128 + (if i == 0 { 0nat } else { 128nat }),
{
    lemma_pow128_values();
    if v < 0x100_0000_0000_0000 {
        let e = vlq_encode(v)->0;
        assert forall|i: int| 0 <= i < e.len() implies #[trigger] e[i] as nat
            == (v as nat / pow128(i as nat)) % 128 + (if i == 0 { 0nat } else { 128nat }) by {
            lemma_pow128_pos(i as nat);
            let d = (v as nat / pow128(i as nat)) % 128;
            assert(d < 128);
        }
    }
}

impl SquashObject for Vlq {
    open spec fn spec_encode(v: u64) -> Option<Seq<u8>> {
        vlq_encode(v)
    }

    open spec fn spec_decode(bytes: Seq<u8>) -> Option<(u64, nat)> {
        vlq_decode(bytes)
    }

    open spec fn spec_roundtrips(v: u64) -> bool {
        true
    }

    proof fn lemma_decode_len(bytes: Seq<u8>) {
        lemma_vlq_scan_len(bytes, 0, 0);
    }

    proof fn lemma_roundtrip(v: u64, prefix: Seq<u8>) {
        lemma_vlq_roundtrip(v, prefix);
    }

    /// A value of `2^56` or more is refused with `InvalidVlq` of the value,
    /// and the cursor stays as it was.
    fn push_obj(self, cursor: &mut SquashCursor) -> (r: Result<usize>)
        ensures
            self.0 >= 0x100_0000_0000_0000 ==> (r matches Err(Error::InvalidVlq(x)) && x == self.0
                && final(cursor)@ == old(cursor)@),
    {
        let value = self.0;
        proof {
            assert(1u64 << 56 == 0x100_0000_0000_0000) by (bit_vector);
        }
        if value >= 1 << 56 {
            return Err(Error::InvalidVlq(value));
        }
        let count: usize = if value >= 1 << 49 {
            8
        } else if value >= 1 << 42 {
            7
        } else if value >= 1 << 35 {
            6
        } else if value >= 1 << 28 {
            5
        } else if value >= 1 << 21 {
            4
        } else if value >= 1 << 14 {
            3
        } else if value >= 1 << 7 {
            2
        } else {
            1
        };
        proof {
            lemma_pow128_values();
            assert(1u64 << 49 == 0x2_0000_0000_0000) by (bit_vector);
            assert(1u64 << 42 == 0x400_0000_0000) by (bit_vector);
            assert(1u64 << 35 == 0x8_0000_0000) by (bit_vector);
            assert(1u64 << 28 == 0x1000_0000) by (bit_vector);
            assert(1u64 << 21 == 0x20_0000) by (bit_vector);
            assert(1u64 << 14 == 0x4000) by (bit_vector);
            assert(1u64 << 7 == 0x80) by (bit_vector);
        }
        let ghost e = vlq_encode(value)->0;
        let mut bytes: Vec<u8> = Vec::new();
        let mut rest = value;
        let mut i: usize = 0;
        while i < count
            invariant
                count == vlq_len(value),
                e == vlq_encode(value)->0,
                value < 0x100_0000_0000_0000,
                0 <= i <= count,
                rest as nat == value as nat / pow128(i as nat),
                bytes@ == e.take(i as int),
            decreases count - i,
        {
            proof {
                lemma_pow128_pos(i as nat);
                lemma_div_denominator(value as int, pow128(i as nat) as int, 128);
                assert(pow128(i as nat + 1) == pow128(i as nat) * 128);
            }
            let group = (rest % 128) as u8;
            let byte = if i == 0 { group } else { group + 128 };
            bytes.push(byte);
            rest = rest / 128;
            i = i + 1;
            assert(bytes@ =~= e.take(i as int));
        }
        assert(bytes@ =~= e);
        cursor.write(bytes.as_slice())
    }

    /// A VLQ read back is below `2^56`. Eight flagged bytes in a row are
    /// refused with `InvalidVlq` of what they gather; bytes that run out
    /// first with `SeekBeforeStart`.
    fn pop_obj(cursor: &mut SquashCursor) -> (r: Result<Vlq>)
        ensures
            r matches Ok(v) ==> v.0 < 0x100_0000_0000_0000,
            vlq_decode(old(cursor)@.readable()) is None ==> match vlq_scan_error(old(cursor)@.readable(), 0, 0) {
                Some(x) => r matches Err(Error::InvalidVlq(y)) && y == x,
                None => r matches Err(Error::Io(IoError::SeekBeforeStart)),
            },
    {
        let _ = cursor.position();
        let ghost start = cursor@;
        let ghost rd = start.readable();
        let mut x: u64 = 0;
        let mut k: usize = 0;
        proof { lemma_pow128_values(); }
        loop
            invariant
                0 <= k < 8,
                x < pow128(k as nat),
                vlq_scan(rd, k as nat, x as nat) == vlq_scan(rd, 0, 0),
                vlq_scan_error(rd, k as nat, x as nat) == vlq_scan_error(rd, 0, 0),
                cursor@ == start.popped(k as nat),
                k <= start.pos,
                rd == start.readable(),
                start == old(cursor)@,
                start.wf(),
                pow128(8) == 0x100_0000_0000_0000,
            decreases 8 - k,
        {
            let ghost before = cursor@;
            let b = match u8::pop_obj(cursor) {
                Ok(b) => b,
                Err(e) => {
                    proof {
                        assert(before.readable() =~= rd.take(rd.len() - k));
                        assert(rd.len() <= k);
                        assert(vlq_scan(rd, k as nat, x as nat) is None);
                        assert(vlq_decode(rd) is None);
                        assert(vlq_scan_error(rd, k as nat, x as nat) is None);
                        assert(before.pos == 0);
                    }
                    return Err(e);
                },
            };
            proof {
                assert(before.readable() =~= rd.take(rd.len() - k));
                let one = before.readable().skip(before.readable().len() - 1);
                assert(one =~= seq![rd[rd.len() - 1 - k]]);
                reveal_with_fuel(crate::num::le::le_value, 2);
                assert(one.drop_first() =~= Seq::<u8>::empty());
                assert(b == rd[rd.len() - 1 - k]);
                lemma_pow128_mono(k as nat + 1, 8);
                assert(x * 128 + (b as nat) % 128 < pow128(k as nat + 1));
            }
            let ghost old_x = x;
            x = x * 128 + (b % 128) as u64;
            if b < 128 {
                assert(vlq_scan(rd, k as nat, old_x as nat) == Some((x as nat, k as nat + 1)));
                assert(cursor@ == start.popped(k as nat + 1));
                return Ok(Vlq(x));
            }
            if k == 7 {
                assert(vlq_scan(rd, 8, x as nat) is None);
                assert(vlq_scan_error(rd, 8, x as nat) == Some(x as nat));
                assert(vlq_scan_error(rd, k as nat, old_x as nat) == Some(x as nat));
                assert(vlq_scan(rd, k as nat, old_x as nat) is None);
                return Err(Error::InvalidVlq(x));
            }
            k = k + 1;
        }
    }
}

} // verus!
