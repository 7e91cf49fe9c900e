use vstd::prelude::*;

verus! {

/// `256` to the power `n`.
pub open spec fn pow256(n: nat) -> nat
    decreases n,
{
    if n == 0 {
        1
    } else {
        256 * pow256((n - 1) as nat)
    }
}

/// The `n` little-endian bytes of `x` (its `n` lowest base-256 digits).
pub open spec fn le_bytes(x: nat, n: nat) -> Seq<u8>
    decreases n,
{
    if n == 0 {
        Seq::empty()
    } else {
        seq![(x % 256) as u8] + le_bytes(x / 256, (n - 1) as nat)
    }
}

/// The number that the little-endian bytes `s` stand for.
pub open spec fn le_value(s: Seq<u8>) -> nat
    decreases s.len(),
{
    if s.len() == 0 {
        0
    } else {
        s[0] as nat + 256 * le_value(s.drop_first())
    }
}

pub proof fn lemma_pow256_pos(n: nat)
    ensures
        pow256(n) >= 1,
    decreases n,
{
    if n > 0 {
        lemma_pow256_pos((n - 1) as nat);
    }
}

pub proof fn lemma_pow256_mono(a: nat, b: nat)
    requires
        a <= b,
    ensures
        pow256(a) <= pow256(b),
    decreases b,
{
    if a < b {
        lemma_pow256_mono(a, (b - 1) as nat);
        lemma_pow256_pos((b - 1) as nat);
    }
}

/// The values of `pow256` up to eight bytes.
pub proof fn lemma_pow256_values()
    ensures
        pow256(0) == 1,
        pow256(1) == 0x100,
        pow256(2) == 0x1_0000,
        pow256(3) == 0x100_0000,
        pow256(4) == 0x1_0000_0000,
        pow256(5) == 0x100_0000_0000,
        pow256(6) == 0x1_0000_0000_0000,
        pow256(7) == 0x100_0000_0000_0000,
        pow256(8) == 0x1_0000_0000_0000_0000,
{
    reveal_with_fuel(pow256, 9);
}

pub proof fn lemma_le_bytes_len(x: nat, n: nat)
    ensures
        le_bytes(x, n).len() == n,
    decreases n,
{
    if n > 0 {
        lemma_le_bytes_len(x / 256, (n - 1) as nat);
    }
}

pub proof fn lemma_le_value_bound(s: Seq<u8>)
    ensures
        le_value(s) < pow256(s.len()),
    decreases s.len(),
{
    if s.len() > 0 {
        lemma_le_value_bound(s.drop_first());
    }
}

/// Byte `i` of the little-endian bytes of `x` is its `i`-th base-256 digit,
/// the lowest first.
pub proof fn lemma_le_bytes_digits(x: nat, n: nat)
    ensures
        le_bytes(x, n).len() == n,
        forall|i: int| 0 <= i < n ==> #[trigger] le_bytes(x, n)[i] == ((x / pow256(i as nat)) % 256) as u8,
    decreases n,
{
    lemma_le_bytes_len(x, n);
    if n > 0 {
        lemma_le_bytes_digits(x / 256, (n - 1) as nat);
        assert forall|i: int| 0 <= i < n implies #[trigger] le_bytes(x, n)[i] == ((x / pow256(i as nat)) % 256) as u8 by {
            if i > 0 {
                lemma_pow256_pos((i - 1) as nat);
                vstd::arithmetic::div_mod::lemma_div_denominator(x as int, 256, pow256((i - 1) as nat) as int);
                assert(pow256(i as nat) == 256 * pow256((i - 1) as nat));
                assert(x as int / 256 / (pow256((i - 1) as nat) as int) == x as int / (pow256(i as nat) as int));
                assert(le_bytes(x, n) == seq![(x % 256) as u8] + le_bytes(x / 256, (n - 1) as nat));
                assert(le_bytes(x, n)[i] == le_bytes(x / 256, (n - 1) as nat)[i - 1]);
                assert(le_bytes(x / 256, (n - 1) as nat)[i - 1] == (((x / 256) / pow256((i - 1) as nat)) % 256) as u8);
                assert((x / 256) / pow256((i - 1) as nat) == x / pow256(i as nat));
            } else {
                assert(pow256(0) == 1);
                assert(x / 1 == x);
                assert(le_bytes(x, n)[0] == (x % 256) as u8);
            }
        }
    }
}

/// Reading back the `n` little-endian bytes of `x < 256^n` gives `x`.
pub proof fn lemma_le_roundtrip(x: nat, n: nat)
    requires
        x < pow256(n),
    ensures
        le_bytes(x, n).len() == n,
        le_value(le_bytes(x, n)) == x,
    decreases n,
{
    lemma_le_bytes_len(x, n);
    if n > 0 {
        let rest = le_bytes(x / 256, (n - 1) as nat);
        lemma_le_roundtrip(x / 256, (n - 1) as nat);
        assert(le_bytes(x, n).drop_first() =~= rest);
    }
}

/// Writing out the number that bytes stand for gives the bytes back.
pub proof fn lemma_le_bytes_of_value(s: Seq<u8>)
    ensures
        le_bytes(le_value(s), s.len()) == s,
    decreases s.len(),
{
    if s.len() > 0 {
        lemma_le_bytes_of_value(s.drop_first());
        assert(le_bytes(le_value(s), s.len()) =~= s);
    }
}

proof fn lemma_le_value_skip(s: Seq<u8>, i: int)
    requires
        0 <= i < s.len(),
    ensures
        le_value(s.skip(i)) == s[i] as nat + 256 * le_value(s.skip(i + 1)),
{
    assert(s.skip(i).drop_first() =~= s.skip(i + 1));
}

/// The `n` little-endian bytes of `x`.
pub fn le_encode(x: u64, n: usize) -> (r: Vec<u8>)
    requires
        n <= 8,
        x < pow256(n as nat),
    ensures
        r@ == le_bytes(x as nat, n as nat),
{
    let mut out: Vec<u8> = Vec::new();
    let mut cur = x;
    let mut i: usize = 0;
    assert(out@ + le_bytes(cur as nat, (n - i) as nat) =~= le_bytes(x as nat, n as nat));
    while i < n
        invariant
            0 <= i <= n,
            out@ + le_bytes(cur as nat, (n - i) as nat) == le_bytes(x as nat, n as nat),
        decreases n - i,
    {
        let ghost before = out@;
        let ghost c = cur as nat;
        out.push((cur % 256) as u8);
        cur = cur / 256;
        i = i + 1;
        assert(le_bytes(c, (n - i + 1) as nat) == seq![(c % 256) as u8] + le_bytes(c / 256, (n - i) as nat));
        assert(out@ + le_bytes(cur as nat, (n - i) as nat) =~= before + le_bytes(c, (n - i + 1) as nat));
    }
    assert(out@ + Seq::<u8>::empty() =~= out@);
    out
}

/// The number that the little-endian bytes `s` stand for.
pub fn le_decode(s: &[u8]) -> (r: u64)
    requires
        s@.len() <= 8,
    ensures
        r == le_value(s@),
{
    let mut i = s.len();
    let mut acc: u64 = 0;
    assert(s@.skip(i as int) =~= Seq::<u8>::empty());
    proof { lemma_pow256_values(); }
    while i > 0
        invariant
            0 <= i <= s@.len() <= 8,
            acc == le_value(s@.skip(i as int)),
            pow256(8) == 0x1_0000_0000_0000_0000,
        decreases i,
    {
        proof {
            lemma_le_value_bound(s@.skip(i as int));
            lemma_pow256_mono((s@.len() - i) as nat, 7);
            lemma_le_value_skip(s@, i - 1);
            lemma_pow256_values();
        }
        acc = acc * 256 + s[i - 1] as u64;
        i = i - 1;
    }
    assert(s@.skip(0) =~= s@);
    acc
}

} // verus!
