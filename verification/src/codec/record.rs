use vstd::prelude::*;

use crate::codec::bits::{bits_bytes, bits_decode, bits_len, lemma_bits_roundtrip, pop_bits, push_bits};
use crate::cursor::{lemma_popped, lemma_pushed_pushed, SquashCursor};
use crate::error::Result;

verus! {

/// The values of the optional booleans of `o` that are present, in order.
pub open spec fn present_values(o: Seq<Option<bool>>) -> Seq<bool>
    decreases o.len(),
{
    if o.len() == 0 {
        Seq::empty()
    } else {
        match o.last() {
            Some(b) => present_values(o.drop_last()).push(b),
            None => present_values(o.drop_last()),
        }
    }
}

/// Which optional booleans of `o` are present.
pub open spec fn presence(o: Seq<Option<bool>>) -> Seq<bool> {
    Seq::new(o.len(), |i: int| o[i] is Some)
}

/// The number of `true`s in `f`.
pub open spec fn count_true(f: Seq<bool>) -> nat
    decreases f.len(),
{
    if f.len() == 0 {
        0
    } else {
        count_true(f.drop_last()) + if f.last() {
            1nat
        } else {
            0nat
        }
    }
}

/// The optional booleans that `flags` and `vals` stand for: each flagged one
/// takes the next of `vals`, in order; each other one is absent.
pub open spec fn rebuild(flags: Seq<bool>, vals: Seq<bool>) -> Seq<Option<bool>>
    decreases flags.len(),
{
    if flags.len() == 0 {
        Seq::empty()
    } else if flags.last() {
        rebuild(flags.drop_last(), vals.drop_last()).push(Some(vals.last()))
    } else {
        rebuild(flags.drop_last(), vals).push(None)
    }
}

/// The bits a record's booleans are packed into: the plain booleans, then the
/// values of the optional booleans that are present.
pub open spec fn record_bits(bools: Seq<bool>, optbools: Seq<Option<bool>>) -> Seq<bool> {
    bools + present_values(optbools)
}

/// The presence flags of a record: those of its optional booleans, then those
/// of its other optional fields.
pub open spec fn record_flags(optbools: Seq<Option<bool>>, opts_present: Seq<bool>) -> Seq<bool> {
    presence(optbools) + opts_present
}

/// The bytes a record's booleans and presence flags are pushed as: the packed
/// bits, then the packed flags.
pub open spec fn record_encode(bools: Seq<bool>, optbools: Seq<Option<bool>>, opts_present: Seq<bool>) -> Seq<u8> {
    bits_bytes(record_bits(bools, optbools)) + bits_bytes(record_flags(optbools, opts_present))
}

/// Reading back `nb` plain booleans, `no` optional booleans and `np` other
/// presence flags: the flags come off first; the number of bits then read is
/// `nb` and one for each optional boolean flagged present.
pub open spec fn record_decode(bytes: Seq<u8>, nb: nat, no: nat, np: nat) -> Option<
    ((Seq<bool>, Seq<Option<bool>>, Seq<bool>), nat),
> {
    match bits_decode(bytes, no + np) {
        Some((f, k1)) => {
            let actual = nb + count_true(f.take(no as int));
            match bits_decode(bytes.take(bytes.len() - k1), actual) {
                Some((b, k2)) => Some(
                    ((b.take(nb as int), rebuild(f.take(no as int), b.skip(nb as int)), f.skip(no as int)), k1 + k2),
                ),
                None => None,
            }
        },
        None => None,
    }
}

/// The presence flags and present values of `o` rebuild `o`.
pub proof fn lemma_rebuild(o: Seq<Option<bool>>)
    ensures
        count_true(presence(o)) == present_values(o).len(),
        rebuild(presence(o), present_values(o)) == o,
    decreases o.len(),
{
    if o.len() > 0 {
        let p = o.drop_last();
        lemma_rebuild(p);
        assert(presence(o).drop_last() =~= presence(p));
        match o.last() {
            Some(b) => {
                assert(present_values(o).drop_last() =~= present_values(p));
            },
            None => {},
        }
        assert(rebuild(presence(o), present_values(o)) =~= o);
    } else {
        assert(rebuild(presence(o), present_values(o)) =~= o);
    }
}

/// A record's booleans and flags pushed after any bytes read back as they were.
pub proof fn lemma_record_roundtrip(
    bools: Seq<bool>,
    optbools: Seq<Option<bool>>,
    opts_present: Seq<bool>,
    prefix: Seq<u8>,
)
    ensures
        record_decode(
            prefix + record_encode(bools, optbools, opts_present),
            bools.len(),
            optbools.len(),
            opts_present.len(),
        ) == Some(((bools, optbools, opts_present), record_encode(bools, optbools, opts_present).len())),
{
    let bits = record_bits(bools, optbools);
    let flags = record_flags(optbools, opts_present);
    let p1 = prefix + bits_bytes(bits);
    let bytes = prefix + record_encode(bools, optbools, opts_present);
    assert(bytes =~= p1 + bits_bytes(flags));
    lemma_bits_roundtrip(flags, p1);
    lemma_bits_roundtrip(bits, prefix);
    let k1 = bits_len(flags.len());
    assert(bytes.take(bytes.len() - k1) =~= p1);
    let no = optbools.len();
    assert(flags.take(no as int) =~= presence(optbools));
    assert(flags.skip(no as int) =~= opts_present);
    lemma_rebuild(optbools);
    assert(bits.take(bools.len() as int) =~= bools);
    assert(bits.skip(bools.len() as int) =~= present_values(optbools));
}

/// Pushes a record's booleans: the plain booleans with the values of the
/// optional booleans that are present as one bit array, then the presence
/// flags of the optional booleans and of the record's other optional fields as
/// another.
pub fn push_record_bits(
    cursor: &mut SquashCursor,
    bools: &[bool],
    optbools: &[Option<bool>],
    opts_present: &[bool],
) -> (r: Result<usize>)
    ensures
        ({
            let e = record_encode(bools@, optbools@, opts_present@);
            if old(cursor)@.pos + e.len() <= usize::MAX {
                &&& r matches Ok(n) && n == e.len()
                &&& final(cursor)@ == old(cursor)@.pushed(e)
            } else {
                r is Err
            }
        }),
{
    let _ = cursor.position();
    let ghost start = cursor@;
    let ghost o = optbools@;
    let mut bits: Vec<bool> = Vec::new();
    let mut i: usize = 0;
    while i < bools.len()
        invariant
            0 <= i <= bools@.len(),
            bits@ == bools@.take(i as int),
        decreases bools@.len() - i,
    {
        bits.push(bools[i]);
        i = i + 1;
        assert(bits@ =~= bools@.take(i as int));
    }
    assert(bools@.take(i as int) =~= bools@);
    let mut flags: Vec<bool> = Vec::new();
    let mut j: usize = 0;
    assert(present_values(o.take(0)) =~= Seq::<bool>::empty());
    while j < optbools.len()
        invariant
            0 <= j <= o.len(),
            o == optbools@,
            bits@ == bools@ + present_values(o.take(j as int)),
            flags@ == presence(o.take(j as int)),
        decreases o.len() - j,
    {
        assert(o.take(j + 1).drop_last() =~= o.take(j as int));
        match optbools[j] {
            Some(v) => {
                bits.push(v);
                flags.push(true);
            },
            None => {
                flags.push(false);
            },
        }
        j = j + 1;
        assert(bits@ =~= bools@ + present_values(o.take(j as int)));
        assert(flags@ =~= presence(o.take(j as int)));
    }
    assert(o.take(j as int) =~= o);
    let ghost fo = flags@;
    let mut k: usize = 0;
    while k < opts_present.len()
        invariant
            0 <= k <= opts_present@.len(),
            flags@ == fo + opts_present@.take(k as int),
        decreases opts_present@.len() - k,
    {
        flags.push(opts_present[k]);
        k = k + 1;
        assert(flags@ =~= fo + opts_present@.take(k as int));
    }
    assert(opts_present@.take(k as int) =~= opts_present@);
    proof {
        lemma_bits_roundtrip(bits@, Seq::empty());
        lemma_bits_roundtrip(flags@, Seq::empty());
    }
    let n1 = match push_bits(cursor, bits.as_slice()) {
        Ok(n) => n,
        Err(e) => {
            return Err(e);
        },
    };
    let _ = cursor.position();
    let n2 = match push_bits(cursor, flags.as_slice()) {
        Ok(n) => n,
        Err(e) => {
            return Err(e);
        },
    };
    proof {
        lemma_pushed_pushed(start, bits_bytes(bits@), bits_bytes(flags@));
    }
    let _ = cursor.position();
    Ok(n1 + n2)
}

/// Pops the booleans of a record with `nb` plain booleans, `no` optional
/// booleans and `np` other optional fields: the flags first, then as many
/// bits as there are plain booleans and optional booleans flagged present.
pub fn pop_record_bits(cursor: &mut SquashCursor, nb: usize, no: usize, np: usize) -> (r: Result<
    (Vec<bool>, Vec<Option<bool>>, Vec<bool>),
>)
    requires
        no + np <= usize::MAX,
        nb + no <= usize::MAX,
    ensures
        match record_decode(old(cursor)@.readable(), nb as nat, no as nat, np as nat) {
            Some(((b, o, p), k)) => {
                &&& r matches Ok((rb, ro, rp)) && rb@ == b && ro@ == o && rp@ == p
                &&& final(cursor)@ == old(cursor)@.popped(k)
            },
            None => r is Err,
        },
{
    let _ = cursor.position();
    let ghost start = cursor@;
    let ghost rd = start.readable();
    let flags = match pop_bits(cursor, no + np) {
        Ok(f) => f,
        Err(e) => {
            return Err(e);
        },
    };
    let ghost k1 = bits_decode(rd, (no + np) as nat).unwrap().1;
    let ghost ft = flags@.take(no as int);
    proof {
        lemma_popped(start, k1);
    }
    let mut actual: usize = nb;
    let mut i: usize = 0;
    assert(ft.take(0) =~= Seq::<bool>::empty());
    while i < no
        invariant
            0 <= i <= no,
            nb + no <= usize::MAX,
            flags@.len() == no + np,
            ft == flags@.take(no as int),
            actual == nb + count_true(ft.take(i as int)),
            count_true(ft.take(i as int)) <= i,
        decreases no - i,
    {
        assert(ft.take(i + 1).drop_last() =~= ft.take(i as int));
        if flags[i] {
            actual = actual + 1;
        }
        i = i + 1;
    }
    assert(ft.take(no as int) =~= ft);
    let bits = match pop_bits(cursor, actual) {
        Ok(b) => b,
        Err(e) => {
            return Err(e);
        },
    };
    let ghost vals = bits@.skip(nb as int);
    let mut plain: Vec<bool> = Vec::new();
    let mut j: usize = 0;
    while j < nb
        invariant
            0 <= j <= nb <= actual,
            bits@.len() == actual,
            plain@ == bits@.take(j as int),
        decreases nb - j,
    {
        plain.push(bits[j]);
        j = j + 1;
        assert(plain@ =~= bits@.take(j as int));
    }
    let mut opt: Vec<Option<bool>> = Vec::new();
    let mut b: usize = nb;
    let mut q: usize = 0;
    assert(rebuild(ft.take(0), vals.take(0)) =~= Seq::<Option<bool>>::empty());
    while q < no
        invariant
            0 <= q <= no,
            nb <= b <= actual,
            bits@.len() == actual,
            actual == nb + count_true(ft),
            flags@.len() == no + np,
            ft == flags@.take(no as int),
            vals == bits@.skip(nb as int),
            b == nb + count_true(ft.take(q as int)),
            opt@ == rebuild(ft.take(q as int), vals.take(b - nb)),
        decreases no - q,
    {
        proof {
            lemma_count_true_prefix(ft, q as nat);
        }
        assert(ft.take(q + 1).drop_last() =~= ft.take(q as int));
        if flags[q] {
            let v = bits[b];
            opt.push(Some(v));
            b = b + 1;
            assert(vals.take(b - nb).drop_last() =~= vals.take(b - nb - 1));
        } else {
            opt.push(None);
        }
        q = q + 1;
        assert(opt@ =~= rebuild(ft.take(q as int), vals.take(b - nb)));
    }
    assert(ft.take(no as int) =~= ft);
    assert(vals.take(b - nb) =~= vals);
    let mut rest: Vec<bool> = Vec::new();
    let mut t: usize = no;
    while t < no + np
        invariant
            no + np <= usize::MAX,
            no <= t <= no + np,
            flags@.len() == no + np,
            rest@ == flags@.subrange(no as int, t as int),
        decreases no + np - t,
    {
        rest.push(flags[t]);
        t = t + 1;
        assert(rest@ =~= flags@.subrange(no as int, t as int));
    }
    assert(rest@ =~= flags@.skip(no as int));
    proof {
        lemma_popped(start, k1);
    }
    Ok((plain, opt, rest))
}

/// A prefix of `f` has no more `true`s than `f`, and one more element adds at
/// most one.
proof fn lemma_count_true_prefix(f: Seq<bool>, q: nat)
    requires
        q < f.len(),
    ensures
        count_true(f.take(q as int + 1)) == count_true(f.take(q as int)) + if f[q as int] {
            1nat
        } else {
            0nat
        },
        count_true(f.take(q as int + 1)) <= count_true(f),
    decreases f.len(),
{
    assert(f.take(q as int + 1).drop_last() =~= f.take(q as int));
    if q + 1 < f.len() {
        lemma_count_true_prefix(f.drop_last(), q);
        assert(f.drop_last().take(q as int + 1) =~= f.take(q as int + 1));
    } else {
        assert(f.take(q as int + 1) =~= f);
    }
}

} // verus!
