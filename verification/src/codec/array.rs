use vstd::prelude::*;

use crate::codec::{vlq_to_usize, SerDes};
use crate::cursor::{lemma_popped, lemma_pushed_pushed, SquashCursor};
use crate::error::{err_array_len, err_unsatisfiable_array, Error, Result};
use crate::num::vlq::Vlq;
use crate::object::{prepend_items, SquashObject};

verus! {

/// The bytes of the elements of `v` written one after another by `sd`;
/// `None` where one of them cannot be written.
pub open spec fn elems_encode<S: SerDes>(sd: &S, v: Seq<S::Value>) -> Option<Seq<u8>>
    decreases v.len(),
{
    if v.len() == 0 {
        Some(Seq::empty())
    } else {
        match (elems_encode(sd, v.drop_last()), sd.spec_encode(v.last())) {
            (Some(a), Some(b)) => Some(a + b),
            _ => None,
        }
    }
}

/// Reading `count` elements back with `sd` off the end of `bytes`, in the
/// order they come off; where `guard` holds, an element that takes no bytes
/// fails the read.
pub open spec fn elems_decode<S: SerDes>(sd: &S, bytes: Seq<u8>, count: nat, guard: bool) -> Option<
    (Seq<<S::Value as DeepView>::V>, nat),
>
    decreases count,
{
    if count == 0 {
        Some((Seq::empty(), 0))
    } else {
        match sd.spec_decode(bytes) {
            Some((x, m)) => if guard && m == 0 {
                None
            } else {
                match elems_decode(sd, bytes.take(bytes.len() - m), (count - 1) as nat, guard) {
                    Some((xs, m2)) => Some((seq![x] + xs, m + m2)),
                    None => None,
                }
            },
            None => None,
        }
    }
}

/// Whether reading `count` elements back with `sd` off the end of `bytes`
/// stops at the zero-width guard: with `guard` on, an element read before any
/// other failure takes no bytes.
pub open spec fn elems_decode_fault<S: SerDes>(sd: &S, bytes: Seq<u8>, count: nat, guard: bool) -> bool
    decreases count,
{
    if count == 0 {
        false
    } else {
        match sd.spec_decode(bytes) {
            Some((x, m)) => if guard && m == 0 {
                true
            } else {
                elems_decode_fault(sd, bytes.take(bytes.len() - m), (count - 1) as nat, guard)
            },
            None => false,
        }
    }
}

/// The elements of `v` all read back, each after those before it.
pub open spec fn elems_roundtrip<S: SerDes>(sd: &S, v: Seq<S::Value>, prefix_len: nat) -> bool
    decreases v.len(),
{
    if v.len() == 0 {
        true
    } else {
        &&& elems_roundtrip(sd, v.drop_last(), prefix_len)
        &&& sd.spec_roundtrips(v.last(), prefix_len + elems_encode(sd, v.drop_last())->0.len())
    }
}

/// Every element of `v` is written as at least one byte.
pub open spec fn elems_nonempty<S: SerDes>(sd: &S, v: Seq<S::Value>) -> bool {
    forall|i: int| 0 <= i < v.len() ==> (#[trigger] sd.spec_encode(v[i]))->0.len() > 0
}

/// What reading back the elements of `v` gives, in order.
pub open spec fn elems_readback<S: SerDes>(sd: &S, v: Seq<S::Value>) -> Seq<<S::Value as DeepView>::V> {
    Seq::new(v.len(), |i: int| sd.spec_readback(v[i]))
}

pub proof fn lemma_elems_decode_len<S: SerDes>(sd: &S, bytes: Seq<u8>, count: nat, guard: bool)
    ensures
        elems_decode(sd, bytes, count, guard) matches Some((xs, m)) ==> m <= bytes.len() && xs.len()
            == count,
    decreases count,
{
    if count > 0 {
        sd.lemma_decode_len(bytes);
        if let Some((x, m)) = sd.spec_decode(bytes) {
            lemma_elems_decode_len(sd, bytes.take(bytes.len() - m), (count - 1) as nat, guard);
        }
    }
}

/// Where the elements of `v` can be written, so can those of every prefix,
/// and they take no more bytes.
pub proof fn lemma_elems_encode_prefix<S: SerDes>(sd: &S, v: Seq<S::Value>, i: int)
    requires
        0 <= i <= v.len(),
        elems_encode(sd, v) is Some,
    ensures
        elems_encode(sd, v.take(i)) is Some,
        elems_encode(sd, v.take(i))->0.len() <= elems_encode(sd, v)->0.len(),
        i < v.len() ==> sd.spec_encode(v[i]) is Some,
        i < v.len() ==> elems_encode(sd, v.take(i))->0.len() + sd.spec_encode(v[i])->0.len()
            <= elems_encode(sd, v)->0.len(),
    decreases v.len(),
{
    if i < v.len() {
        lemma_elems_encode_prefix(sd, v.drop_last(), i);
        assert(v.drop_last().take(i) =~= v.take(i));
        if i < v.len() - 1 {
            assert(v.drop_last()[i] == v[i]);
        } else {
            assert(v.drop_last() =~= v.take(i));
        }
    } else {
        assert(v.take(i) =~= v);
    }
}

/// The elements of `v` written after any prefix read back, last one first.
pub proof fn lemma_elems_roundtrip<S: SerDes>(sd: &S, v: Seq<S::Value>, prefix: Seq<u8>, guard: bool)
    requires
        sd.spec_valid(),
        elems_encode(sd, v) is Some,
        elems_roundtrip(sd, v, prefix.len()),
        guard ==> elems_nonempty(sd, v),
    ensures
        elems_decode(sd, prefix + elems_encode(sd, v)->0, v.len(), guard) == Some(
            (elems_readback(sd, v).reverse(), elems_encode(sd, v)->0.len()),
        ),
    decreases v.len(),
{
    if v.len() > 0 {
        let a = elems_encode(sd, v.drop_last())->0;
        let b = sd.spec_encode(v.last())->0;
        let bytes = prefix + (a + b);
        sd.lemma_roundtrip(v.last(), prefix + a);
        assert(bytes == (prefix + a) + b);
        assert(bytes.take(bytes.len() - b.len()) =~= prefix + a);
        if guard {
            assert(v.last() == v[v.len() - 1]);
            assert forall|i: int| 0 <= i < v.drop_last().len() implies (#[trigger] sd.spec_encode(
                v.drop_last()[i],
            ))->0.len() > 0 by {
                assert(v.drop_last()[i] == v[i]);
            }
        }
        lemma_elems_roundtrip(sd, v.drop_last(), prefix, guard);
        assert(seq![sd.spec_readback(v.last())] + elems_readback(sd, v.drop_last()).reverse()
            =~= elems_readback(sd, v).reverse());
    } else {
        assert(elems_readback(sd, v).reverse() =~= Seq::<<S::Value as DeepView>::V>::empty());
    }
}

/// What `write_elems` writes of `v`, `read_elems` reads back as the
/// elements' readbacks in the order they were written (once the order in
/// which they come off is undone), taking exactly those bytes.
pub proof fn lemma_write_read_elems<S: SerDes>(sd: &S, v: Seq<S::Value>, prefix: Seq<u8>, guard: bool)
    requires
        sd.spec_valid(),
        elems_encode(sd, v) is Some,
        elems_roundtrip(sd, v, prefix.len()),
        guard ==> elems_nonempty(sd, v),
    ensures
        elems_decode(sd, prefix + elems_encode(sd, v)->0, v.len(), guard) matches Some((xs, m))
            && xs.reverse() == elems_readback(sd, v) && m == elems_encode(sd, v)->0.len(),
{
    lemma_elems_roundtrip(sd, v, prefix, guard);
    assert(elems_readback(sd, v).reverse().reverse() =~= elems_readback(sd, v));
}

/// Writes every element of `value` forward through `sd`.
pub fn write_elems<S: SerDes>(cursor: &mut SquashCursor, sd: &S, value: &[S::Value]) -> (r: Result<usize>)
    ensures
        r matches Ok(n) ==> final(cursor)@.pos == old(cursor)@.pos + n,
        sd.spec_valid() ==> match elems_encode(sd, value@) {
            Some(e) => if old(cursor)@.pos + e.len() <= usize::MAX {
                &&& r matches Ok(n) && n == e.len()
                &&& final(cursor)@ == old(cursor)@.pushed(e)
            } else {
                r is Err
            },
            None => r is Err,
        },
{
    let _ = cursor.position();
    let ghost start = cursor@;
    let ghost v = value@;
    let mut count: usize = 0;
    let mut i: usize = 0;
    assert(elems_encode(sd, v.take(0)) == Some(Seq::<u8>::empty())) by {
        assert(v.take(0) =~= Seq::<S::Value>::empty());
    }
    assert(start.pushed(Seq::<u8>::empty()).bytes =~= start.bytes);
    while i < value.len()
        invariant
            0 <= i <= v.len(),
            v == value@,
            start.wf(),
            start == old(cursor)@,
            cursor@.pos == start.pos + count,
            cursor@.pos <= usize::MAX,
            sd.spec_valid() ==> {
                &&& elems_encode(sd, v.take(i as int)) is Some
                &&& cursor@ == start.pushed(elems_encode(sd, v.take(i as int))->0)
                &&& count == elems_encode(sd, v.take(i as int))->0.len()
            },
        decreases v.len() - i,
    {
        let ghost p = elems_encode(sd, v.take(i as int))->0;
        proof {
            assert(v.take(i as int + 1).drop_last() =~= v.take(i as int));
        }
        match sd.ser(cursor, &value[i]) {
            Ok(n) => {
                proof {
                    if sd.spec_valid() {
                        lemma_pushed_pushed(start, p, sd.spec_encode(v[i as int])->0);
                    }
                }
                let _ = cursor.position();
                count = count + n;
            },
            Err(e) => {
                proof {
                    if sd.spec_valid() && elems_encode(sd, v) is Some {
                        lemma_elems_encode_prefix(sd, v, i as int);
                    }
                }
                return Err(e);
            },
        }
        i = i + 1;
    }
    assert(v.take(i as int) =~= v);
    Ok(count)
}

/// Reads exactly `len` elements through `sd` and undoes the last-in-first-out
/// order. Unless `trusted`, where `len` exceeds the bytes that remain, an
/// element that takes no bytes fails the read.
pub fn read_elems<S: SerDes>(cursor: &mut SquashCursor, sd: &S, len: usize, trusted: bool) -> (r: Result<
    Vec<S::Value>,
>)
    ensures
        sd.spec_valid() ==> match elems_decode(
            sd,
            old(cursor)@.readable(),
            len as nat,
            !trusted && len > old(cursor)@.readable().len(),
        ) {
            Some((xs, m)) => {
                &&& r matches Ok(v) && v.deep_view() == xs.reverse()
                &&& final(cursor)@ == old(cursor)@.popped(m)
            },
            None => r is Err,
        },
        (sd.spec_valid() && elems_decode_fault(sd, old(cursor)@.readable(), len as nat, !trusted && len > old(cursor)@.readable().len()))
            ==> r matches Err(Error::Custom(_)),
{
    let _ = cursor.position();
    let ghost start = cursor@;
    let ghost rd = start.readable();
    let remaining = match cursor.remaining() {
        Ok(x) => x,
        Err(e) => {
            return Err(e);
        },
    };
    let guard = !trusted && len as u64 > remaining;
    let ghost total = elems_decode(sd, rd, len as nat, guard);
    let mut xs: Vec<S::Value> = Vec::new();
    let ghost mut m: nat = 0;
    let mut i: usize = 0;
    assert(prepend_items(xs.deep_view(), 0, total) == total) by {
        assert(xs.deep_view() =~= Seq::<<S::Value as DeepView>::V>::empty());
        if let Some((ys, m2)) = total {
            assert(Seq::<<S::Value as DeepView>::V>::empty() + ys =~= ys);
        }
    }
    while i < len
        invariant
            0 <= i <= len,
            start.wf(),
            start == old(cursor)@,
            rd == start.readable(),
            guard == (!trusted && len > rd.len()),
            total == elems_decode(sd, rd, len as nat, guard),
            xs@.len() == i,
            sd.spec_valid() ==> {
                &&& m <= start.pos
                &&& cursor@ == start.popped(m)
                &&& cursor@.readable() == rd.take(rd.len() - m)
                &&& total == prepend_items(
                    xs.deep_view(),
                    m,
                    elems_decode(sd, cursor@.readable(), (len - i) as nat, guard),
                )
                &&& elems_decode_fault(sd, rd, len as nat, guard) == elems_decode_fault(
                    sd,
                    cursor@.readable(),
                    (len - i) as nat,
                    guard,
                )
            },
        decreases len - i,
    {
        let ghost cur = cursor@;
        let ghost before_items = xs.deep_view();
        proof {
            sd.lemma_decode_len(cur.readable());
        }
        let before = if guard {
            match cursor.remaining() {
                Ok(x) => x,
                Err(e) => {
                    return Err(e);
                },
            }
        } else {
            0
        };
        let x = match sd.des(cursor) {
            Ok(x) => x,
            Err(e) => {
                proof {
                    assert((len - i) as nat > 0);
                }
                return Err(e);
            },
        };
        let ghost mm = sd.spec_decode(cur.readable()).unwrap().1;
        if guard {
            let after = match cursor.remaining() {
                Ok(x) => x,
                Err(e) => {
                    return Err(e);
                },
            };
            if after == before {
                proof {
                    if sd.spec_valid() {
                        assert(mm == 0);
                        assert((len - i) as nat > 0);
                    }
                }
                return Err(err_unsatisfiable_array(len, remaining));
            }
        }
        proof {
            if sd.spec_valid() {
                lemma_popped(start, m);
                lemma_popped(cur, mm);
                assert(cur.readable().take(cur.readable().len() - mm) =~= rd.take(rd.len() - (m + mm)));
                let rest = elems_decode(sd, cursor@.readable(), (len - i - 1) as nat, guard);
                if let Some((ys, m2)) = rest {
                    assert(before_items + (seq![x.deep_view()] + ys) =~= (before_items.push(x.deep_view())) + ys);
                }
            }
        }
        xs.push(x);
        proof {
            assert(xs.deep_view() =~= before_items.push(x.deep_view()));
            m = m + mm;
        }
        i = i + 1;
    }
    proof {
        if sd.spec_valid() {
            assert(elems_decode(sd, cursor@.readable(), 0, guard) == Some((Seq::<<S::Value as DeepView>::V>::empty(), 0nat)));
            assert(xs.deep_view() + Seq::<<S::Value as DeepView>::V>::empty() =~= xs.deep_view());
        }
    }
    let ghost popped_order = xs.deep_view();
    let mut out: Vec<S::Value> = Vec::new();
    while xs.len() > 0
        invariant
            xs.deep_view().len() + out.deep_view().len() == popped_order.len(),
            xs.deep_view() == popped_order.take(xs.deep_view().len() as int),
            out.deep_view() == popped_order.skip(xs.deep_view().len() as int).reverse(),
        decreases xs@.len(),
    {
        let ghost before_xs = xs.deep_view();
        let ghost before_out = out.deep_view();
        let x = xs.pop().unwrap();
        out.push(x);
        proof {
            let l = before_xs.len() - 1;
            assert(x.deep_view() == before_xs[l]);
            assert(before_xs[l] == popped_order[l]);
            assert(xs.deep_view() =~= before_xs.drop_last());
            assert(out.deep_view() =~= before_out.push(x.deep_view()));
            assert(xs.deep_view() =~= popped_order.take(xs.deep_view().len() as int));
            assert(out.deep_view() =~= popped_order.skip(xs.deep_view().len() as int).reverse());
        }
    }
    assert(out.deep_view() =~= popped_order.reverse());
    Ok(out)
}

/// The condition under which `read_elems` reads back `v` written after
/// `prefix_len` bytes and followed by a count: the elements read back, and the
/// zero-width guard does not fire.
pub open spec fn elems_guard_passes<S: SerDes>(sd: &S, v: Seq<S::Value>, prefix_len: nat) -> bool {
    v.len() <= prefix_len + elems_encode(sd, v)->0.len() || elems_nonempty(sd, v)
}

/// Variable-length array: the elements forward, then their count as a VLQ.
#[derive(Clone, Copy, Debug, Default)]
pub struct Array<S>(pub S);

impl<S: SerDes> SerDes for Array<S> {
    type Value = Vec<S::Value>;

    open spec fn spec_valid(&self) -> bool {
        self.0.spec_valid()
    }

    open spec fn spec_encode(&self, v: Vec<S::Value>) -> Option<Seq<u8>> {
        if v@.len() > u64::MAX {
            None
        } else {
            match (elems_encode(&self.0, v@), Vlq::spec_encode(v@.len() as u64)) {
                (Some(b), Some(h)) => Some(b + h),
                _ => None,
            }
        }
    }

    /// The count comes off first; the elements are read back, the zero-width
    /// guard on where the count exceeds the bytes that remain.
    open spec fn spec_decode(&self, bytes: Seq<u8>) -> Option<(Seq<<S::Value as DeepView>::V>, nat)> {
        match Vlq::spec_decode(bytes) {
            Some((n, k)) => {
                let rest = bytes.take(bytes.len() - k);
                if n > usize::MAX {
                    None
                } else {
                    match elems_decode(&self.0, rest, n as nat, n > rest.len()) {
                        Some((xs, m)) => Some((xs.reverse(), k + m)),
                        None => None,
                    }
                }
            },
            None => None,
        }
    }

    open spec fn spec_readback(&self, v: Vec<S::Value>) -> Seq<<S::Value as DeepView>::V> {
        elems_readback(&self.0, v@)
    }

    open spec fn spec_roundtrips(&self, v: Vec<S::Value>, prefix_len: nat) -> bool {
        &&& elems_roundtrip(&self.0, v@, prefix_len)
        &&& elems_guard_passes(&self.0, v@, prefix_len)
    }

    proof fn lemma_decode_len(&self, bytes: Seq<u8>) {
        Vlq::lemma_decode_len(bytes);
        if let Some((n, k)) = Vlq::spec_decode(bytes) {
            let rest = bytes.take(bytes.len() - k);
            lemma_elems_decode_len(&self.0, rest, n as nat, n > rest.len());
        }
    }

    proof fn lemma_roundtrip(&self, v: Vec<S::Value>, prefix: Seq<u8>) {
        let s = v@;
        let b = elems_encode(&self.0, s)->0;
        let h = Vlq::spec_encode(s.len() as u64)->0;
        assert(v.len() == s.len());
        Vlq::lemma_roundtrip(s.len() as u64, prefix + b);
        let bytes = prefix + (b + h);
        assert(bytes == (prefix + b) + h);
        let rest = bytes.take(bytes.len() - h.len());
        assert(rest =~= prefix + b);
        let guard = s.len() > rest.len();
        lemma_elems_roundtrip(&self.0, s, prefix, guard);
        assert(elems_readback(&self.0, s).reverse().reverse() =~= elems_readback(&self.0, s));
    }

    fn ser(&self, cursor: &mut SquashCursor, value: &Vec<S::Value>) -> Result<usize> {
        let _ = cursor.position();
        let ghost start = cursor@;
        let mut count = match write_elems(cursor, &self.0, value.as_slice()) {
            Ok(n) => n,
            Err(e) => {
                return Err(e);
            },
        };
        let r = cursor.push(Vlq(value.len() as u64));
        proof {
            lemma_pushed_pushed(start, elems_encode(&self.0, value@)->0, Vlq::spec_encode(value@.len() as u64)->0);
        }
        match r {
            Ok(n) => {
                count = count + n;
                Ok(count)
            },
            Err(e) => Err(e),
        }
    }

    /// Once a count is read, a count that does not fit in `usize`, or an
    /// element that takes no bytes while the count exceeds the bytes that
    /// remain, is refused with a `Custom` error.
    fn des(&self, cursor: &mut SquashCursor) -> (r: Result<Vec<S::Value>>)
        ensures
            Vlq::spec_decode(old(cursor)@.readable()) matches Some((n, k)) ==> ({
                let rest = old(cursor)@.readable().take(old(cursor)@.readable().len() - k);
                (n > usize::MAX || (self.0.spec_valid() && elems_decode_fault(&self.0, rest, n as nat, n > rest.len())))
                    ==> r matches Err(Error::Custom(_))
            }),
    {
        let _ = cursor.position();
        let ghost start = cursor@;
        let n = match cursor.pop::<Vlq>() {
            Ok(v) => v.0,
            Err(e) => {
                return Err(e);
            },
        };
        proof {
            let k = Vlq::spec_decode(start.readable()).unwrap().1;
            Vlq::lemma_decode_len(start.readable());
            lemma_popped(start, k);
        }
        let len = match vlq_to_usize(n) {
            Ok(len) => len,
            Err(e) => {
                return Err(e);
            },
        };
        let r = read_elems(cursor, &self.0, len, false);
        proof {
            let k = Vlq::spec_decode(start.readable()).unwrap().1;
            lemma_popped(start, k);
        }
        r
    }
}

/// Fixed-length array: exactly `n` elements, no count.
#[derive(Clone, Copy, Debug, Default)]
pub struct ArrayN<S>(pub S, pub usize);

impl<S: SerDes> SerDes for ArrayN<S> {
    type Value = Vec<S::Value>;

    open spec fn spec_valid(&self) -> bool {
        self.0.spec_valid()
    }

    open spec fn spec_encode(&self, v: Vec<S::Value>) -> Option<Seq<u8>> {
        if v@.len() != self.1 {
            None
        } else {
            elems_encode(&self.0, v@)
        }
    }

    open spec fn spec_decode(&self, bytes: Seq<u8>) -> Option<(Seq<<S::Value as DeepView>::V>, nat)> {
        match elems_decode(&self.0, bytes, self.1 as nat, false) {
            Some((xs, m)) => Some((xs.reverse(), m)),
            None => None,
        }
    }

    open spec fn spec_readback(&self, v: Vec<S::Value>) -> Seq<<S::Value as DeepView>::V> {
        elems_readback(&self.0, v@)
    }

    open spec fn spec_roundtrips(&self, v: Vec<S::Value>, prefix_len: nat) -> bool {
        elems_roundtrip(&self.0, v@, prefix_len)
    }

    proof fn lemma_decode_len(&self, bytes: Seq<u8>) {
        lemma_elems_decode_len(&self.0, bytes, self.1 as nat, false);
    }

    proof fn lemma_roundtrip(&self, v: Vec<S::Value>, prefix: Seq<u8>) {
        lemma_elems_roundtrip(&self.0, v@, prefix, false);
        assert(elems_readback(&self.0, v@).reverse().reverse() =~= elems_readback(&self.0, v@));
    }

    /// A value of another length than `n` is refused with a `Custom` error
    /// before anything is written.
    fn ser(&self, cursor: &mut SquashCursor, value: &Vec<S::Value>) -> (r: Result<usize>)
        ensures
            value@.len() != self.1 ==> (r matches Err(Error::Custom(_)) && final(cursor)@ == old(cursor)@),
    {
        if value.len() != self.1 {
            return Err(err_array_len(self.1, value.len()));
        }
        write_elems(cursor, &self.0, value.as_slice())
    }

    fn des(&self, cursor: &mut SquashCursor) -> Result<Vec<S::Value>> {
        read_elems(cursor, &self.0, self.1, true)
    }
}

/// Array whose count is written by a number codec of its own, after the elements.
#[derive(Clone, Copy, Debug, Default)]
pub struct ArrayLen<S, L>(pub S, pub L);

impl<S: SerDes, L: SerDes<Value = u64>> SerDes for ArrayLen<S, L> {
    type Value = Vec<S::Value>;

    open spec fn spec_valid(&self) -> bool {
        self.0.spec_valid() && self.1.spec_valid()
    }

    open spec fn spec_encode(&self, v: Vec<S::Value>) -> Option<Seq<u8>> {
        if v@.len() > u64::MAX {
            None
        } else {
            match (elems_encode(&self.0, v@), self.1.spec_encode(v@.len() as u64)) {
                (Some(b), Some(h)) => Some(b + h),
                _ => None,
            }
        }
    }

    open spec fn spec_decode(&self, bytes: Seq<u8>) -> Option<(Seq<<S::Value as DeepView>::V>, nat)> {
        match self.1.spec_decode(bytes) {
            Some((n, k)) => {
                let rest = bytes.take(bytes.len() - k);
                if n > usize::MAX {
                    None
                } else {
                    match elems_decode(&self.0, rest, n as nat, n > rest.len()) {
                        Some((xs, m)) => Some((xs.reverse(), k + m)),
                        None => None,
                    }
                }
            },
            None => None,
        }
    }

    open spec fn spec_readback(&self, v: Vec<S::Value>) -> Seq<<S::Value as DeepView>::V> {
        elems_readback(&self.0, v@)
    }

    open spec fn spec_roundtrips(&self, v: Vec<S::Value>, prefix_len: nat) -> bool {
        &&& elems_roundtrip(&self.0, v@, prefix_len)
        &&& elems_guard_passes(&self.0, v@, prefix_len)
        &&& self.1.spec_roundtrips(v@.len() as u64, prefix_len + elems_encode(&self.0, v@)->0.len())
        &&& self.1.spec_readback(v@.len() as u64) == v@.len() as u64
    }

    proof fn lemma_decode_len(&self, bytes: Seq<u8>) {
        self.1.lemma_decode_len(bytes);
        if let Some((n, k)) = self.1.spec_decode(bytes) {
            let rest = bytes.take(bytes.len() - k);
            lemma_elems_decode_len(&self.0, rest, n as nat, n > rest.len());
        }
    }

    proof fn lemma_roundtrip(&self, v: Vec<S::Value>, prefix: Seq<u8>) {
        let s = v@;
        let b = elems_encode(&self.0, s)->0;
        let h = self.1.spec_encode(s.len() as u64)->0;
        assert(v.len() == s.len());
        self.1.lemma_roundtrip(s.len() as u64, prefix + b);
        let bytes = prefix + (b + h);
        assert(bytes == (prefix + b) + h);
        let rest = bytes.take(bytes.len() - h.len());
        assert(rest =~= prefix + b);
        let guard = s.len() > rest.len();
        lemma_elems_roundtrip(&self.0, s, prefix, guard);
        assert(elems_readback(&self.0, s).reverse().reverse() =~= elems_readback(&self.0, s));
    }

    fn ser(&self, cursor: &mut SquashCursor, value: &Vec<S::Value>) -> Result<usize> {
        let _ = cursor.position();
        let ghost start = cursor@;
        let mut count = match write_elems(cursor, &self.0, value.as_slice()) {
            Ok(n) => n,
            Err(e) => {
                return Err(e);
            },
        };
        let _ = cursor.position();
        let len = value.len() as u64;
        let r = self.1.ser(cursor, &len);
        proof {
            if self.spec_valid() {
                lemma_pushed_pushed(start, elems_encode(&self.0, value@)->0, self.1.spec_encode(value@.len() as u64)->0);
            }
        }
        let _ = cursor.position();
        match r {
            Ok(n) => {
                count = count + n;
                Ok(count)
            },
            Err(e) => Err(e),
        }
    }

    fn des(&self, cursor: &mut SquashCursor) -> Result<Vec<S::Value>> {
        let _ = cursor.position();
        let ghost start = cursor@;
        proof {
            self.1.lemma_decode_len(start.readable());
        }
        let n = match self.1.des(cursor) {
            Ok(v) => v,
            Err(e) => {
                return Err(e);
            },
        };
        proof {
            if self.spec_valid() {
                let k = self.1.spec_decode(start.readable()).unwrap().1;
                lemma_popped(start, k);
            }
        }
        let len = match vlq_to_usize(n) {
            Ok(len) => len,
            Err(e) => {
                return Err(e);
            },
        };
        read_elems(cursor, &self.0, len, false)
    }
}

} // verus!
