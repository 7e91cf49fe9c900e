use vstd::prelude::*;

use std::collections::HashMap;
use std::hash::Hash;

use crate::codec::array::{elems_decode, elems_decode_fault, elems_encode, elems_guard_passes, elems_readback, elems_roundtrip, lemma_elems_decode_len, lemma_elems_encode_prefix, lemma_elems_roundtrip};
use crate::codec::SerDes;
use crate::cursor::{lemma_popped, lemma_pushed_pushed, SquashCursor};
use crate::error::{err_unsatisfiable_map, Error, Result};
use crate::num::vlq::Vlq;
use crate::object::{prepend_items, SquashObject};
use vstd::relations::injective;
use vstd::std_specs::iter::IteratorSpec;
use vstd::std_specs::hash::{into_iter, obeys_key_model, spec_hash_map_iter};

verus! {

/// The entries of `m` as value-key pairs, in the order in which `m` is walked.
pub open spec fn map_entries<KV, VV>(m: &HashMap<KV, VV>) -> Seq<(VV, KV)> {
    let s = into_iter(spec_hash_map_iter(m));
    Seq::new(s.len(), |i: int| (s[i].1, s[i].0))
}

/// The map made by inserting the value-key pairs of `xs` in order, a later
/// key replacing an earlier equal one.
pub open spec fn entries_map<KV, VV>(xs: Seq<(VV, KV)>) -> Map<KV, VV>
    decreases xs.len(),
{
    if xs.len() == 0 {
        Map::empty()
    } else {
        entries_map(xs.drop_last()).insert(xs.last().1, xs.last().0)
    }
}

/// Inserting into a hash map inserts the deep views into its deep view,
/// where the deep view of keys tells them apart.
pub proof fn lemma_deep_view_insert<KV: DeepView, VV: DeepView>(
    m0: HashMap<KV, VV>,
    m1: HashMap<KV, VV>,
    k: KV,
    v: VV,
)
    requires
        m1@ == m0@.insert(k, v),
        injective(|x: KV| x.deep_view()),
    ensures
        m1.deep_view() == m0.deep_view().insert(k.deep_view(), v.deep_view()),
{
    broadcast use vstd::std_specs::hash::lemma_hashmap_deepview_dom;
    broadcast use vstd::std_specs::hash::lemma_hashmap_deepview_properties;

    let d0 = m0.deep_view();
    let d1 = m1.deep_view();
    let want = d0.insert(k.deep_view(), v.deep_view());
    assert(m1@.contains_key(k));
    assert forall|dk: KV::V| d1.contains_key(dk) <==> want.contains_key(dk) by {
        if d1.contains_key(dk) {
            let k1 = choose|k1: KV| k1.deep_view() == dk && #[trigger] m1@.contains_key(k1);
            if k1 != k {
                assert(m0@.contains_key(k1));
            }
        }
        if want.contains_key(dk) && dk != k.deep_view() {
            let k0 = choose|k0: KV| k0.deep_view() == dk && #[trigger] m0@.contains_key(k0);
            assert(m1@.contains_key(k0));
        }
    }
    assert forall|dk: KV::V| d1.contains_key(dk) implies d1[dk] == want[dk] by {
        let k1 = choose|k1: KV| k1.deep_view() == dk && #[trigger] m1@.contains_key(k1);
        if k1 != k {
            assert(m0@.contains_key(k1));
            assert(k1.deep_view() != k.deep_view()) by {
                let f = |x: KV| x.deep_view();
                assert(f(k1) != f(k) || k1 == k);
            }
        }
    }
    assert(d1 =~= want);
}

/// An empty hash map has an empty deep view.
pub proof fn lemma_deep_view_empty<KV: DeepView, VV: DeepView>(m: HashMap<KV, VV>)
    requires
        m@ == Map::<KV, VV>::empty(),
    ensures
        m.deep_view() == Map::<KV::V, VV::V>::empty(),
{
    broadcast use vstd::std_specs::hash::lemma_hashmap_deepview_dom;

    assert(m.deep_view().dom() =~= Set::<KV::V>::empty());
    assert(m.deep_view() =~= Map::<KV::V, VV::V>::empty());
}

/// Every entry of `xs` is a value-key pair of `d`.
pub open spec fn entries_agree<KV, VV>(xs: Seq<(VV, KV)>, d: Map<KV, VV>) -> bool {
    forall|i: int| 0 <= i < xs.len() ==> d.contains_key(#[trigger] xs[i].1) && d[xs[i].1] == xs[i].0
}

/// Inserting pairs of `d` gives the part of `d` on the keys inserted.
proof fn lemma_entries_map_agree<KV, VV>(xs: Seq<(VV, KV)>, d: Map<KV, VV>)
    requires
        entries_agree(xs, d),
    ensures
        forall|kd: KV| #[trigger]
            entries_map(xs).contains_key(kd) <==> exists|i: int| 0 <= i < xs.len() && #[trigger] xs[i].1 == kd,
        forall|kd: KV| #[trigger] entries_map(xs).contains_key(kd) ==> entries_map(xs)[kd] == d[kd],
    decreases xs.len(),
{
    if xs.len() > 0 {
        let p = xs.drop_last();
        let l = xs.len() - 1;
        assert forall|i: int| 0 <= i < p.len() implies d.contains_key(#[trigger] p[i].1) && d[p[i].1] == p[i].0 by {
            assert(p[i] == xs[i]);
        }
        lemma_entries_map_agree(p, d);
        assert(xs.last() == xs[l]);
        assert(entries_map(xs) == entries_map(p).insert(xs[l].1, xs[l].0));
        assert forall|kd: KV| #[trigger]
            entries_map(xs).contains_key(kd) <==> exists|i: int| 0 <= i < xs.len() && #[trigger] xs[i].1 == kd by {
            if entries_map(xs).contains_key(kd) && kd != xs[l].1 {
                assert(entries_map(p).contains_key(kd));
                let i = choose|i: int| 0 <= i < p.len() && #[trigger] p[i].1 == kd;
                assert(xs[i] == p[i]);
            }
            if exists|i: int| 0 <= i < xs.len() && #[trigger] xs[i].1 == kd {
                let i = choose|i: int| 0 <= i < xs.len() && #[trigger] xs[i].1 == kd;
                if i < l {
                    assert(p[i] == xs[i]);
                    assert(entries_map(p).contains_key(kd));
                }
            }
        }
    } else {
        assert forall|kd: KV| #[trigger]
            entries_map(xs).contains_key(kd) <==> exists|i: int| 0 <= i < xs.len() && #[trigger] xs[i].1 == kd by {
        }
    }
}

/// A map whose keys and values each read back as themselves reads back as
/// itself, in whatever order its entries are listed when it is written.
pub proof fn lemma_map_readback<K: SerDes, V: SerDes>(
    c: &MapCodec<K, V>,
    m: HashMap<K::Value, V::Value>,
    es: Seq<(V::Value, K::Value)>,
)
    where K::Value: Eq + Hash,
    requires
        injective(|x: K::Value| x.deep_view()),
        forall|k: K::Value| #[trigger] c.0.spec_readback(k) == k.deep_view(),
        forall|x: V::Value| #[trigger] c.1.spec_readback(x) == x.deep_view(),
        entries_agree(es, m@),
        forall|k: K::Value| m@.contains_key(k) ==> exists|i: int| 0 <= i < es.len() && #[trigger] es[i].1 == k,
    ensures
        entries_map(elems_readback(&c.entry(), es).reverse()) == m.deep_view(),
{
    broadcast use vstd::std_specs::hash::lemma_hashmap_deepview_dom;
    broadcast use vstd::std_specs::hash::lemma_hashmap_deepview_properties;

    let d = m.deep_view();
    let xs = elems_readback(&c.entry(), es).reverse();
    let n = es.len();
    assert forall|j: int| 0 <= j < xs.len() implies xs[j] == (es[n - 1 - j].0.deep_view(), es[n - 1 - j].1.deep_view()) by {
        assert(c.entry().spec_readback(es[n - 1 - j]) == (c.1.spec_readback(es[n - 1 - j].0), c.0.spec_readback(es[n - 1 - j].1)));
    }
    assert forall|j: int| 0 <= j < xs.len() implies d.contains_key(#[trigger] xs[j].1) && d[xs[j].1] == xs[j].0 by {
        let k = es[n - 1 - j].1;
        assert(m@.contains_key(k));
    }
    lemma_entries_map_agree(xs, d);
    let r = entries_map(xs);
    assert forall|kd: <K::Value as DeepView>::V| r.contains_key(kd) <==> d.contains_key(kd) by {
        if d.contains_key(kd) {
            let k = choose|k: K::Value| k.deep_view() == kd && #[trigger] m@.contains_key(k);
            let i = choose|i: int| 0 <= i < es.len() && #[trigger] es[i].1 == k;
            assert(xs[n - 1 - i].1 == kd);
        }
    }
    assert(r =~= d);
}

/// The next item of a walk: the first of the items it has left to give.
fn walk_next<I: Iterator>(walk: &mut I) -> (r: Option<I::Item>)
    ensures
        (*final(walk)).obeys_prophetic_iter_laws() == (*old(walk)).obeys_prophetic_iter_laws(),
        (*old(walk)).obeys_prophetic_iter_laws() ==> if (*old(walk)).remaining().len() > 0 {
            &&& (*final(walk)).remaining() == (*old(walk)).remaining().drop_first()
            &&& r == Some((*old(walk)).remaining()[0])
        } else {
            r is None
        },
{
    walk.next()
}

/// Map: each entry is written value then key, in the order in which the
/// map is walked; then the number of entries as a VLQ.
#[derive(Clone, Copy, Debug, Default)]
pub struct MapCodec<K, V>(pub K, pub V);

impl<K: SerDes, V: SerDes> MapCodec<K, V> {
    /// The codec of one entry: the value is pushed before the key, so the
    /// key comes off first.
    pub open spec fn entry(&self) -> (V, K) {
        (self.1, self.0)
    }
}

impl<K: SerDes, V: SerDes> SerDes for MapCodec<K, V> where K::Value: Eq + Hash {
    type Value = HashMap<K::Value, V::Value>;

    /// Both codecs are valid, the keys obey the hash map model, and their
    /// deep views tell them apart.
    open spec fn spec_valid(&self) -> bool {
        &&& self.0.spec_valid()
        &&& self.1.spec_valid()
        &&& obeys_key_model::<K::Value>()
        &&& injective(|x: K::Value| x.deep_view())
    }

    open spec fn spec_encode(&self, v: HashMap<K::Value, V::Value>) -> Option<Seq<u8>> {
        let es = map_entries(&v);
        if es.len() > u64::MAX {
            None
        } else {
            match (elems_encode(&self.entry(), es), Vlq::spec_encode(es.len() as u64)) {
                (Some(b), Some(h)) => Some(b + h),
                _ => None,
            }
        }
    }

    /// The count comes off first, then the entries, key before value, each
    /// inserted as it comes off; where the count exceeds the bytes that
    /// remain, an entry that takes no bytes fails the read.
    open spec fn spec_decode(&self, bytes: Seq<u8>) -> Option<(Map<<K::Value as DeepView>::V, <V::Value as DeepView>::V>, nat)> {
        match Vlq::spec_decode(bytes) {
            Some((n, k)) => {
                let rest = bytes.take(bytes.len() - k);
                match elems_decode(&self.entry(), rest, n as nat, n > rest.len()) {
                    Some((xs, m)) => Some((entries_map(xs), k + m)),
                    None => None,
                }
            },
            None => None,
        }
    }

    /// The entries read back, inserted in the reverse of the order in which
    /// they were written.
    open spec fn spec_readback(&self, v: HashMap<K::Value, V::Value>) -> Map<<K::Value as DeepView>::V, <V::Value as DeepView>::V> {
        entries_map(elems_readback(&self.entry(), map_entries(&v)).reverse())
    }

    open spec fn spec_roundtrips(&self, v: HashMap<K::Value, V::Value>, prefix_len: nat) -> bool {
        &&& elems_roundtrip(&self.entry(), map_entries(&v), prefix_len)
        &&& elems_guard_passes(&self.entry(), map_entries(&v), prefix_len)
    }

    proof fn lemma_decode_len(&self, bytes: Seq<u8>) {
        Vlq::lemma_decode_len(bytes);
        if let Some((n, k)) = Vlq::spec_decode(bytes) {
            let rest = bytes.take(bytes.len() - k);
            lemma_elems_decode_len(&self.entry(), rest, n as nat, n > rest.len());
        }
    }

    proof fn lemma_roundtrip(&self, v: HashMap<K::Value, V::Value>, prefix: Seq<u8>) {
        let sd = self.entry();
        let s = map_entries(&v);
        let b = elems_encode(&sd, s)->0;
        let h = Vlq::spec_encode(s.len() as u64)->0;
        Vlq::lemma_roundtrip(s.len() as u64, prefix + b);
        let bytes = prefix + (b + h);
        assert(bytes == (prefix + b) + h);
        let rest = bytes.take(bytes.len() - h.len());
        assert(rest =~= prefix + b);
        let guard = s.len() > rest.len();
        lemma_elems_roundtrip(&sd, s, prefix, guard);
    }

    /// Where the keys obey the hash map model, walking the map lists exactly
    /// its entries: each listed pair is an entry of the map, and every key of
    /// the map is listed.
    fn ser(&self, cursor: &mut SquashCursor, value: &HashMap<K::Value, V::Value>) -> (r: Result<usize>)
        ensures
            obeys_key_model::<K::Value>() ==> entries_agree(map_entries(value), value@),
            obeys_key_model::<K::Value>() ==> forall|k: K::Value| #[trigger] value@.contains_key(k) ==> exists|i: int|
                0 <= i < map_entries(value).len() && #[trigger] map_entries(value)[i].1 == k,
    {
        broadcast use vstd::std_specs::hash::group_hash_axioms;
        let _ = cursor.position();
        let ghost start = cursor@;
        let ghost es = map_entries(value);
        let ghost sd = self.entry();
        let ghost modelled = obeys_key_model::<K::Value>();
        let mut count: usize = 0;
        assert(elems_encode(&sd, es.take(0)) == Some(Seq::<u8>::empty())) by {
            assert(es.take(0) =~= Seq::<(V::Value, K::Value)>::empty());
        }
        assert(start.pushed(Seq::<u8>::empty()).bytes =~= start.bytes);
        let len = value.len();
        let mut walk = value.iter();
        let ghost rem0 = walk.remaining();
        proof {
            if modelled {
                assert(into_iter(walk) == rem0.unref());
                assert(rem0.len() == value@.dom().len());
                assert(len == es.len());
                assert forall|k: K::Value| #[trigger] value@.contains_key(k) implies exists|i: int|
                    0 <= i < es.len() && #[trigger] es[i].1 == k by {
                    assert(rem0.contains((&k, &value@[k])));
                    let j = choose|j: int| 0 <= j < rem0.len() && rem0[j] == (&k, &value@[k]);
                    assert(es[j].1 == k);
                }
            }
        }
        let mut i: usize = 0;
        while i < len
            invariant
                0 <= i <= len,
                sd == self.entry(),
                start.wf(),
                start == old(cursor)@,
                es == map_entries(value),
                modelled == obeys_key_model::<K::Value>(),
                cursor@.pos == start.pos + count,
                cursor@.pos <= usize::MAX,
                modelled ==> {
                    &&& rem0.unref() == into_iter(spec_hash_map_iter(value))
                    &&& len == es.len()
                    &&& walk.remaining() == rem0.skip(i as int)
                    &&& walk.obeys_prophetic_iter_laws()
                    &&& entries_agree(es, value@)
                    &&& forall|k: K::Value| #[trigger] value@.contains_key(k) ==> exists|j: int|
                        0 <= j < es.len() && #[trigger] es[j].1 == k
                },
                self.spec_valid() ==> {
                    &&& elems_encode(&sd, es.take(i as int)) is Some
                    &&& cursor@ == start.pushed(elems_encode(&sd, es.take(i as int))->0)
                    &&& count == elems_encode(&sd, es.take(i as int))->0.len()
                },
            ensures
                cursor@.pos == start.pos + count,
                cursor@.pos <= usize::MAX,
                self.spec_valid() ==> {
                    &&& i == len
                    &&& elems_encode(&sd, es.take(i as int)) is Some
                    &&& cursor@ == start.pushed(elems_encode(&sd, es.take(i as int))->0)
                    &&& count == elems_encode(&sd, es.take(i as int))->0.len()
                },
            decreases len - i,
        {
            let ghost p = elems_encode(&sd, es.take(i as int))->0;
            let (k, v) = match walk_next(&mut walk) {
                Some(entry) => entry,
                None => {
                    proof {
                        if self.spec_valid() {
                            assert(rem0.skip(i as int).len() > 0);
                        }
                    }
                    break;
                },
            };
            proof {
                if self.spec_valid() {
                    assert(rem0.skip(i as int)[0] == rem0[i as int]);
                    assert(es.take(i + 1).drop_last() =~= es.take(i as int));
                    assert(es[i as int] == (*v, *k));
                    if elems_encode(&sd, es) is Some {
                        lemma_elems_encode_prefix(&sd, es, i as int);
                    }
                }
            }
            let n1 = match self.1.ser(cursor, v) {
                Ok(n) => n,
                Err(e) => {
                    return Err(e);
                },
            };
            let ghost ev = self.1.spec_encode(*v)->0;
            proof {
                if self.spec_valid() {
                    lemma_pushed_pushed(start, p, ev);
                }
            }
            let _ = cursor.position();
            let n0 = match self.0.ser(cursor, k) {
                Ok(n) => n,
                Err(e) => {
                    return Err(e);
                },
            };
            let ghost ek = self.0.spec_encode(*k)->0;
            proof {
                if self.spec_valid() {
                    lemma_pushed_pushed(start, p + ev, ek);
                    assert(p + ev + ek =~= p + (ev + ek));
                    assert(es.take(i + 1).last() == es[i as int]);
                    assert(rem0.skip(i as int).drop_first() =~= rem0.skip(i + 1));
                }
            }
            let _ = cursor.position();
            count = count + n1 + n0;
            i = i + 1;
        }
        proof {
            assert(es.take(es.len() as int) =~= es);
        }
        let r = cursor.push(Vlq(len as u64));
        proof {
            if self.spec_valid() {
                lemma_pushed_pushed(start, elems_encode(&sd, es)->0, Vlq::spec_encode(len as u64)->0);
            }
        }
        let _ = cursor.position();
        match r {
            Ok(n) => {
                count = count + n;
                Ok(count)
            },
            Err(e) => Err(e),
        }
    }

    /// Once a count is read, an entry that takes no bytes while the count
    /// exceeds the bytes that remain is refused with a `Custom` error.
    fn des(&self, cursor: &mut SquashCursor) -> (r: Result<HashMap<K::Value, V::Value>>)
        ensures
            Vlq::spec_decode(old(cursor)@.readable()) matches Some((n, k)) ==> ({
                let rest = old(cursor)@.readable().take(old(cursor)@.readable().len() - k);
                (self.0.spec_valid() && self.1.spec_valid() && elems_decode_fault(&self.entry(), rest, n as nat, n > rest.len()))
                    ==> r matches Err(Error::Custom(_))
            }),
    {
        broadcast use vstd::std_specs::hash::group_hash_axioms;
        let _ = cursor.position();
        let ghost start = cursor@;
        let len = match cursor.pop::<Vlq>() {
            Ok(v) => v.0,
            Err(e) => {
                return Err(e);
            },
        };
        let ghost k = Vlq::spec_decode(start.readable()).unwrap().1;
        proof {
            Vlq::lemma_decode_len(start.readable());
            lemma_popped(start, k);
        }
        let ghost c1 = cursor@;
        let ghost rd = c1.readable();
        let remaining = match cursor.remaining() {
            Ok(x) => x,
            Err(e) => {
                return Err(e);
            },
        };
        let guard = len > remaining;
        let ghost sd = self.entry();
        let ghost parts = self.0.spec_valid() && self.1.spec_valid();
        let ghost total = elems_decode(&sd, rd, len as nat, guard);
        let cap: u64 = if len < remaining / 2 {
            len
        } else {
            remaining / 2
        };
        let mut map: HashMap<K::Value, V::Value> = HashMap::with_capacity(cap as usize);
        proof {
            lemma_deep_view_empty(map);
        }
        let ghost mut xs: Seq<(<V::Value as DeepView>::V, <K::Value as DeepView>::V)> = Seq::empty();
        let ghost mut m: nat = 0;
        let mut i: u64 = 0;
        assert(prepend_items(xs, 0, total) == total) by {
            if let Some((ys, m2)) = total {
                assert(xs + ys =~= ys);
            }
        }
        while i < len
            invariant
                0 <= i <= len,
                parts == (self.0.spec_valid() && self.1.spec_valid()),
                sd == self.entry(),
                start == old(cursor)@,
                Vlq::spec_decode(start.readable()) == Some((len, k)),
                rd == start.readable().take(start.readable().len() - k),
                c1.wf(),
                rd == c1.readable(),
                guard == (len > rd.len()),
                total == elems_decode(&sd, rd, len as nat, guard),
                xs.len() == i,
                parts ==> {
                    &&& m <= c1.pos
                    &&& cursor@ == c1.popped(m)
                    &&& cursor@.readable() == rd.take(rd.len() - m)
                    &&& total == prepend_items(xs, m, elems_decode(&sd, cursor@.readable(), (len - i) as nat, guard))
                    &&& elems_decode_fault(&sd, rd, len as nat, guard) == elems_decode_fault(
                        &sd,
                        cursor@.readable(),
                        (len - i) as nat,
                        guard,
                    )
                },
                self.spec_valid() ==> map.deep_view() == entries_map(xs),
            decreases len - i,
        {
            let ghost cur = cursor@;
            proof {
                self.0.lemma_decode_len(cur.readable());
                assert((len - i) as nat > 0);
            }
            let before = if guard {
                match cursor.remaining() {
                    Ok(x) => x,
                    Err(e) => {
                        return Err(e);
                    },
                }
            } else {
                0
            };
            let key = match self.0.des(cursor) {
                Ok(x) => x,
                Err(e) => {
                    return Err(e);
                },
            };
            let ghost nk = self.0.spec_decode(cur.readable()).unwrap().1;
            proof {
                if parts {
                    lemma_popped(cur, nk);
                    self.1.lemma_decode_len(cursor@.readable());
                }
            }
            let ghost cur2 = cursor@;
            let val = match self.1.des(cursor) {
                Ok(x) => x,
                Err(e) => {
                    return Err(e);
                },
            };
            let ghost nv = self.1.spec_decode(cur2.readable()).unwrap().1;
            let ghost entry = (val.deep_view(), key.deep_view());
            let ghost old_map = map;
            let ghost gk = key;
            let ghost gv = val;
            map.insert(key, val);
            proof {
                if self.spec_valid() {
                    lemma_deep_view_insert(old_map, map, gk, gv);
                }
                assert(xs.push(entry).drop_last() =~= xs);
            }
            if guard {
                let after = match cursor.remaining() {
                    Ok(x) => x,
                    Err(e) => {
                        return Err(e);
                    },
                };
                if after == before {
                    return Err(err_unsatisfiable_map(len, remaining));
                }
            }
            proof {
                if parts {
                    lemma_popped(c1, m);
                    lemma_popped(cur2, nv);
                    lemma_popped(cur, nk + nv);
                    assert(cur.readable().take(cur.readable().len() - (nk + nv)) =~= rd.take(rd.len() - (m + nk + nv)));
                    assert(cur2.readable() =~= cur.readable().take(cur.readable().len() - nk));
                    let rest = elems_decode(&sd, cursor@.readable(), (len - i - 1) as nat, guard);
                    if let Some((ys, m2)) = rest {
                        assert(xs + (seq![entry] + ys) =~= xs.push(entry) + ys);
                    }
                }
                xs = xs.push(entry);
                m = m + nk + nv;
            }
            i = i + 1;
        }
        proof {
            if parts {
                assert(elems_decode(&sd, cursor@.readable(), 0, guard) == Some((Seq::<(<V::Value as DeepView>::V, <K::Value as DeepView>::V)>::empty(), 0nat)));
                assert(xs + Seq::<(<V::Value as DeepView>::V, <K::Value as DeepView>::V)>::empty() =~= xs);
            }
            lemma_popped(start, k);
        }
        Ok(map)
    }
}

} // verus!
