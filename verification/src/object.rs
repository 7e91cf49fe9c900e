use vstd::prelude::*;

use crate::cursor::{lemma_popped, lemma_pushed_pushed, CursorView, SquashCursor};
use crate::num::vlq::Vlq;
use vstd::utf8::{decode_utf8, encode_utf8, encode_utf8_decode_utf8, encode_utf8_valid_utf8, valid_utf8};
use crate::error::{Error, IoError, Result};
use crate::num::le::{le_bytes, le_decode, le_encode, le_value, pow256};
use crate::num::le::{lemma_le_bytes_len, lemma_le_roundtrip, lemma_le_value_bound};

verus! {

/// A value that can be pushed onto a cursor and popped back off it.
///
/// The wire format is described over the value's deep view: `spec_encode` is
/// what pushing writes (`None` where pushing fails), and `spec_decode` is what
/// popping reads off the end of the bytes before the cursor: the deep view of
/// the value and the number of bytes it takes (`None` where popping fails).
pub trait SquashObject: Sized + DeepView {
    spec fn spec_encode(v: <Self as DeepView>::V) -> Option<Seq<u8>>;

    spec fn spec_decode(bytes: Seq<u8>) -> Option<(<Self as DeepView>::V, nat)>;

    /// The values for which popping gives back what pushing wrote.
    spec fn spec_roundtrips(v: <Self as DeepView>::V) -> bool;

    /// Popping never takes more bytes than there are.
    proof fn lemma_decode_len(bytes: Seq<u8>)
        ensures
            Self::spec_decode(bytes) matches Some((_, n)) ==> n <= bytes.len(),
    ;

    /// Whatever stands before them, the bytes a value is pushed as pop back as
    /// that value, and popping takes exactly those bytes.
    proof fn lemma_roundtrip(v: <Self as DeepView>::V, prefix: Seq<u8>)
        requires
            Self::spec_roundtrips(v),
            Self::spec_encode(v) is Some,
        ensures
            Self::spec_decode(prefix + Self::spec_encode(v)->0) == Some(
                (v, Self::spec_encode(v)->0.len()),
            ),
    ;

    fn push_obj(self, cursor: &mut SquashCursor) -> (r: Result<usize>)
        ensures
            match Self::spec_encode(self.deep_view()) {
                Some(e) => if old(cursor)@.pos + e.len() <= usize::MAX {
                    &&& r matches Ok(n) && n == e.len()
                    &&& final(cursor)@ == old(cursor)@.pushed(e)
                } else {
                    r is Err
                },
                None => r is Err,
            },
    ;

    fn pop_obj(cursor: &mut SquashCursor) -> (r: Result<Self>)
        ensures
            match Self::spec_decode(old(cursor)@.readable()) {
                Some((w, n)) => {
                    &&& r matches Ok(v) && v.deep_view() == w
                    &&& final(cursor)@ == old(cursor)@.popped(n)
                },
                None => r is Err,
            },
    ;
}

/// Whatever a value is pushed as, popping those bytes alone gives the value
/// back and takes them all, for each value that reads back.
pub proof fn lemma_serialize_deserialize<T: SquashObject>(v: <T as DeepView>::V)
    requires
        T::spec_roundtrips(v),
        T::spec_encode(v) is Some,
    ensures
        T::spec_decode(T::spec_encode(v)->0) == Some((v, T::spec_encode(v)->0.len())),
{
    let e = T::spec_encode(v)->0;
    T::lemma_roundtrip(v, Seq::empty());
    assert(Seq::<u8>::empty() + e =~= e);
}

/// Last in, first out: after `a` and then `b` are pushed behind any bytes,
/// popping gives `b` first, then `a`, each taking exactly its own bytes.
pub proof fn lemma_last_in_first_out<A: SquashObject, B: SquashObject>(
    a: <A as DeepView>::V,
    b: <B as DeepView>::V,
    prefix: Seq<u8>,
)
    requires
        A::spec_roundtrips(a),
        B::spec_roundtrips(b),
        A::spec_encode(a) is Some,
        B::spec_encode(b) is Some,
    ensures
        ({
            let ea = A::spec_encode(a)->0;
            let eb = B::spec_encode(b)->0;
            let bytes = prefix + ea + eb;
            &&& B::spec_decode(bytes) == Some((b, eb.len()))
            &&& A::spec_decode(bytes.take(bytes.len() - eb.len())) == Some((a, ea.len()))
        }),
{
    let ea = A::spec_encode(a)->0;
    let eb = B::spec_encode(b)->0;
    let bytes = prefix + ea + eb;
    B::lemma_roundtrip(b, prefix + ea);
    A::lemma_roundtrip(a, prefix);
    assert(bytes.take(bytes.len() - eb.len()) =~= prefix + ea);
}

/// Reading an `n`-byte little-endian number off the end of `bytes`.
pub open spec fn uint_decode(bytes: Seq<u8>, n: nat) -> Option<(nat, nat)> {
    if n <= bytes.len() {
        Some((le_value(bytes.skip(bytes.len() - n)), n))
    } else {
        None
    }
}

/// Whatever stands before them, the `n` little-endian bytes of `x < 256^n`
/// read back as `x`.
pub proof fn lemma_uint_roundtrip(x: nat, n: nat, prefix: Seq<u8>)
    requires
        x < pow256(n),
    ensures
        le_bytes(x, n).len() == n,
        uint_decode(prefix + le_bytes(x, n), n) == Some((x, n)),
{
    lemma_le_roundtrip(x, n);
    let bytes = prefix + le_bytes(x, n);
    assert(bytes.skip(bytes.len() - n) =~= le_bytes(x, n));
}

/// A byte is pushed as itself, and popping a byte takes the last one.
pub proof fn lemma_u8_spec(b: u8, bytes: Seq<u8>)
    ensures
        u8::spec_encode(b) == Some(seq![b]),
        u8::spec_decode(bytes) == (if bytes.len() >= 1 {
            Some((bytes.last(), 1nat))
        } else {
            None
        }),
{
    reveal_with_fuel(le_bytes, 2);
    reveal_with_fuel(le_value, 2);
    assert(le_bytes(b as nat, 1) =~= seq![b]);
    if bytes.len() >= 1 {
        let one = bytes.skip(bytes.len() - 1);
        assert(one.drop_first() =~= Seq::<u8>::empty());
        assert(one[0] == bytes.last());
    }
}

/// Pushes the `n` little-endian bytes of `x`.
pub fn push_uint(cursor: &mut SquashCursor, x: u64, n: usize) -> (r: Result<usize>)
    requires
        1 <= n <= 8,
        x < pow256(n as nat),
    ensures
        le_bytes(x as nat, n as nat).len() == n,
        if old(cursor)@.pos + n <= usize::MAX {
            &&& r matches Ok(k) && k == n
            &&& final(cursor)@ == old(cursor)@.pushed(le_bytes(x as nat, n as nat))
        } else {
            &&& r is Err
            &&& final(cursor)@ == old(cursor)@
        },
{
    let bytes = le_encode(x, n);
    proof { lemma_le_bytes_len(x as nat, n as nat); }
    if n <= usize::MAX - cursor.position() {
        let ghost start = cursor@;
        cursor.realloc(n as u64);
        let ghost mid = cursor@;
        let r = cursor.write(bytes.as_slice());
        proof {
            let b = le_bytes(x as nat, n as nat);
            assert(start.pushed(b).bytes =~= mid.pushed(b).bytes);
        }
        r
    } else {
        cursor.write(bytes.as_slice())
    }
}

/// Pops an `n`-byte little-endian number.
pub fn pop_uint(cursor: &mut SquashCursor, n: usize) -> (r: Result<u64>)
    requires
        1 <= n <= 8,
    ensures
        match uint_decode(old(cursor)@.readable(), n as nat) {
            Some((x, k)) => {
                &&& r matches Ok(v) && v == x
                &&& x < pow256(n as nat)
                &&& final(cursor)@ == old(cursor)@.popped(k)
            },
            None => {
                &&& r matches Err(e) && e == Error::Io(IoError::SeekBeforeStart)
                &&& final(cursor)@ == old(cursor)@
            },
        },
{
    let mut buf: Vec<u8> = vec![0u8; n];
    let r = cursor.pop_read(buf.as_mut_slice());
    match r {
        Ok(_) => {
            let x = le_decode(buf.as_slice());
            proof {
                lemma_le_value_bound(buf@);
                let rd = old(cursor)@.readable();
                assert(rd.skip(rd.len() - n) =~= old(cursor)@.readable().skip(old(cursor)@.pos - n));
            }
            Ok(x)
        },
        Err(e) => Err(e),
    }
}

impl SquashCursor {
    /// Pushes `value`; returns the number of bytes written.
    pub fn push<T: SquashObject>(&mut self, value: T) -> (r: Result<usize>)
        ensures
            match T::spec_encode(value.deep_view()) {
                Some(e) => if old(self)@.pos + e.len() <= usize::MAX {
                    &&& r matches Ok(n) && n == e.len()
                    &&& final(self)@ == old(self)@.pushed(e)
                } else {
                    r is Err
                },
                None => r is Err,
            },
    {
        value.push_obj(self)
    }

    /// Pops a value off the end of the bytes before the position.
    pub fn pop<T: SquashObject>(&mut self) -> (r: Result<T>)
        ensures
            match T::spec_decode(old(self)@.readable()) {
                Some((w, n)) => {
                    &&& r matches Ok(v) && v.deep_view() == w
                    &&& final(self)@ == old(self)@.popped(n)
                },
                None => r is Err,
            },
    {
        T::pop_obj(self)
    }
}

/// The bytes `value` is pushed as.
pub fn serialize<T: SquashObject>(value: T) -> (r: Result<Vec<u8>>)
    ensures
        match T::spec_encode(value.deep_view()) {
            Some(e) => if e.len() <= usize::MAX {
                r matches Ok(v) && v@ == e
            } else {
                r is Err
            },
            None => r is Err,
        },
{
    let mut cursor = SquashCursor::new();
    let ghost e = T::spec_encode(value.deep_view());
    let ghost c = cursor@;
    let r = cursor.push(value);
    match r {
        Ok(_) => {
            proof {
                assert(c == CursorView { bytes: Seq::<u8>::empty(), pos: 0 });
                assert(c.pushed(e->0).bytes =~= e->0);
            }
            Ok(cursor.into_inner())
        },
        Err(err) => Err(err),
    }
}

/// The value popped off the end of `data`.
pub fn deserialize<T: SquashObject>(data: Vec<u8>) -> (r: Result<T>)
    ensures
        match T::spec_decode(data@) {
            Some((w, _)) => r matches Ok(v) && v.deep_view() == w,
            None => r is Err,
        },
{
    let mut cursor = SquashCursor::from_vec(data);
    let _ = cursor.seek_end();
    proof {
        assert(cursor@.readable() =~= data@);
    }
    cursor.pop()
}

/// The byte a boolean is pushed as.
pub open spec fn bool_byte(b: bool) -> u8 {
    if b {
        1
    } else {
        0
    }
}

impl SquashObject for bool {
    open spec fn spec_encode(v: bool) -> Option<Seq<u8>> {
        u8::spec_encode(bool_byte(v))
    }

    open spec fn spec_decode(bytes: Seq<u8>) -> Option<(bool, nat)> {
        match u8::spec_decode(bytes) {
            Some((x, k)) => Some((x == 1, k)),
            None => None,
        }
    }

    open spec fn spec_roundtrips(v: bool) -> bool {
        true
    }

    proof fn lemma_decode_len(bytes: Seq<u8>) {
    }

    proof fn lemma_roundtrip(v: bool, prefix: Seq<u8>) {
        u8::lemma_roundtrip(bool_byte(v), prefix);
    }

    fn push_obj(self, cursor: &mut SquashCursor) -> Result<usize> {
        let value = if self {
            1_u8
        } else {
            0_u8
        };
        cursor.push(value)
    }

    fn pop_obj(cursor: &mut SquashCursor) -> Result<bool> {
        match cursor.pop::<u8>() {
            Ok(value) => Ok(value == 1),
            Err(e) => Err(e),
        }
    }
}

/// `None` is pushed as the byte `1` alone, like the flag after a `Some`
/// payload; popping a `1` pops a payload, so only `Some` values read back.
impl<T: SquashObject> SquashObject for Option<T> {
    open spec fn spec_encode(v: Option<<T as DeepView>::V>) -> Option<Seq<u8>> {
        match v {
            Some(x) => match T::spec_encode(x) {
                Some(e) => Some(e + u8::spec_encode(1)->0),
                None => None,
            },
            None => u8::spec_encode(1),
        }
    }

    open spec fn spec_decode(bytes: Seq<u8>) -> Option<(Option<<T as DeepView>::V>, nat)> {
        match u8::spec_decode(bytes) {
            Some((flag, k)) => if flag == 1 {
                match T::spec_decode(bytes.take(bytes.len() - k)) {
                    Some((x, m)) => Some((Some(x), k + m)),
                    None => None,
                }
            } else {
                Some((None, k))
            },
            None => None,
        }
    }

    open spec fn spec_roundtrips(v: Option<<T as DeepView>::V>) -> bool {
        &&& v is Some
        &&& T::spec_roundtrips(v->0)
    }

    proof fn lemma_decode_len(bytes: Seq<u8>) {
        if let Some((flag, k)) = u8::spec_decode(bytes) {
            T::lemma_decode_len(bytes.take(bytes.len() - k));
        }
    }

    proof fn lemma_roundtrip(v: Option<<T as DeepView>::V>, prefix: Seq<u8>) {
        let x = v->0;
        let e = T::spec_encode(x)->0;
        let one = u8::spec_encode(1)->0;
        u8::lemma_roundtrip(1, prefix + e);
        T::lemma_roundtrip(x, prefix);
        assert(prefix + (e + one) == (prefix + e) + one);
        let bytes = prefix + e + one;
        assert(bytes.take(bytes.len() - 1) =~= prefix + e);
    }

    fn push_obj(self, cursor: &mut SquashCursor) -> Result<usize> {
        let _ = cursor.position();
        let ghost start = cursor@;
        let ghost v = self.deep_view();
        let mut count: usize = 0;
        if let Some(x) = self {
            match cursor.push(x) {
                Ok(n) => {
                    count = n;
                },
                Err(e) => {
                    return Err(e);
                },
            }
        }
        let ghost mid = cursor@;
        match cursor.push(1_u8) {
            Ok(n) => {
                proof {
                    if let Some(x) = v {
                        lemma_pushed_pushed(start, T::spec_encode(x)->0, u8::spec_encode(1)->0);
                    }
                }
                Ok(count + n)
            },
            Err(e) => {
                proof {
                    if let Some(x) = v {
                        lemma_pushed_pushed(start, T::spec_encode(x)->0, u8::spec_encode(1)->0);
                    }
                }
                Err(e)
            },
        }
    }

    fn pop_obj(cursor: &mut SquashCursor) -> Result<Option<T>> {
        let _ = cursor.position();
        let ghost start = cursor@;
        let is_some = match cursor.pop::<u8>() {
            Ok(b) => b == 1,
            Err(e) => {
                return Err(e);
            },
        };
        if is_some {
            proof {
                lemma_popped(start, 1);
            }
            match T::pop_obj(cursor) {
                Ok(x) => Ok(Some(x)),
                Err(e) => Err(e),
            }
        } else {
            Ok(None)
        }
    }
}

/// The bytes of the items of `s` pushed one after another; `None` where one
/// of them cannot be pushed.
pub open spec fn items_encode<T: SquashObject>(s: Seq<<T as DeepView>::V>) -> Option<Seq<u8>>
    decreases s.len(),
{
    if s.len() == 0 {
        Some(Seq::empty())
    } else {
        match (items_encode::<T>(s.drop_last()), T::spec_encode(s.last())) {
            (Some(a), Some(b)) => Some(a + b),
            _ => None,
        }
    }
}

/// Popping `count` items one after another off the end of `bytes`: the items
/// in the order in which they come off, and the bytes they take.
pub open spec fn items_decode<T: SquashObject>(bytes: Seq<u8>, count: nat) -> Option<
    (Seq<<T as DeepView>::V>, nat),
>
    decreases count,
{
    if count == 0 {
        Some((Seq::empty(), 0))
    } else {
        match T::spec_decode(bytes) {
            Some((x, m)) => match items_decode::<T>(bytes.take(bytes.len() - m), (count - 1) as nat) {
                Some((xs, m2)) => Some((seq![x] + xs, m + m2)),
                None => None,
            },
            None => None,
        }
    }
}

/// Puts items already popped, and the bytes they took, in front of the outcome of popping more.
pub open spec fn prepend_items<V>(xs: Seq<V>, m: nat, rest: Option<(Seq<V>, nat)>) -> Option<(Seq<V>, nat)> {
    match rest {
        Some((ys, m2)) => Some((xs + ys, m + m2)),
        None => None,
    }
}

pub proof fn lemma_items_decode_len<T: SquashObject>(bytes: Seq<u8>, count: nat)
    ensures
        items_decode::<T>(bytes, count) matches Some((xs, m)) ==> m <= bytes.len() && xs.len() == count,
    decreases count,
{
    if count > 0 {
        T::lemma_decode_len(bytes);
        if let Some((x, m)) = T::spec_decode(bytes) {
            lemma_items_decode_len::<T>(bytes.take(bytes.len() - m), (count - 1) as nat);
        }
    }
}

/// Where the items of `s` can be pushed, so can those of every prefix, and
/// they take no more bytes.
pub proof fn lemma_items_encode_prefix<T: SquashObject>(s: Seq<<T as DeepView>::V>, i: int)
    requires
        0 <= i <= s.len(),
        items_encode::<T>(s) is Some,
    ensures
        items_encode::<T>(s.take(i)) is Some,
        items_encode::<T>(s.take(i))->0.len() <= items_encode::<T>(s)->0.len(),
        i < s.len() ==> T::spec_encode(s[i]) is Some,
        i < s.len() ==> items_encode::<T>(s.take(i))->0.len() + T::spec_encode(s[i])->0.len()
            <= items_encode::<T>(s)->0.len(),
    decreases s.len(),
{
    if i < s.len() {
        lemma_items_encode_prefix::<T>(s.drop_last(), i);
        assert(s.drop_last().take(i) =~= s.take(i));
        if i < s.len() - 1 {
            assert(s.drop_last()[i] == s[i]);
        } else {
            assert(s.drop_last() =~= s.take(i));
        }
    } else {
        assert(s.take(i) =~= s);
    }
}

/// The bytes of `items` pushed after `prefix` pop back as the items, last one first.
pub proof fn lemma_items_roundtrip<T: SquashObject>(s: Seq<<T as DeepView>::V>, prefix: Seq<u8>)
    requires
        items_encode::<T>(s) is Some,
        forall|i: int| 0 <= i < s.len() ==> T::spec_roundtrips(#[trigger] s[i]),
    ensures
        items_decode::<T>(prefix + items_encode::<T>(s)->0, s.len()) == Some(
            (s.reverse(), items_encode::<T>(s)->0.len()),
        ),
    decreases s.len(),
{
    if s.len() > 0 {
        let a = items_encode::<T>(s.drop_last())->0;
        let b = T::spec_encode(s.last())->0;
        let bytes = prefix + (a + b);
        T::lemma_roundtrip(s.last(), prefix + a);
        assert(bytes == (prefix + a) + b);
        assert(bytes.take(bytes.len() - b.len()) =~= prefix + a);
        assert forall|i: int| 0 <= i < s.drop_last().len() implies T::spec_roundtrips(#[trigger] s.drop_last()[i]) by {
            assert(s.drop_last()[i] == s[i]);
        }
        lemma_items_roundtrip::<T>(s.drop_last(), prefix);
        assert(seq![s.last()] + s.drop_last().reverse() =~= s.reverse());
    } else {
        assert(s.reverse() =~= s);
    }
}

/// A vector is pushed as its length (a VLQ) and then its items in order;
/// popping reads a VLQ off the end, then pops that many items, keeping them in
/// the order they come off. So only the empty vector is sure to read back.
impl<T: SquashObject> SquashObject for Vec<T> {
    open spec fn spec_encode(v: Seq<<T as DeepView>::V>) -> Option<Seq<u8>> {
        match (Vlq::spec_encode(v.len() as u64), items_encode::<T>(v)) {
            (Some(h), Some(b)) => Some(h + b),
            _ => None,
        }
    }

    open spec fn spec_decode(bytes: Seq<u8>) -> Option<(Seq<<T as DeepView>::V>, nat)> {
        match Vlq::spec_decode(bytes) {
            Some((n, k)) => match items_decode::<T>(bytes.take(bytes.len() - k), n as nat) {
                Some((xs, m)) => Some((xs, k + m)),
                None => None,
            },
            None => None,
        }
    }

    open spec fn spec_roundtrips(v: Seq<<T as DeepView>::V>) -> bool {
        v.len() == 0
    }

    proof fn lemma_decode_len(bytes: Seq<u8>) {
        Vlq::lemma_decode_len(bytes);
        if let Some((n, k)) = Vlq::spec_decode(bytes) {
            lemma_items_decode_len::<T>(bytes.take(bytes.len() - k), n as nat);
        }
    }

    proof fn lemma_roundtrip(v: Seq<<T as DeepView>::V>, prefix: Seq<u8>) {
        let h = Vlq::spec_encode(0)->0;
        Vlq::lemma_roundtrip(0, prefix);
        assert(items_encode::<T>(v) == Some(Seq::<u8>::empty()));
        assert(h + Seq::<u8>::empty() =~= h);
    }

    fn push_obj(self, cursor: &mut SquashCursor) -> Result<usize> {
        let _ = cursor.position();
        let ghost start = cursor@;
        let ghost v = self.deep_view();
        let ghost sv = self@;
        let len = self.len();
        let ghost h = Vlq::spec_encode(len as u64);
        let mut count = match cursor.push(Vlq(len as u64)) {
            Ok(n) => n,
            Err(e) => {
                proof {
                    if h is Some && items_encode::<T>(v) is Some {
                        lemma_items_encode_prefix::<T>(v, 0);
                    }
                }
                return Err(e);
            },
        };
        assert(items_encode::<T>(v.take(0)) == Some(Seq::<u8>::empty())) by {
            assert(v.take(0) =~= Seq::<<T as DeepView>::V>::empty());
        }
        assert(h->0 + Seq::<u8>::empty() =~= h->0);
        let mut vec = self;
        let mut rest: Vec<T> = Vec::new();
        assert(vec@ =~= sv.take(vec@.len() as int));
        assert(rest@ =~= sv.skip(vec@.len() as int).reverse());
        while vec.len() > 0
            invariant
                vec@.len() <= sv.len(),
                rest@ =~= sv.skip(vec@.len() as int).reverse(),
                vec@ == sv.take(vec@.len() as int),
            decreases vec@.len(),
        {
            let x = vec.pop().unwrap();
            rest.push(x);
            assert(vec@ =~= sv.take(vec@.len() as int));
            assert(rest@ =~= sv.skip(vec@.len() as int).reverse());
        }
        let mut i: usize = 0;
        while i < len
            invariant
                0 <= i <= len == sv.len() == v.len(),
                v == Seq::new(sv.len(), |j: int| sv[j].deep_view()),
                v == self.deep_view(),
                start == old(cursor)@,
                rest@ =~= sv.skip(i as int).reverse(),
                start.wf(),
                h == Vlq::spec_encode(len as u64),
                h is Some,
                items_encode::<T>(v.take(i as int)) is Some,
                cursor@ == start.pushed(h->0 + items_encode::<T>(v.take(i as int))->0),
                count == h->0.len() + items_encode::<T>(v.take(i as int))->0.len(),
                start.pos + count <= usize::MAX,
            decreases len - i,
        {
            let x = rest.pop().unwrap();
            assert(x == sv[i as int]);
            let ghost before = cursor@;
            let ghost p = items_encode::<T>(v.take(i as int))->0;
            proof {
                lemma_pushed_pushed(start, h->0, p);
                assert(v.take(i as int + 1).drop_last() =~= v.take(i as int));
            }
            match cursor.push(x) {
                Ok(n) => {
                    proof {
                        lemma_pushed_pushed(start, h->0 + p, T::spec_encode(v[i as int])->0);
                        assert(h->0 + p + T::spec_encode(v[i as int])->0 =~= h->0 + (p + T::spec_encode(v[i as int])->0));
                    }
                    count = count + n;
                },
                Err(e) => {
                    proof {
                        if items_encode::<T>(v) is Some {
                            lemma_items_encode_prefix::<T>(v, i as int);
                        }
                    }
                    return Err(e);
                },
            }
            i = i + 1;
        }
        assert(v.take(len as int) =~= v);
        Ok(count)
    }

    fn pop_obj(cursor: &mut SquashCursor) -> Result<Vec<T>> {
        let _ = cursor.position();
        let ghost start = cursor@;
        let ghost rd = start.readable();
        let len = match cursor.pop::<Vlq>() {
            Ok(n) => n.0,
            Err(e) => {
                return Err(e);
            },
        };
        let ghost k = Vlq::spec_decode(rd).unwrap().1;
        proof {
            Vlq::lemma_decode_len(rd);
            lemma_popped(start, k);
        }
        let ghost body = rd.take(rd.len() - k);
        let mut vec: Vec<T> = Vec::new();
        let ghost mut m: nat = 0;
        let mut i: u64 = 0;
        assert(prepend_items(vec.deep_view(), 0, items_decode::<T>(body, len as nat)) == items_decode::<T>(body, len as nat)) by {
            assert(vec.deep_view() =~= Seq::<<T as DeepView>::V>::empty());
            if let Some((xs, m2)) = items_decode::<T>(body, len as nat) {
                assert(Seq::<<T as DeepView>::V>::empty() + xs =~= xs);
            }
        }
        while i < len
            invariant
                0 <= i <= len,
                start.wf(),
                start == old(cursor)@,
                rd == start.readable(),
                Vlq::spec_decode(rd) == Some((len, k)),
                k <= rd.len(),
                k + m <= start.pos,
                body == rd.take(rd.len() - k),
                cursor@ == start.popped(k + m),
                cursor@.readable() == body.take(body.len() - m),
                vec@.len() == i,
                items_decode::<T>(body, len as nat) == prepend_items(
                    vec.deep_view(),
                    m,
                    items_decode::<T>(cursor@.readable(), (len - i) as nat),
                ),
            decreases len - i,
        {
            let ghost cur = cursor@;
            let ghost before_items = vec.deep_view();
            proof {
                T::lemma_decode_len(cur.readable());
            }
            match T::pop_obj(cursor) {
                Ok(x) => {
                    let ghost mm = T::spec_decode(cur.readable()).unwrap().1;
                    proof {
                        lemma_popped(start, k + m);
                        lemma_popped(cur, mm);
                        assert(cur.readable().take(cur.readable().len() - mm) =~= body.take(body.len() - (m + mm)));
                        let rest = items_decode::<T>(cursor@.readable(), (len - i - 1) as nat);
                        if let Some((ys, m2)) = rest {
                            assert(before_items + (seq![x.deep_view()] + ys) =~= (before_items.push(x.deep_view())) + ys);
                        }
                    }
                    vec.push(x);
                    proof {
                        assert(vec.deep_view() =~= before_items.push(x.deep_view()));
                        m = m + mm;
                    }
                },
                Err(e) => {
                    proof {
                        assert((len - i) as nat > 0);
                        assert(items_decode::<T>(cur.readable(), (len - i) as nat) is None);
                    }
                    return Err(e);
                },
            }
            i = i + 1;
        }
        proof {
            assert(items_decode::<T>(cursor@.readable(), 0) == Some((Seq::<<T as DeepView>::V>::empty(), 0nat)));
            assert(vec.deep_view() + Seq::<<T as DeepView>::V>::empty() =~= vec.deep_view());
        }
        Ok(vec)
    }
}

/// `String::from_utf8`: `Ok` with the string that `bytes` spell where they are
/// valid UTF-8, the error otherwise.
#[verifier::external_body]
pub(crate) fn string_from_utf8(bytes: Vec<u8>) -> (r: core::result::Result<String, std::string::FromUtf8Error>)
    ensures
        match r {
            Ok(s) => valid_utf8(bytes@) && s@ == decode_utf8(bytes@),
            Err(_) => !valid_utf8(bytes@),
        },
{
    String::from_utf8(bytes)
}

/// `char::to_string`: the string of the one character `c`.
#[verifier::external_body]
fn char_to_string(c: char) -> (s: String)
    ensures
        s@ == seq![c],
{
    c.to_string()
}

/// The first character of `s`, if it has one.
fn first_char(s: &str) -> (r: Option<char>)
    ensures
        r == (if s@.len() == 0 {
            None
        } else {
            Some(s@[0])
        }),
{
    broadcast use vstd::string::axiom_spec_iter, vstd::string::next_postcondition;

    let mut chars = s.chars();
    chars.next()
}

/// The UTF-8 bytes of a string that `bytes` pop as: a VLQ byte count off
/// the end, then that many bytes before it, which must be valid UTF-8.
pub open spec fn string_decode(bytes: Seq<u8>) -> Option<(Seq<char>, nat)> {
    match Vlq::spec_decode(bytes) {
        Some((n, k)) => {
            let rest = bytes.take(bytes.len() - k);
            if n <= rest.len() {
                let raw = rest.skip(rest.len() - n);
                if valid_utf8(raw) {
                    Some((decode_utf8(raw), k + n as nat))
                } else {
                    None
                }
            } else {
                None
            }
        },
        None => None,
    }
}

/// A string is pushed as its UTF-8 bytes followed by their count as a VLQ.
impl SquashObject for String {
    open spec fn spec_encode(v: Seq<char>) -> Option<Seq<u8>> {
        if encode_utf8(v).len() > u64::MAX {
            None
        } else {
            match Vlq::spec_encode(encode_utf8(v).len() as u64) {
                Some(h) => Some(encode_utf8(v) + h),
                None => None,
            }
        }
    }

    open spec fn spec_decode(bytes: Seq<u8>) -> Option<(Seq<char>, nat)> {
        string_decode(bytes)
    }

    open spec fn spec_roundtrips(v: Seq<char>) -> bool {
        true
    }

    proof fn lemma_decode_len(bytes: Seq<u8>) {
        Vlq::lemma_decode_len(bytes);
    }

    proof fn lemma_roundtrip(v: Seq<char>, prefix: Seq<u8>) {
        let raw = encode_utf8(v);
        let h = Vlq::spec_encode(raw.len() as u64)->0;
        Vlq::lemma_roundtrip(raw.len() as u64, prefix + raw);
        let bytes = prefix + (raw + h);
        assert(bytes == (prefix + raw) + h);
        let rest = bytes.take(bytes.len() - h.len());
        assert(rest =~= prefix + raw);
        assert(rest.skip(rest.len() - raw.len()) =~= raw);
        encode_utf8_valid_utf8(v);
        encode_utf8_decode_utf8(v);
    }

    fn push_obj(self, cursor: &mut SquashCursor) -> Result<usize> {
        let _ = cursor.position();
        let ghost start = cursor@;
        let bytes = self.as_str().as_bytes();
        let len = Vlq(bytes.len() as u64);
        let ghost raw = encode_utf8(self@);
        let mut count = match cursor.write(bytes) {
            Ok(n) => n,
            Err(e) => {
                return Err(e);
            },
        };
        match cursor.push(len) {
            Ok(n) => {
                proof {
                    lemma_pushed_pushed(start, raw, Vlq::spec_encode(raw.len() as u64)->0);
                }
                count = count + n;
                Ok(count)
            },
            Err(e) => {
                proof {
                    lemma_pushed_pushed(start, raw, Vlq::spec_encode(raw.len() as u64)->0);
                }
                Err(e)
            },
        }
    }

    fn pop_obj(cursor: &mut SquashCursor) -> Result<String> {
        let _ = cursor.position();
        let ghost start = cursor@;
        let ghost rd = start.readable();
        let len = match cursor.pop::<Vlq>() {
            Ok(n) => n.0,
            Err(e) => {
                return Err(e);
            },
        };
        let ghost k = Vlq::spec_decode(rd).unwrap().1;
        proof {
            Vlq::lemma_decode_len(rd);
            lemma_popped(start, k);
        }
        let remaining = cursor.position();
        if len > remaining as u64 {
            return Err(Error::Io(IoError::SeekBeforeStart));
        }
        let mut buf: Vec<u8> = vec![0u8; len as usize];
        match cursor.pop_read(buf.as_mut_slice()) {
            Ok(_) => {},
            Err(e) => {
                return Err(e);
            },
        }
        proof {
            lemma_popped(start, k);
            let rest = rd.take(rd.len() - k);
            assert(buf@ =~= rest.skip(rest.len() - len));
        }
        match string_from_utf8(buf) {
            Ok(s) => Ok(s),
            Err(e) => Err(Error::Utf8(e)),
        }
    }
}

/// A character is pushed as the string of that one character.
impl SquashObject for char {
    open spec fn spec_encode(v: char) -> Option<Seq<u8>> {
        String::spec_encode(seq![v])
    }

    open spec fn spec_decode(bytes: Seq<u8>) -> Option<(char, nat)> {
        match String::spec_decode(bytes) {
            Some((s, k)) => if s.len() > 0 {
                Some((s[0], k))
            } else {
                None
            },
            None => None,
        }
    }

    open spec fn spec_roundtrips(v: char) -> bool {
        true
    }

    proof fn lemma_decode_len(bytes: Seq<u8>) {
        String::lemma_decode_len(bytes);
    }

    proof fn lemma_roundtrip(v: char, prefix: Seq<u8>) {
        String::lemma_roundtrip(seq![v], prefix);
    }

    fn push_obj(self, cursor: &mut SquashCursor) -> Result<usize> {
        char_to_string(self).push_obj(cursor)
    }

    fn pop_obj(cursor: &mut SquashCursor) -> Result<char> {
        let s = match String::pop_obj(cursor) {
            Ok(s) => s,
            Err(e) => {
                return Err(e);
            },
        };
        match first_char(s.as_str()) {
            Some(c) => Ok(c),
            None => Err(Error::CharMissing),
        }
    }
}

} // verus!
