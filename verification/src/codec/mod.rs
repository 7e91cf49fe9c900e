use vstd::prelude::*;

use crate::cursor::{CursorView, SquashCursor};
use crate::error::{err_usize, Error, Result};

pub use self::array::{Array, ArrayLen, ArrayN};
pub use self::bits::{pop_bits, push_bits, BitArray, BitArrayN};
pub use self::buffer::{Buf, BufN};
pub use self::literal::Literal;
pub use self::map::MapCodec;
pub use self::opt::Opt;
pub use self::prim::{Bool, VlqCodec, I16, I24, I32, I40, I48, I56, I64, I8, U16, U24, U32, U40, U48, U56, U64, U8};
pub use self::range::{Range, Uint};
pub use self::string::{Str, StrN};

pub mod array;
pub mod bits;
pub mod buffer;
pub mod literal;
pub mod map;
pub mod opt;
pub mod prim;
pub mod range;
pub mod record;
pub mod string;
pub mod tuple;

verus! {

/// A codec: a way of pushing values of one type onto a cursor and popping
/// them back off it.
///
/// `spec_encode` gives the bytes that pushing a value writes (`None` where
/// pushing fails); `spec_decode` reads off the end of the bytes before the
/// cursor, giving the deep view of the value popped and the number of bytes it
/// takes (`None` where popping fails). `spec_readback` is what popping gives
/// back for a value that was pushed, for the values and prefix lengths of
/// `spec_roundtrips`. What pushing and popping do is stated where the codec
/// is `spec_valid`: where the types it is built on follow the models that
/// those statements rest on (a key model for hash maps, `==` and `clone` for
/// literals). Every codec may be called on every input.
pub trait SerDes {
    type Value: DeepView;

    spec fn spec_valid(&self) -> bool;

    spec fn spec_encode(&self, v: Self::Value) -> Option<Seq<u8>>;

    spec fn spec_decode(&self, bytes: Seq<u8>) -> Option<(<Self::Value as DeepView>::V, nat)>;

    spec fn spec_readback(&self, v: Self::Value) -> <Self::Value as DeepView>::V;

    spec fn spec_roundtrips(&self, v: Self::Value, prefix_len: nat) -> bool;

    /// Popping never takes more bytes than there are.
    proof fn lemma_decode_len(&self, bytes: Seq<u8>)
        ensures
            self.spec_decode(bytes) matches Some((_, n)) ==> n <= bytes.len(),
    ;

    /// The bytes a value is pushed as pop back as its readback, taking
    /// exactly those bytes.
    proof fn lemma_roundtrip(&self, v: Self::Value, prefix: Seq<u8>)
        requires
            self.spec_valid(),
            self.spec_encode(v) is Some,
            self.spec_roundtrips(v, prefix.len()),
        ensures
            self.spec_decode(prefix + self.spec_encode(v)->0) == Some(
                (self.spec_readback(v), self.spec_encode(v)->0.len()),
            ),
    ;

    fn ser(&self, cursor: &mut SquashCursor, value: &Self::Value) -> (r: Result<usize>)
        ensures
            r matches Ok(n) ==> final(cursor)@.pos == old(cursor)@.pos + n,
            self.spec_valid() ==> match self.spec_encode(*value) {
                Some(e) => if old(cursor)@.pos + e.len() <= usize::MAX {
                    &&& r matches Ok(n) && n == e.len()
                    &&& final(cursor)@ == old(cursor)@.pushed(e)
                } else {
                    r is Err
                },
                None => r is Err,
            },
    ;

    fn des(&self, cursor: &mut SquashCursor) -> (r: Result<Self::Value>)
        ensures
            self.spec_valid() ==> match self.spec_decode(old(cursor)@.readable()) {
                Some((w, n)) => {
                    &&& r matches Ok(v) && v.deep_view() == w
                    &&& final(cursor)@ == old(cursor)@.popped(n)
                },
                None => r is Err,
            },
    ;
}

/// What `to_bytes` writes of a value, `from_bytes` reads back as the value's
/// readback, for each value that reads back after no other bytes.
pub proof fn lemma_to_bytes_from_bytes<S: SerDes>(sd: &S, v: S::Value)
    requires
        sd.spec_valid(),
        sd.spec_encode(v) is Some,
        sd.spec_roundtrips(v, 0),
    ensures
        sd.spec_decode(sd.spec_encode(v)->0) == Some((sd.spec_readback(v), sd.spec_encode(v)->0.len())),
{
    let e = sd.spec_encode(v)->0;
    sd.lemma_roundtrip(v, Seq::empty());
    assert(Seq::<u8>::empty() + e =~= e);
}

/// The bytes `value` is written as by `sd`.
pub fn to_bytes<S: SerDes>(sd: &S, value: &S::Value) -> (r: Result<Vec<u8>>)
    ensures
        sd.spec_valid() ==> match sd.spec_encode(*value) {
            Some(e) => if e.len() <= usize::MAX {
                r matches Ok(v) && v@ == e
            } else {
                r is Err
            },
            None => r is Err,
        },
{
    let mut cursor = SquashCursor::new();
    let ghost c = cursor@;
    match sd.ser(&mut cursor, value) {
        Ok(_) => {
            proof {
                if sd.spec_valid() {
                    let e = sd.spec_encode(*value)->0;
                    assert(c == CursorView { bytes: Seq::<u8>::empty(), pos: 0 });
                    assert(c.pushed(e).bytes =~= e);
                }
            }
            Ok(cursor.into_inner())
        },
        Err(e) => Err(e),
    }
}

/// The value that `sd` reads off the end of `data`.
pub fn from_bytes<S: SerDes>(sd: &S, data: Vec<u8>) -> (r: Result<S::Value>)
    ensures
        sd.spec_valid() ==> match sd.spec_decode(data@) {
            Some((w, _)) => r matches Ok(v) && v.deep_view() == w,
            None => r is Err,
        },
{
    let mut cursor = SquashCursor::from_vec(data);
    let _ = cursor.seek_end();
    proof {
        assert(cursor@.readable() =~= data@);
    }
    sd.des(&mut cursor)
}

/// A count read off the wire as a `usize`; an error where it does not fit.
pub(crate) fn vlq_to_usize(len: u64) -> (r: Result<usize>)
    ensures
        len <= usize::MAX ==> r == Ok::<usize, Error>(len as usize),
        len > usize::MAX ==> (r matches Err(e) && e is Custom),
{
    if len <= usize::MAX as u64 {
        Ok(len as usize)
    } else {
        Err(err_usize(len))
    }
}

/// An optional value of `inner`.
pub fn opt<S: SerDes>(inner: S) -> (r: Opt<S>)
    ensures
        r.0 == inner,
{
    Opt(inner)
}

/// A variable-length array of `inner`.
pub fn array<S: SerDes>(inner: S) -> (r: Array<S>)
    ensures
        r.0 == inner,
{
    Array(inner)
}

/// An array of exactly `n` values of `inner`.
pub fn array_n<S: SerDes>(inner: S, n: usize) -> (r: ArrayN<S>)
    ensures
        r.0 == inner,
        r.1 == n,
{
    ArrayN(inner, n)
}

/// A map with keys of `key` and values of `value`.
pub fn map<K: SerDes, V: SerDes>(key: K, value: V) -> (r: MapCodec<K, V>)
    ensures
        r.0 == key,
        r.1 == value,
{
    MapCodec(key, value)
}

/// A variable-length string.
pub fn string() -> (r: Str)
    ensures
        r == Str,
{
    Str
}

/// A string of exactly `n` bytes.
pub fn string_n(n: usize) -> (r: StrN)
    ensures
        r.0 == n,
{
    StrN(n)
}

/// A variable-length byte buffer.
pub fn buffer() -> (r: Buf)
    ensures
        r == Buf,
{
    Buf
}

/// A byte buffer of exactly `n` bytes.
pub fn buffer_n(n: usize) -> (r: BufN)
    ensures
        r.0 == n,
{
    BufN(n)
}

/// An integer in `[min, max]`.
pub fn range(min: i64, max: i64) -> (r: Range)
    requires
        min <= max,
    ensures
        r.min == min,
        r.max == max,
{
    Range::new(min, max)
}

/// A VLQ-encoded unsigned integer.
pub fn vlq() -> (r: VlqCodec)
    ensures
        r == VlqCodec,
{
    VlqCodec
}

/// One of `values`, written as its index.
pub fn literal<T: PartialEq + Clone + DeepView>(values: Vec<T>) -> (r: Literal<T>)
    ensures
        r.0@ == values@,
{
    Literal(values)
}

} // verus!
