use vstd::prelude::*;

use crate::codec::SerDes;
use crate::cursor::SquashCursor;
use crate::error::{err_literal_index, err_literal_range, err_not_literal, Error, Result};
use crate::object::lemma_u8_spec;
use vstd::pervasive::strictly_cloned;
use vstd::std_specs::cmp::PartialEqSpec;

verus! {

/// The index of the first of `s[i..]` that equals `v`, or `s.len()` where none does.
pub open spec fn find_from<T: PartialEq>(s: Seq<T>, v: T, i: nat) -> nat
    decreases s.len() - i,
{
    if i >= s.len() {
        s.len()
    } else if s[i as int].eq_spec(&v) {
        i
    } else {
        find_from(s, v, i + 1)
    }
}

/// The index of the first element of `s` that equals `v`, or `s.len()` where none does.
pub open spec fn first_match<T: PartialEq>(s: Seq<T>, v: T) -> nat {
    find_from(s, v, 0)
}

pub proof fn lemma_find_from_bound<T: PartialEq>(s: Seq<T>, v: T, i: nat)
    ensures
        find_from(s, v, i) <= s.len(),
        find_from(s, v, i) < s.len() ==> s[find_from(s, v, i) as int].eq_spec(&v),
    decreases s.len() - i,
{
    if i < s.len() && !s[i as int].eq_spec(&v) {
        lemma_find_from_bound(s, v, i + 1);
    }
}

/// One of a fixed set of values, written as its index in the set in one byte.
#[derive(Clone, Debug, Default)]
pub struct Literal<T>(pub Vec<T>);

impl<T: PartialEq + Clone + DeepView> SerDes for Literal<T> {
    type Value = T;

    /// `==` on `T` follows its specification, and a clone has the deep view
    /// of what it was cloned from.
    open spec fn spec_valid(&self) -> bool {
        &&& T::obeys_eq_spec()
        &&& forall|a: T, b: T| #[trigger] strictly_cloned(a, b) ==> a.deep_view() == b.deep_view()
    }

    /// The index of the first equal entry of the set; `None` where no entry
    /// equals `v` or the index does not fit in a byte.
    open spec fn spec_encode(&self, v: T) -> Option<Seq<u8>> {
        let i = first_match(self.0@, v);
        if i < self.0@.len() && i <= 255 {
            Some(seq![i as u8])
        } else {
            None
        }
    }

    open spec fn spec_decode(&self, bytes: Seq<u8>) -> Option<(<T as DeepView>::V, nat)> {
        if bytes.len() == 0 || bytes.last() >= self.0@.len() {
            None
        } else {
            Some((self.0@[bytes.last() as int].deep_view(), 1))
        }
    }

    /// The first entry of the set that equals `v`.
    open spec fn spec_readback(&self, v: T) -> <T as DeepView>::V {
        self.0@[first_match(self.0@, v) as int].deep_view()
    }

    open spec fn spec_roundtrips(&self, v: T, prefix_len: nat) -> bool {
        true
    }

    proof fn lemma_decode_len(&self, bytes: Seq<u8>) {
    }

    proof fn lemma_roundtrip(&self, v: T, prefix: Seq<u8>) {
        let i = first_match(self.0@, v);
        assert((prefix + seq![i as u8]).last() == i as u8);
    }

    /// A value that no entry equals, or whose index does not fit in a byte,
    /// is refused with a `Custom` error before anything is written.
    fn ser(&self, cursor: &mut SquashCursor, value: &T) -> (r: Result<usize>)
        ensures
            (T::obeys_eq_spec() && self.spec_encode(*value) is None) ==> (r matches Err(Error::Custom(_))
                && final(cursor)@ == old(cursor)@),
    {
        let ghost s = self.0@;
        let mut i: usize = 0;
        while i < self.0.len()
            invariant
                s == self.0@,
                i <= s.len(),
                T::obeys_eq_spec() ==> find_from(s, *value, i as nat) == first_match(s, *value),
            ensures
                i <= s.len(),
                T::obeys_eq_spec() ==> i as nat == first_match(s, *value),
            decreases s.len() - i,
        {
            if self.0[i].eq(value) {
                break;
            }
            i = i + 1;
        }
        if i == self.0.len() {
            return Err(err_not_literal());
        }
        if i > 255 {
            return Err(err_literal_index(self.0.len(), i));
        }
        proof {
            lemma_u8_spec(i as u8, Seq::empty());
        }
        cursor.push(i as u8)
    }

    /// An index past the last entry is refused with a `Custom` error.
    fn des(&self, cursor: &mut SquashCursor) -> (r: Result<T>)
        ensures
            (old(cursor)@.readable().len() > 0 && old(cursor)@.readable().last() >= self.0@.len())
                ==> r matches Err(Error::Custom(_)),
    {
        proof {
            lemma_u8_spec(0, cursor@.readable());
        }
        let idx = match cursor.pop::<u8>() {
            Ok(b) => b as usize,
            Err(e) => {
                return Err(e);
            },
        };
        if idx < self.0.len() {
            let v = self.0[idx].clone();
            proof {
                assert(strictly_cloned(self.0@[idx as int], v));
            }
            Ok(v)
        } else {
            Err(err_literal_range(idx))
        }
    }
}

/// A literal writes, as one byte, the least index whose entry equals the
/// value; it writes nothing where no entry equals the value or that index
/// is above 255.
pub proof fn lemma_literal_least_index<T: PartialEq + Clone + DeepView>(l: Literal<T>, v: T)
    ensures
        l.spec_encode(v) matches Some(e) ==> e.len() == 1 && e[0] < l.0@.len() && l.0@[e[0] as int].eq_spec(&v)
            && forall|j: int| 0 <= j < e[0] ==> !(#[trigger] l.0@[j]).eq_spec(&v),
        l.spec_encode(v) is None ==> (forall|j: int| 0 <= j < l.0@.len() && j <= 255 ==> !(#[trigger] l.0@[j]).eq_spec(&v)),
{
    lemma_find_least(l.0@, v, 0);
}

proof fn lemma_find_least<T: PartialEq>(s: Seq<T>, v: T, i: nat)
    ensures
        find_from(s, v, i) <= s.len(),
        find_from(s, v, i) < s.len() ==> s[find_from(s, v, i) as int].eq_spec(&v),
        forall|j: int| i <= j < find_from(s, v, i) ==> !(#[trigger] s[j]).eq_spec(&v),
    decreases s.len() - i,
{
    if i < s.len() && !s[i as int].eq_spec(&v) {
        lemma_find_least(s, v, i + 1);
    }
}

} // verus!
