use vstd::prelude::*;

use crate::cursor::{lemma_popped, lemma_pushed_pushed, SquashCursor};
use crate::error::Result;
use crate::num::SquashNumber;
use crate::object::SquashObject;

verus! {

/// A range of numbers.
#[derive(Copy, Clone, PartialEq, PartialOrd, Debug, Default)]
pub struct NumberRange<T: SquashNumber> {
    pub min: T,
    pub max: T,
}

/// The deep view lists the fields in the order in which they are pushed.
impl<T: SquashNumber> DeepView for NumberRange<T> {
    type V = (<T as DeepView>::V, <T as DeepView>::V);

    open spec fn deep_view(&self) -> (<T as DeepView>::V, <T as DeepView>::V) {
        (self.max.deep_view(), self.min.deep_view())
    }
}

impl<T: SquashNumber> SquashObject for NumberRange<T> {
    open spec fn spec_encode(v: (<T as DeepView>::V, <T as DeepView>::V)) -> Option<Seq<u8>> {
        match (<T as SquashObject>::spec_encode(v.0), <T as SquashObject>::spec_encode(v.1)) {
            (Some(e0), Some(e1)) => Some(e0 + e1),
            _ => None,
        }
    }

    open spec fn spec_decode(bytes: Seq<u8>) -> Option<((<T as DeepView>::V, <T as DeepView>::V), nat)> {
        let b1 = bytes;
        match <T as SquashObject>::spec_decode(b1) {
            Some((x1, n1)) => {
                let b0 = b1.take(b1.len() - n1);
                match <T as SquashObject>::spec_decode(b0) {
                    Some((x0, n0)) => {
                        Some(((x0, x1), n0 + n1))
                    },
                    None => None,
                }
            },
            None => None,
        }
    }

    open spec fn spec_roundtrips(v: (<T as DeepView>::V, <T as DeepView>::V)) -> bool {
        &&& <T as SquashObject>::spec_roundtrips(v.0)
        &&& <T as SquashObject>::spec_roundtrips(v.1)
    }

    proof fn lemma_decode_len(bytes: Seq<u8>) {
        let b1 = bytes;
        <T as SquashObject>::lemma_decode_len(b1);
        if let Some((_, n1)) = <T as SquashObject>::spec_decode(b1) {
            let b0 = b1.take(b1.len() - n1);
            <T as SquashObject>::lemma_decode_len(b0);
        }
    }

    proof fn lemma_roundtrip(v: (<T as DeepView>::V, <T as DeepView>::V), prefix: Seq<u8>) {
        let e0 = <T as SquashObject>::spec_encode(v.0)->0;
        let e1 = <T as SquashObject>::spec_encode(v.1)->0;
        let p0 = prefix;
        let p1 = p0 + e0;
        <T as SquashObject>::lemma_roundtrip(v.0, p0);
        <T as SquashObject>::lemma_roundtrip(v.1, p1);
        let all = prefix + (e0 + e1);
        assert(all =~= p1 + e1);
        assert((p1 + e1).take((p1 + e1).len() - e1.len()) =~= p1);
    }

    fn push_obj(self, cursor: &mut SquashCursor) -> Result<usize> {
        let _ = cursor.position();
        let ghost start = cursor@;
        let ghost v = self.deep_view();
        let NumberRange { min, max } = self;
        let n0 = match cursor.push(max) {
            Ok(n) => n,
            Err(e) => {
                return Err(e);
            },
        };
        let _ = cursor.position();
        let n1 = match cursor.push(min) {
            Ok(n) => n,
            Err(e) => {
                return Err(e);
            },
        };
        let _ = cursor.position();
        proof {
            let e0 = <T as SquashObject>::spec_encode(v.0)->0;
            let e1 = <T as SquashObject>::spec_encode(v.1)->0;
            lemma_pushed_pushed(start, e0, e1);
        }
        Ok(n0 + n1)
    }

    fn pop_obj(cursor: &mut SquashCursor) -> Result<NumberRange<T>> {
        let _ = cursor.position();
        let ghost c1 = cursor@;
        let min = match cursor.pop::<T>() {
            Ok(x) => x,
            Err(e) => {
                return Err(e);
            },
        };
        proof {
            <T as SquashObject>::lemma_decode_len(c1.readable());
            lemma_popped(c1, <T as SquashObject>::spec_decode(c1.readable()).unwrap().1);
        }
        let ghost c0 = cursor@;
        let max = match cursor.pop::<T>() {
            Ok(x) => x,
            Err(e) => {
                return Err(e);
            },
        };
        Ok(NumberRange { min, max })
    }
}

/// A number with an envelope at a point in time.
#[derive(Copy, Clone, PartialEq, PartialOrd, Debug, Default)]
pub struct NumberSequenceKeypoint<T: SquashNumber> {
    pub value: T,
    pub envelope: T,
    pub time: u8,
}

/// The deep view lists the fields in the order in which they are pushed.
impl<T: SquashNumber> DeepView for NumberSequenceKeypoint<T> {
    type V = (<T as DeepView>::V, <T as DeepView>::V, <u8 as DeepView>::V);

    open spec fn deep_view(&self) -> (<T as DeepView>::V, <T as DeepView>::V, <u8 as DeepView>::V) {
        (self.value.deep_view(), self.envelope.deep_view(), self.time.deep_view())
    }
}

impl<T: SquashNumber> SquashObject for NumberSequenceKeypoint<T> {
    open spec fn spec_encode(v: (<T as DeepView>::V, <T as DeepView>::V, <u8 as DeepView>::V)) -> Option<Seq<u8>> {
        match (<T as SquashObject>::spec_encode(v.0), <T as SquashObject>::spec_encode(v.1), <u8 as SquashObject>::spec_encode(v.2)) {
            (Some(e0), Some(e1), Some(e2)) => Some(e0 + e1 + e2),
            _ => None,
        }
    }

    open spec fn spec_decode(bytes: Seq<u8>) -> Option<((<T as DeepView>::V, <T as DeepView>::V, <u8 as DeepView>::V), nat)> {
        let b2 = bytes;
        match <u8 as SquashObject>::spec_decode(b2) {
            Some((x2, n2)) => {
                let b1 = b2.take(b2.len() - n2);
                match <T as SquashObject>::spec_decode(b1) {
                    Some((x1, n1)) => {
                        let b0 = b1.take(b1.len() - n1);
                        match <T as SquashObject>::spec_decode(b0) {
                            Some((x0, n0)) => {
                                Some(((x0, x1, x2), n0 + n1 + n2))
                            },
                            None => None,
                        }
                    },
                    None => None,
                }
            },
            None => None,
        }
    }

    open spec fn spec_roundtrips(v: (<T as DeepView>::V, <T as DeepView>::V, <u8 as DeepView>::V)) -> bool {
        &&& <T as SquashObject>::spec_roundtrips(v.0)
        &&& <T as SquashObject>::spec_roundtrips(v.1)
        &&& <u8 as SquashObject>::spec_roundtrips(v.2)
    }

    proof fn lemma_decode_len(bytes: Seq<u8>) {
        let b2 = bytes;
        <u8 as SquashObject>::lemma_decode_len(b2);
        if let Some((_, n2)) = <u8 as SquashObject>::spec_decode(b2) {
            let b1 = b2.take(b2.len() - n2);
            <T as SquashObject>::lemma_decode_len(b1);
            if let Some((_, n1)) = <T as SquashObject>::spec_decode(b1) {
                let b0 = b1.take(b1.len() - n1);
                <T as SquashObject>::lemma_decode_len(b0);
            }
        }
    }

    proof fn lemma_roundtrip(v: (<T as DeepView>::V, <T as DeepView>::V, <u8 as DeepView>::V), prefix: Seq<u8>) {
        let e0 = <T as SquashObject>::spec_encode(v.0)->0;
        let e1 = <T as SquashObject>::spec_encode(v.1)->0;
        let e2 = <u8 as SquashObject>::spec_encode(v.2)->0;
        let p0 = prefix;
        let p1 = p0 + e0;
        let p2 = p1 + e1;
        <T as SquashObject>::lemma_roundtrip(v.0, p0);
        <T as SquashObject>::lemma_roundtrip(v.1, p1);
        <u8 as SquashObject>::lemma_roundtrip(v.2, p2);
        let all = prefix + (e0 + e1 + e2);
        assert(all =~= p2 + e2);
        assert((p2 + e2).take((p2 + e2).len() - e2.len()) =~= p2);
        assert((p1 + e1).take((p1 + e1).len() - e1.len()) =~= p1);
    }

    fn push_obj(self, cursor: &mut SquashCursor) -> Result<usize> {
        let _ = cursor.position();
        let ghost start = cursor@;
        let ghost v = self.deep_view();
        let NumberSequenceKeypoint { value, envelope, time } = self;
        let n0 = match cursor.push(value) {
            Ok(n) => n,
            Err(e) => {
                return Err(e);
            },
        };
        let _ = cursor.position();
        let n1 = match cursor.push(envelope) {
            Ok(n) => n,
            Err(e) => {
                return Err(e);
            },
        };
        let _ = cursor.position();
        let n2 = match cursor.push(time) {
            Ok(n) => n,
            Err(e) => {
                return Err(e);
            },
        };
        let _ = cursor.position();
        proof {
            let e0 = <T as SquashObject>::spec_encode(v.0)->0;
            let e1 = <T as SquashObject>::spec_encode(v.1)->0;
            let e2 = <u8 as SquashObject>::spec_encode(v.2)->0;
            lemma_pushed_pushed(start, e0, e1);
            lemma_pushed_pushed(start, e0 + e1, e2);
        }
        Ok(n0 + n1 + n2)
    }

    fn pop_obj(cursor: &mut SquashCursor) -> Result<NumberSequenceKeypoint<T>> {
        let _ = cursor.position();
        let ghost c2 = cursor@;
        let time = match cursor.pop::<u8>() {
            Ok(x) => x,
            Err(e) => {
                return Err(e);
            },
        };
        proof {
            <u8 as SquashObject>::lemma_decode_len(c2.readable());
            lemma_popped(c2, <u8 as SquashObject>::spec_decode(c2.readable()).unwrap().1);
        }
        let ghost c1 = cursor@;
        let envelope = match cursor.pop::<T>() {
            Ok(x) => x,
            Err(e) => {
                return Err(e);
            },
        };
        proof {
            <T as SquashObject>::lemma_decode_len(c1.readable());
            lemma_popped(c1, <T as SquashObject>::spec_decode(c1.readable()).unwrap().1);
        }
        let ghost c0 = cursor@;
        let value = match cursor.pop::<T>() {
            Ok(x) => x,
            Err(e) => {
                return Err(e);
            },
        };
        Ok(NumberSequenceKeypoint { value, envelope, time })
    }
}

/// A sequence of number keypoints.
#[derive(Clone, PartialEq, PartialOrd, Debug, Default)]
pub struct NumberSequence<T: SquashNumber>(pub Vec<NumberSequenceKeypoint<T>>);

impl<T: SquashNumber> DeepView for NumberSequence<T> {
    type V = <Vec<NumberSequenceKeypoint<T>> as DeepView>::V;

    open spec fn deep_view(&self) -> <Vec<NumberSequenceKeypoint<T>> as DeepView>::V {
        self.0.deep_view()
    }
}

impl<T: SquashNumber> SquashObject for NumberSequence<T> {
    open spec fn spec_encode(v: <Vec<NumberSequenceKeypoint<T>> as DeepView>::V) -> Option<Seq<u8>> {
        <Vec<NumberSequenceKeypoint<T>> as SquashObject>::spec_encode(v)
    }

    open spec fn spec_decode(bytes: Seq<u8>) -> Option<(<Vec<NumberSequenceKeypoint<T>> as DeepView>::V, nat)> {
        <Vec<NumberSequenceKeypoint<T>> as SquashObject>::spec_decode(bytes)
    }

    open spec fn spec_roundtrips(v: <Vec<NumberSequenceKeypoint<T>> as DeepView>::V) -> bool {
        <Vec<NumberSequenceKeypoint<T>> as SquashObject>::spec_roundtrips(v)
    }

    proof fn lemma_decode_len(bytes: Seq<u8>) {
        <Vec<NumberSequenceKeypoint<T>> as SquashObject>::lemma_decode_len(bytes);
    }

    proof fn lemma_roundtrip(v: <Vec<NumberSequenceKeypoint<T>> as DeepView>::V, prefix: Seq<u8>) {
        <Vec<NumberSequenceKeypoint<T>> as SquashObject>::lemma_roundtrip(v, prefix);
    }

    fn push_obj(self, cursor: &mut SquashCursor) -> Result<usize> {
        cursor.push(self.0)
    }

    fn pop_obj(cursor: &mut SquashCursor) -> Result<NumberSequence<T>> {
        match cursor.pop::<Vec<NumberSequenceKeypoint<T>>>() {
            Ok(x) => Ok(NumberSequence(x)),
            Err(e) => Err(e),
        }
    }
}

/// A `NumberRange` is written field by field: `max`, then `min`, each as its own type
/// writes it, one after another.
pub proof fn lemma_number_range_layout<T: SquashNumber>(r: NumberRange<T>)
    ensures
        NumberRange::<T>::spec_encode(r.deep_view()) == (match (<T as SquashObject>::spec_encode(r.max.deep_view()), <T as SquashObject>::spec_encode(r.min.deep_view())) {
            (Some(e0), Some(e1)) => Some(e0 + e1),
            _ => None,
        }),
{
}

/// A `NumberSequenceKeypoint` is written field by field: `value`, then `envelope`, then `time`, each as its own type
/// writes it, one after another.
pub proof fn lemma_number_sequence_keypoint_layout<T: SquashNumber>(r: NumberSequenceKeypoint<T>)
    ensures
        NumberSequenceKeypoint::<T>::spec_encode(r.deep_view()) == (match (<T as SquashObject>::spec_encode(r.value.deep_view()), <T as SquashObject>::spec_encode(r.envelope.deep_view()), <u8 as SquashObject>::spec_encode(r.time.deep_view())) {
            (Some(e0), Some(e1), Some(e2)) => Some(e0 + e1 + e2),
            _ => None,
        }),
{
}

/// A `NumberSequence` is written as the value it wraps.
pub proof fn lemma_number_sequence_layout<T: SquashNumber>(r: NumberSequence<T>)
    ensures
        NumberSequence::<T>::spec_encode(r.deep_view()) == (<Vec<NumberSequenceKeypoint<T>> as SquashObject>::spec_encode(r.0.deep_view())),
{
}

} // verus!
