use vstd::prelude::*;

use crate::cursor::{lemma_popped, lemma_pushed_pushed, SquashCursor};
use crate::error::Result;
use crate::num::SquashNumber;
use crate::object::SquashObject;

verus! {

/// A dimension: an offset and a scale.
#[derive(Copy, Clone, PartialEq, PartialOrd, Debug, Default)]
pub struct Udim<T: SquashNumber> {
    pub offset: T,
    pub scale: T,
}

/// The deep view lists the fields in the order in which they are pushed.
impl<T: SquashNumber> DeepView for Udim<T> {
    type V = (<T as DeepView>::V, <T as DeepView>::V);

    open spec fn deep_view(&self) -> (<T as DeepView>::V, <T as DeepView>::V) {
        (self.offset.deep_view(), self.scale.deep_view())
    }
}

impl<T: SquashNumber> SquashObject for Udim<T> {
    open spec fn spec_encode(v: (<T as DeepView>::V, <T as DeepView>::V)) -> Option<Seq<u8>> {
        match (<T as SquashObject>::spec_encode(v.0), <T as SquashObject>::spec_encode(v.1)) {
            (Some(e0), Some(e1)) => Some(e0 + e1),
            _ => None,
        }
    }

    open spec fn spec_decode(bytes: Seq<u8>) -> Option<((<T as DeepView>::V, <T as DeepView>::V), nat)> {
        let b1 = bytes;
        match <T as SquashObject>::spec_decode(b1) {
            Some((x1, n1)) => {
                let b0 = b1.take(b1.len() - n1);
                match <T as SquashObject>::spec_decode(b0) {
                    Some((x0, n0)) => {
                        Some(((x0, x1), n0 + n1))
                    },
                    None => None,
                }
            },
            None => None,
        }
    }

    open spec fn spec_roundtrips(v: (<T as DeepView>::V, <T as DeepView>::V)) -> bool {
        &&& <T as SquashObject>::spec_roundtrips(v.0)
        &&& <T as SquashObject>::spec_roundtrips(v.1)
    }

    proof fn lemma_decode_len(bytes: Seq<u8>) {
        let b1 = bytes;
        <T as SquashObject>::lemma_decode_len(b1);
        if let Some((_, n1)) = <T as SquashObject>::spec_decode(b1) {
            let b0 = b1.take(b1.len() - n1);
            <T as SquashObject>::lemma_decode_len(b0);
        }
    }

    proof fn lemma_roundtrip(v: (<T as DeepView>::V, <T as DeepView>::V), prefix: Seq<u8>) {
        let e0 = <T as SquashObject>::spec_encode(v.0)->0;
        let e1 = <T as SquashObject>::spec_encode(v.1)->0;
        let p0 = prefix;
        let p1 = p0 + e0;
        <T as SquashObject>::lemma_roundtrip(v.0, p0);
        <T as SquashObject>::lemma_roundtrip(v.1, p1);
        let all = prefix + (e0 + e1);
        assert(all =~= p1 + e1);
        assert((p1 + e1).take((p1 + e1).len() - e1.len()) =~= p1);
    }

    fn push_obj(self, cursor: &mut SquashCursor) -> Result<usize> {
        let _ = cursor.position();
        let ghost start = cursor@;
        let ghost v = self.deep_view();
        let Udim { offset, scale } = self;
        let n0 = match cursor.push(offset) {
            Ok(n) => n,
            Err(e) => {
                return Err(e);
            },
        };
        let _ = cursor.position();
        let n1 = match cursor.push(scale) {
            Ok(n) => n,
            Err(e) => {
                return Err(e);
            },
        };
        let _ = cursor.position();
        proof {
            let e0 = <T as SquashObject>::spec_encode(v.0)->0;
            let e1 = <T as SquashObject>::spec_encode(v.1)->0;
            lemma_pushed_pushed(start, e0, e1);
        }
        Ok(n0 + n1)
    }

    fn pop_obj(cursor: &mut SquashCursor) -> Result<Udim<T>> {
        let _ = cursor.position();
        let ghost c1 = cursor@;
        let scale = match cursor.pop::<T>() {
            Ok(x) => x,
            Err(e) => {
                return Err(e);
            },
        };
        proof {
            <T as SquashObject>::lemma_decode_len(c1.readable());
            lemma_popped(c1, <T as SquashObject>::spec_decode(c1.readable()).unwrap().1);
        }
        let ghost c0 = cursor@;
        let offset = match cursor.pop::<T>() {
            Ok(x) => x,
            Err(e) => {
                return Err(e);
            },
        };
        Ok(Udim { offset, scale })
    }
}

/// A pair of dimensions.
#[derive(Copy, Clone, PartialEq, PartialOrd, Debug, Default)]
pub struct Udim2<T: SquashNumber> {
    pub y: Udim<T>,
    pub x: Udim<T>,
}

/// The deep view lists the fields in the order in which they are pushed.
impl<T: SquashNumber> DeepView for Udim2<T> {
    type V = (<Udim<T> as DeepView>::V, <Udim<T> as DeepView>::V);

    open spec fn deep_view(&self) -> (<Udim<T> as DeepView>::V, <Udim<T> as DeepView>::V) {
        (self.y.deep_view(), self.x.deep_view())
    }
}

impl<T: SquashNumber> SquashObject for Udim2<T> {
    open spec fn spec_encode(v: (<Udim<T> as DeepView>::V, <Udim<T> as DeepView>::V)) -> Option<Seq<u8>> {
        match (<Udim<T> as SquashObject>::spec_encode(v.0), <Udim<T> as SquashObject>::spec_encode(v.1)) {
            (Some(e0), Some(e1)) => Some(e0 + e1),
            _ => None,
        }
    }

    open spec fn spec_decode(bytes: Seq<u8>) -> Option<((<Udim<T> as DeepView>::V, <Udim<T> as DeepView>::V), nat)> {
        let b1 = bytes;
        match <Udim<T> as SquashObject>::spec_decode(b1) {
            Some((x1, n1)) => {
                let b0 = b1.take(b1.len() - n1);
                match <Udim<T> as SquashObject>::spec_decode(b0) {
                    Some((x0, n0)) => {
                        Some(((x0, x1), n0 + n1))
                    },
                    None => None,
                }
            },
            None => None,
        }
    }

    open spec fn spec_roundtrips(v: (<Udim<T> as DeepView>::V, <Udim<T> as DeepView>::V)) -> bool {
        &&& <Udim<T> as SquashObject>::spec_roundtrips(v.0)
        &&& <Udim<T> as SquashObject>::spec_roundtrips(v.1)
    }

    proof fn lemma_decode_len(bytes: Seq<u8>) {
        let b1 = bytes;
        <Udim<T> as SquashObject>::lemma_decode_len(b1);
        if let Some((_, n1)) = <Udim<T> as SquashObject>::spec_decode(b1) {
            let b0 = b1.take(b1.len() - n1);
            <Udim<T> as SquashObject>::lemma_decode_len(b0);
        }
    }

    proof fn lemma_roundtrip(v: (<Udim<T> as DeepView>::V, <Udim<T> as DeepView>::V), prefix: Seq<u8>) {
        let e0 = <Udim<T> as SquashObject>::spec_encode(v.0)->0;
        let e1 = <Udim<T> as SquashObject>::spec_encode(v.1)->0;
        let p0 = prefix;
        let p1 = p0 + e0;
        <Udim<T> as SquashObject>::lemma_roundtrip(v.0, p0);
        <Udim<T> as SquashObject>::lemma_roundtrip(v.1, p1);
        let all = prefix + (e0 + e1);
        assert(all =~= p1 + e1);
        assert((p1 + e1).take((p1 + e1).len() - e1.len()) =~= p1);
    }

    fn push_obj(self, cursor: &mut SquashCursor) -> Result<usize> {
        let _ = cursor.position();
        let ghost start = cursor@;
        let ghost v = self.deep_view();
        let Udim2 { y, x } = self;
        let n0 = match cursor.push(y) {
            Ok(n) => n,
            Err(e) => {
                return Err(e);
            },
        };
        let _ = cursor.position();
        let n1 = match cursor.push(x) {
            Ok(n) => n,
            Err(e) => {
                return Err(e);
            },
        };
        let _ = cursor.position();
        proof {
            let e0 = <Udim<T> as SquashObject>::spec_encode(v.0)->0;
            let e1 = <Udim<T> as SquashObject>::spec_encode(v.1)->0;
            lemma_pushed_pushed(start, e0, e1);
        }
        Ok(n0 + n1)
    }

    fn pop_obj(cursor: &mut SquashCursor) -> Result<Udim2<T>> {
        let _ = cursor.position();
        let ghost c1 = cursor@;
        let x = match cursor.pop::<Udim<T>>() {
            Ok(x) => x,
            Err(e) => {
                return Err(e);
            },
        };
        proof {
            <Udim<T> as SquashObject>::lemma_decode_len(c1.readable());
            lemma_popped(c1, <Udim<T> as SquashObject>::spec_decode(c1.readable()).unwrap().1);
        }
        let ghost c0 = cursor@;
        let y = match cursor.pop::<Udim<T>>() {
            Ok(x) => x,
            Err(e) => {
                return Err(e);
            },
        };
        Ok(Udim2 { y, x })
    }
}

/// A `Udim` is written field by field: `offset`, then `scale`, each as its own type
/// writes it, one after another.
pub proof fn lemma_udim_layout<T: SquashNumber>(r: Udim<T>)
    ensures
        Udim::<T>::spec_encode(r.deep_view()) == (match (<T as SquashObject>::spec_encode(r.offset.deep_view()), <T as SquashObject>::spec_encode(r.scale.deep_view())) {
            (Some(e0), Some(e1)) => Some(e0 + e1),
            _ => None,
        }),
{
}

/// A `Udim2` is written field by field: `y`, then `x`, each as its own type
/// writes it, one after another.
pub proof fn lemma_udim2_layout<T: SquashNumber>(r: Udim2<T>)
    ensures
        Udim2::<T>::spec_encode(r.deep_view()) == (match (<Udim<T> as SquashObject>::spec_encode(r.y.deep_view()), <Udim<T> as SquashObject>::spec_encode(r.x.deep_view())) {
            (Some(e0), Some(e1)) => Some(e0 + e1),
            _ => None,
        }),
{
}

} // verus!
