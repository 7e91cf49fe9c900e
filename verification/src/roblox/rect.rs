use vstd::prelude::*;

use crate::cursor::{lemma_popped, lemma_pushed_pushed, SquashCursor};
use crate::error::Result;
use crate::num::SquashNumber;
use crate::object::SquashObject;
use crate::roblox::vector::Vector2;

verus! {

/// A rectangle by its corners.
#[derive(Copy, Clone, PartialEq, PartialOrd, Debug, Default)]
pub struct Rect<T: SquashNumber> {
    pub max: Vector2<T>,
    pub min: Vector2<T>,
}

/// The deep view lists the fields in the order in which they are pushed.
impl<T: SquashNumber> DeepView for Rect<T> {
    type V = (<Vector2<T> as DeepView>::V, <Vector2<T> as DeepView>::V);

    open spec fn deep_view(&self) -> (<Vector2<T> as DeepView>::V, <Vector2<T> as DeepView>::V) {
        (self.max.deep_view(), self.min.deep_view())
    }
}

impl<T: SquashNumber> SquashObject for Rect<T> {
    open spec fn spec_encode(v: (<Vector2<T> as DeepView>::V, <Vector2<T> as DeepView>::V)) -> Option<Seq<u8>> {
        match (<Vector2<T> as SquashObject>::spec_encode(v.0), <Vector2<T> as SquashObject>::spec_encode(v.1)) {
            (Some(e0), Some(e1)) => Some(e0 + e1),
            _ => None,
        }
    }

    open spec fn spec_decode(bytes: Seq<u8>) -> Option<((<Vector2<T> as DeepView>::V, <Vector2<T> as DeepView>::V), nat)> {
        let b1 = bytes;
        match <Vector2<T> as SquashObject>::spec_decode(b1) {
            Some((x1, n1)) => {
                let b0 = b1.take(b1.len() - n1);
                match <Vector2<T> as SquashObject>::spec_decode(b0) {
                    Some((x0, n0)) => {
                        Some(((x0, x1), n0 + n1))
                    },
                    None => None,
                }
            },
            None => None,
        }
    }

    open spec fn spec_roundtrips(v: (<Vector2<T> as DeepView>::V, <Vector2<T> as DeepView>::V)) -> bool {
        &&& <Vector2<T> as SquashObject>::spec_roundtrips(v.0)
        &&& <Vector2<T> as SquashObject>::spec_roundtrips(v.1)
    }

    proof fn lemma_decode_len(bytes: Seq<u8>) {
        let b1 = bytes;
        <Vector2<T> as SquashObject>::lemma_decode_len(b1);
        if let Some((_, n1)) = <Vector2<T> as SquashObject>::spec_decode(b1) {
            let b0 = b1.take(b1.len() - n1);
            <Vector2<T> as SquashObject>::lemma_decode_len(b0);
        }
    }

    proof fn lemma_roundtrip(v: (<Vector2<T> as DeepView>::V, <Vector2<T> as DeepView>::V), prefix: Seq<u8>) {
        let e0 = <Vector2<T> as SquashObject>::spec_encode(v.0)->0;
        let e1 = <Vector2<T> as SquashObject>::spec_encode(v.1)->0;
        let p0 = prefix;
        let p1 = p0 + e0;
        <Vector2<T> as SquashObject>::lemma_roundtrip(v.0, p0);
        <Vector2<T> as SquashObject>::lemma_roundtrip(v.1, p1);
        let all = prefix + (e0 + e1);
        assert(all =~= p1 + e1);
        assert((p1 + e1).take((p1 + e1).len() - e1.len()) =~= p1);
    }

    fn push_obj(self, cursor: &mut SquashCursor) -> Result<usize> {
        let _ = cursor.position();
        let ghost start = cursor@;
        let ghost v = self.deep_view();
        let Rect { max, min } = self;
        let n0 = match cursor.push(max) {
            Ok(n) => n,
            Err(e) => {
                return Err(e);
            },
        };
        let _ = cursor.position();
        let n1 = match cursor.push(min) {
            Ok(n) => n,
            Err(e) => {
                return Err(e);
            },
        };
        let _ = cursor.position();
        proof {
            let e0 = <Vector2<T> as SquashObject>::spec_encode(v.0)->0;
            let e1 = <Vector2<T> as SquashObject>::spec_encode(v.1)->0;
            lemma_pushed_pushed(start, e0, e1);
        }
        Ok(n0 + n1)
    }

    fn pop_obj(cursor: &mut SquashCursor) -> Result<Rect<T>> {
        let _ = cursor.position();
        let ghost c1 = cursor@;
        let min = match cursor.pop::<Vector2<T>>() {
            Ok(x) => x,
            Err(e) => {
                return Err(e);
            },
        };
        proof {
            <Vector2<T> as SquashObject>::lemma_decode_len(c1.readable());
            lemma_popped(c1, <Vector2<T> as SquashObject>::spec_decode(c1.readable()).unwrap().1);
        }
        let ghost c0 = cursor@;
        let max = match cursor.pop::<Vector2<T>>() {
            Ok(x) => x,
            Err(e) => {
                return Err(e);
            },
        };
        Ok(Rect { max, min })
    }
}

/// A `Rect` is written field by field: `max`, then `min`, each as its own type
/// writes it, one after another.
pub proof fn lemma_rect_layout<T: SquashNumber>(r: Rect<T>)
    ensures
        Rect::<T>::spec_encode(r.deep_view()) == (match (<Vector2<T> as SquashObject>::spec_encode(r.max.deep_view()), <Vector2<T> as SquashObject>::spec_encode(r.min.deep_view())) {
            (Some(e0), Some(e1)) => Some(e0 + e1),
            _ => None,
        }),
{
}

} // verus!
