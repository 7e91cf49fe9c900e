use vstd::prelude::*;

use crate::cursor::{lemma_popped, lemma_pushed_pushed, SquashCursor};
use crate::error::Result;
use crate::num::SquashNumber;
use crate::object::SquashObject;
use crate::roblox::vector::Vector3;

verus! {

/// A ray: its direction and origin.
#[derive(Copy, Clone, PartialEq, PartialOrd, Debug, Default)]
pub struct Ray<T: SquashNumber> {
    pub direction: Vector3<T>,
    pub origin: Vector3<T>,
}

/// The deep view lists the fields in the order in which they are pushed.
impl<T: SquashNumber> DeepView for Ray<T> {
    type V = (<Vector3<T> as DeepView>::V, <Vector3<T> as DeepView>::V);

    open spec fn deep_view(&self) -> (<Vector3<T> as DeepView>::V, <Vector3<T> as DeepView>::V) {
        (self.direction.deep_view(), self.origin.deep_view())
    }
}

impl<T: SquashNumber> SquashObject for Ray<T> {
    open spec fn spec_encode(v: (<Vector3<T> as DeepView>::V, <Vector3<T> as DeepView>::V)) -> Option<Seq<u8>> {
        match (<Vector3<T> as SquashObject>::spec_encode(v.0), <Vector3<T> as SquashObject>::spec_encode(v.1)) {
            (Some(e0), Some(e1)) => Some(e0 + e1),
            _ => None,
        }
    }

    open spec fn spec_decode(bytes: Seq<u8>) -> Option<((<Vector3<T> as DeepView>::V, <Vector3<T> as DeepView>::V), nat)> {
        let b1 = bytes;
        match <Vector3<T> as SquashObject>::spec_decode(b1) {
            Some((x1, n1)) => {
                let b0 = b1.take(b1.len() - n1);
                match <Vector3<T> as SquashObject>::spec_decode(b0) {
                    Some((x0, n0)) => {
                        Some(((x0, x1), n0 + n1))
                    },
                    None => None,
                }
            },
            None => None,
        }
    }

    open spec fn spec_roundtrips(v: (<Vector3<T> as DeepView>::V, <Vector3<T> as DeepView>::V)) -> bool {
        &&& <Vector3<T> as SquashObject>::spec_roundtrips(v.0)
        &&& <Vector3<T> as SquashObject>::spec_roundtrips(v.1)
    }

    proof fn lemma_decode_len(bytes: Seq<u8>) {
        let b1 = bytes;
        <Vector3<T> as SquashObject>::lemma_decode_len(b1);
        if let Some((_, n1)) = <Vector3<T> as SquashObject>::spec_decode(b1) {
            let b0 = b1.take(b1.len() - n1);
            <Vector3<T> as SquashObject>::lemma_decode_len(b0);
        }
    }

    proof fn lemma_roundtrip(v: (<Vector3<T> as DeepView>::V, <Vector3<T> as DeepView>::V), prefix: Seq<u8>) {
        let e0 = <Vector3<T> as SquashObject>::spec_encode(v.0)->0;
        let e1 = <Vector3<T> as SquashObject>::spec_encode(v.1)->0;
        let p0 = prefix;
        let p1 = p0 + e0;
        <Vector3<T> as SquashObject>::lemma_roundtrip(v.0, p0);
        <Vector3<T> as SquashObject>::lemma_roundtrip(v.1, p1);
        let all = prefix + (e0 + e1);
        assert(all =~= p1 + e1);
        assert((p1 + e1).take((p1 + e1).len() - e1.len()) =~= p1);
    }

    fn push_obj(self, cursor: &mut SquashCursor) -> Result<usize> {
        let _ = cursor.position();
        let ghost start = cursor@;
        let ghost v = self.deep_view();
        let Ray { direction, origin } = self;
        let n0 = match cursor.push(direction) {
            Ok(n) => n,
            Err(e) => {
                return Err(e);
            },
        };
        let _ = cursor.position();
        let n1 = match cursor.push(origin) {
            Ok(n) => n,
            Err(e) => {
                return Err(e);
            },
        };
        let _ = cursor.position();
        proof {
            let e0 = <Vector3<T> as SquashObject>::spec_encode(v.0)->0;
            let e1 = <Vector3<T> as SquashObject>::spec_encode(v.1)->0;
            lemma_pushed_pushed(start, e0, e1);
        }
        Ok(n0 + n1)
    }

    fn pop_obj(cursor: &mut SquashCursor) -> Result<Ray<T>> {
        let _ = cursor.position();
        let ghost c1 = cursor@;
        let origin = match cursor.pop::<Vector3<T>>() {
            Ok(x) => x,
            Err(e) => {
                return Err(e);
            },
        };
        proof {
            <Vector3<T> as SquashObject>::lemma_decode_len(c1.readable());
            lemma_popped(c1, <Vector3<T> as SquashObject>::spec_decode(c1.readable()).unwrap().1);
        }
        let ghost c0 = cursor@;
        let direction = match cursor.pop::<Vector3<T>>() {
            Ok(x) => x,
            Err(e) => {
                return Err(e);
            },
        };
        Ok(Ray { direction, origin })
    }
}

/// A `Ray` is written field by field: `direction`, then `origin`, each as its own type
/// writes it, one after another.
pub proof fn lemma_ray_layout<T: SquashNumber>(r: Ray<T>)
    ensures
        Ray::<T>::spec_encode(r.deep_view()) == (match (<Vector3<T> as SquashObject>::spec_encode(r.direction.deep_view()), <Vector3<T> as SquashObject>::spec_encode(r.origin.deep_view())) {
            (Some(e0), Some(e1)) => Some(e0 + e1),
            _ => None,
        }),
{
}

} // verus!
