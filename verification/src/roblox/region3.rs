use vstd::prelude::*;

use crate::cursor::{lemma_popped, lemma_pushed_pushed, SquashCursor};
use crate::error::Result;
use crate::num::SquashNumber;
use crate::object::SquashObject;
use crate::roblox::vector::{Vector3, Vector3int16};

verus! {

/// A box by its size and position.
#[derive(Copy, Clone, PartialEq, PartialOrd, Debug, Default)]
pub struct Region3<T: SquashNumber> {
    pub size: Vector3<T>,
    pub position: Vector3<T>,
}

/// The deep view lists the fields in the order in which they are pushed.
impl<T: SquashNumber> DeepView for Region3<T> {
    type V = (<Vector3<T> as DeepView>::V, <Vector3<T> as DeepView>::V);

    open spec fn deep_view(&self) -> (<Vector3<T> as DeepView>::V, <Vector3<T> as DeepView>::V) {
        (self.size.deep_view(), self.position.deep_view())
    }
}

impl<T: SquashNumber> SquashObject for Region3<T> {
    open spec fn spec_encode(v: (<Vector3<T> as DeepView>::V, <Vector3<T> as DeepView>::V)) -> Option<Seq<u8>> {
        match (<Vector3<T> as SquashObject>::spec_encode(v.0), <Vector3<T> as SquashObject>::spec_encode(v.1)) {
            (Some(e0), Some(e1)) => Some(e0 + e1),
            _ => None,
        }
    }

    open spec fn spec_decode(bytes: Seq<u8>) -> Option<((<Vector3<T> as DeepView>::V, <Vector3<T> as DeepView>::V), nat)> {
        let b1 = bytes;
        match <Vector3<T> as SquashObject>::spec_decode(b1) {
            Some((x1, n1)) => {
                let b0 = b1.take(b1.len() - n1);
                match <Vector3<T> as SquashObject>::spec_decode(b0) {
                    Some((x0, n0)) => {
                        Some(((x0, x1), n0 + n1))
                    },
                    None => None,
                }
            },
            None => None,
        }
    }

    open spec fn spec_roundtrips(v: (<Vector3<T> as DeepView>::V, <Vector3<T> as DeepView>::V)) -> bool {
        &&& <Vector3<T> as SquashObject>::spec_roundtrips(v.0)
        &&& <Vector3<T> as SquashObject>::spec_roundtrips(v.1)
    }

    proof fn lemma_decode_len(bytes: Seq<u8>) {
        let b1 = bytes;
        <Vector3<T> as SquashObject>::lemma_decode_len(b1);
        if let Some((_, n1)) = <Vector3<T> as SquashObject>::spec_decode(b1) {
            let b0 = b1.take(b1.len() - n1);
            <Vector3<T> as SquashObject>::lemma_decode_len(b0);
        }
    }

    proof fn lemma_roundtrip(v: (<Vector3<T> as DeepView>::V, <Vector3<T> as DeepView>::V), prefix: Seq<u8>) {
        let e0 = <Vector3<T> as SquashObject>::spec_encode(v.0)->0;
        let e1 = <Vector3<T> as SquashObject>::spec_encode(v.1)->0;
        let p0 = prefix;
        let p1 = p0 + e0;
        <Vector3<T> as SquashObject>::lemma_roundtrip(v.0, p0);
        <Vector3<T> as SquashObject>::lemma_roundtrip(v.1, p1);
        let all = prefix + (e0 + e1);
        assert(all =~= p1 + e1);
        assert((p1 + e1).take((p1 + e1).len() - e1.len()) =~= p1);
    }

    fn push_obj(self, cursor: &mut SquashCursor) -> Result<usize> {
        let _ = cursor.position();
        let ghost start = cursor@;
        let ghost v = self.deep_view();
        let Region3 { size, position } = self;
        let n0 = match cursor.push(size) {
            Ok(n) => n,
            Err(e) => {
                return Err(e);
            },
        };
        let _ = cursor.position();
        let n1 = match cursor.push(position) {
            Ok(n) => n,
            Err(e) => {
                return Err(e);
            },
        };
        let _ = cursor.position();
        proof {
            let e0 = <Vector3<T> as SquashObject>::spec_encode(v.0)->0;
            let e1 = <Vector3<T> as SquashObject>::spec_encode(v.1)->0;
            lemma_pushed_pushed(start, e0, e1);
        }
        Ok(n0 + n1)
    }

    fn pop_obj(cursor: &mut SquashCursor) -> Result<Region3<T>> {
        let _ = cursor.position();
        let ghost c1 = cursor@;
        let position = match cursor.pop::<Vector3<T>>() {
            Ok(x) => x,
            Err(e) => {
                return Err(e);
            },
        };
        proof {
            <Vector3<T> as SquashObject>::lemma_decode_len(c1.readable());
            lemma_popped(c1, <Vector3<T> as SquashObject>::spec_decode(c1.readable()).unwrap().1);
        }
        let ghost c0 = cursor@;
        let size = match cursor.pop::<Vector3<T>>() {
            Ok(x) => x,
            Err(e) => {
                return Err(e);
            },
        };
        Ok(Region3 { size, position })
    }
}

/// A box of 16-bit corners.
#[derive(Copy, Clone, PartialEq, Eq, PartialOrd, Ord, Hash, Debug, Default)]
pub struct Region3int16 {
    pub min: Vector3int16,
    pub max: Vector3int16,
}

/// The deep view lists the fields in the order in which they are pushed.
impl DeepView for Region3int16 {
    type V = (<Vector3int16 as DeepView>::V, <Vector3int16 as DeepView>::V);

    open spec fn deep_view(&self) -> (<Vector3int16 as DeepView>::V, <Vector3int16 as DeepView>::V) {
        (self.max.deep_view(), self.min.deep_view())
    }
}

impl SquashObject for Region3int16 {
    open spec fn spec_encode(v: (<Vector3int16 as DeepView>::V, <Vector3int16 as DeepView>::V)) -> Option<Seq<u8>> {
        match (<Vector3int16 as SquashObject>::spec_encode(v.0), <Vector3int16 as SquashObject>::spec_encode(v.1)) {
            (Some(e0), Some(e1)) => Some(e0 + e1),
            _ => None,
        }
    }

    open spec fn spec_decode(bytes: Seq<u8>) -> Option<((<Vector3int16 as DeepView>::V, <Vector3int16 as DeepView>::V), nat)> {
        let b1 = bytes;
        match <Vector3int16 as SquashObject>::spec_decode(b1) {
            Some((x1, n1)) => {
                let b0 = b1.take(b1.len() - n1);
                match <Vector3int16 as SquashObject>::spec_decode(b0) {
                    Some((x0, n0)) => {
                        Some(((x0, x1), n0 + n1))
                    },
                    None => None,
                }
            },
            None => None,
        }
    }

    open spec fn spec_roundtrips(v: (<Vector3int16 as DeepView>::V, <Vector3int16 as DeepView>::V)) -> bool {
        &&& <Vector3int16 as SquashObject>::spec_roundtrips(v.0)
        &&& <Vector3int16 as SquashObject>::spec_roundtrips(v.1)
    }

    proof fn lemma_decode_len(bytes: Seq<u8>) {
        let b1 = bytes;
        <Vector3int16 as SquashObject>::lemma_decode_len(b1);
        if let Some((_, n1)) = <Vector3int16 as SquashObject>::spec_decode(b1) {
            let b0 = b1.take(b1.len() - n1);
            <Vector3int16 as SquashObject>::lemma_decode_len(b0);
        }
    }

    proof fn lemma_roundtrip(v: (<Vector3int16 as DeepView>::V, <Vector3int16 as DeepView>::V), prefix: Seq<u8>) {
        let e0 = <Vector3int16 as SquashObject>::spec_encode(v.0)->0;
        let e1 = <Vector3int16 as SquashObject>::spec_encode(v.1)->0;
        let p0 = prefix;
        let p1 = p0 + e0;
        <Vector3int16 as SquashObject>::lemma_roundtrip(v.0, p0);
        <Vector3int16 as SquashObject>::lemma_roundtrip(v.1, p1);
        let all = prefix + (e0 + e1);
        assert(all =~= p1 + e1);
        assert((p1 + e1).take((p1 + e1).len() - e1.len()) =~= p1);
    }

    fn push_obj(self, cursor: &mut SquashCursor) -> Result<usize> {
        let _ = cursor.position();
        let ghost start = cursor@;
        let ghost v = self.deep_view();
        let Region3int16 { min, max } = self;
        let n0 = match cursor.push(max) {
            Ok(n) => n,
            Err(e) => {
                return Err(e);
            },
        };
        let _ = cursor.position();
        let n1 = match cursor.push(min) {
            Ok(n) => n,
            Err(e) => {
                return Err(e);
            },
        };
        let _ = cursor.position();
        proof {
            let e0 = <Vector3int16 as SquashObject>::spec_encode(v.0)->0;
            let e1 = <Vector3int16 as SquashObject>::spec_encode(v.1)->0;
            lemma_pushed_pushed(start, e0, e1);
        }
        Ok(n0 + n1)
    }

    fn pop_obj(cursor: &mut SquashCursor) -> Result<Region3int16> {
        let _ = cursor.position();
        let ghost c1 = cursor@;
        let min = match cursor.pop::<Vector3int16>() {
            Ok(x) => x,
            Err(e) => {
                return Err(e);
            },
        };
        proof {
            <Vector3int16 as SquashObject>::lemma_decode_len(c1.readable());
            lemma_popped(c1, <Vector3int16 as SquashObject>::spec_decode(c1.readable()).unwrap().1);
        }
        let ghost c0 = cursor@;
        let max = match cursor.pop::<Vector3int16>() {
            Ok(x) => x,
            Err(e) => {
                return Err(e);
            },
        };
        Ok(Region3int16 { min, max })
    }
}

/// A `Region3` is written field by field: `size`, then `position`, each as its own type
/// writes it, one after another.
pub proof fn lemma_region3_layout<T: SquashNumber>(r: Region3<T>)
    ensures
        Region3::<T>::spec_encode(r.deep_view()) == (match (<Vector3<T> as SquashObject>::spec_encode(r.size.deep_view()), <Vector3<T> as SquashObject>::spec_encode(r.position.deep_view())) {
            (Some(e0), Some(e1)) => Some(e0 + e1),
            _ => None,
        }),
{
}

/// A `Region3int16` is written field by field: `max`, then `min`, each as its own type
/// writes it, one after another.
pub proof fn lemma_region3int16_layout(r: Region3int16)
    ensures
        Region3int16::spec_encode(r.deep_view()) == (match (<Vector3int16 as SquashObject>::spec_encode(r.max.deep_view()), <Vector3int16 as SquashObject>::spec_encode(r.min.deep_view())) {
            (Some(e0), Some(e1)) => Some(e0 + e1),
            _ => None,
        }),
{
}

} // verus!
