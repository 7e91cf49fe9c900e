use vstd::prelude::*;

use crate::cursor::{lemma_popped, lemma_pushed_pushed, SquashCursor};
use crate::error::Result;
use crate::num::{SquashNumber, Zero};
use crate::object::SquashObject;

verus! {

/// A 2D vector.
#[derive(Copy, Clone, PartialEq, PartialOrd, Debug, Default)]
pub struct Vector2<T: SquashNumber> {
    pub y: T,
    pub x: T,
}

/// The deep view lists the fields in the order in which they are pushed.
impl<T: SquashNumber> DeepView for Vector2<T> {
    type V = (<T as DeepView>::V, <T as DeepView>::V);

    open spec fn deep_view(&self) -> (<T as DeepView>::V, <T as DeepView>::V) {
        (self.x.deep_view(), self.y.deep_view())
    }
}

impl<T: SquashNumber> SquashObject for Vector2<T> {
    open spec fn spec_encode(v: (<T as DeepView>::V, <T as DeepView>::V)) -> Option<Seq<u8>> {
        match (<T as SquashObject>::spec_encode(v.0), <T as SquashObject>::spec_encode(v.1)) {
            (Some(e0), Some(e1)) => Some(e0 + e1),
            _ => None,
        }
    }

    open spec fn spec_decode(bytes: Seq<u8>) -> Option<((<T as DeepView>::V, <T as DeepView>::V), nat)> {
        let b1 = bytes;
        match <T as SquashObject>::spec_decode(b1) {
            Some((x1, n1)) => {
                let b0 = b1.take(b1.len() - n1);
                match <T as SquashObject>::spec_decode(b0) {
                    Some((x0, n0)) => {
                        Some(((x0, x1), n0 + n1))
                    },
                    None => None,
                }
            },
            None => None,
        }
    }

    open spec fn spec_roundtrips(v: (<T as DeepView>::V, <T as DeepView>::V)) -> bool {
        &&& <T as SquashObject>::spec_roundtrips(v.0)
        &&& <T as SquashObject>::spec_roundtrips(v.1)
    }

    proof fn lemma_decode_len(bytes: Seq<u8>) {
        let b1 = bytes;
        <T as SquashObject>::lemma_decode_len(b1);
        if let Some((_, n1)) = <T as SquashObject>::spec_decode(b1) {
            let b0 = b1.take(b1.len() - n1);
            <T as SquashObject>::lemma_decode_len(b0);
        }
    }

    proof fn lemma_roundtrip(v: (<T as DeepView>::V, <T as DeepView>::V), prefix: Seq<u8>) {
        let e0 = <T as SquashObject>::spec_encode(v.0)->0;
        let e1 = <T as SquashObject>::spec_encode(v.1)->0;
        let p0 = prefix;
        let p1 = p0 + e0;
        <T as SquashObject>::lemma_roundtrip(v.0, p0);
        <T as SquashObject>::lemma_roundtrip(v.1, p1);
        let all = prefix + (e0 + e1);
        assert(all =~= p1 + e1);
        assert((p1 + e1).take((p1 + e1).len() - e1.len()) =~= p1);
    }

    fn push_obj(self, cursor: &mut SquashCursor) -> Result<usize> {
        let _ = cursor.position();
        let ghost start = cursor@;
        let ghost v = self.deep_view();
        let Vector2 { y, x } = self;
        let n0 = match cursor.push(x) {
            Ok(n) => n,
            Err(e) => {
                return Err(e);
            },
        };
        let _ = cursor.position();
        let n1 = match cursor.push(y) {
            Ok(n) => n,
            Err(e) => {
                return Err(e);
            },
        };
        let _ = cursor.position();
        proof {
            let e0 = <T as SquashObject>::spec_encode(v.0)->0;
            let e1 = <T as SquashObject>::spec_encode(v.1)->0;
            lemma_pushed_pushed(start, e0, e1);
        }
        Ok(n0 + n1)
    }

    fn pop_obj(cursor: &mut SquashCursor) -> Result<Vector2<T>> {
        let _ = cursor.position();
        let ghost c1 = cursor@;
        let y = match cursor.pop::<T>() {
            Ok(x) => x,
            Err(e) => {
                return Err(e);
            },
        };
        proof {
            <T as SquashObject>::lemma_decode_len(c1.readable());
            lemma_popped(c1, <T as SquashObject>::spec_decode(c1.readable()).unwrap().1);
        }
        let ghost c0 = cursor@;
        let x = match cursor.pop::<T>() {
            Ok(x) => x,
            Err(e) => {
                return Err(e);
            },
        };
        Ok(Vector2 { y, x })
    }
}

/// A 2D vector of 16-bit integers.
#[derive(Copy, Clone, PartialEq, Eq, PartialOrd, Ord, Hash, Debug, Default)]
pub struct Vector2int16 {
    pub y: i16,
    pub x: i16,
}

/// The deep view lists the fields in the order in which they are pushed.
impl DeepView for Vector2int16 {
    type V = (<i16 as DeepView>::V, <i16 as DeepView>::V);

    open spec fn deep_view(&self) -> (<i16 as DeepView>::V, <i16 as DeepView>::V) {
        (self.x.deep_view(), self.y.deep_view())
    }
}

impl SquashObject for Vector2int16 {
    open spec fn spec_encode(v: (<i16 as DeepView>::V, <i16 as DeepView>::V)) -> Option<Seq<u8>> {
        match (<i16 as SquashObject>::spec_encode(v.0), <i16 as SquashObject>::spec_encode(v.1)) {
            (Some(e0), Some(e1)) => Some(e0 + e1),
            _ => None,
        }
    }

    open spec fn spec_decode(bytes: Seq<u8>) -> Option<((<i16 as DeepView>::V, <i16 as DeepView>::V), nat)> {
        let b1 = bytes;
        match <i16 as SquashObject>::spec_decode(b1) {
            Some((x1, n1)) => {
                let b0 = b1.take(b1.len() - n1);
                match <i16 as SquashObject>::spec_decode(b0) {
                    Some((x0, n0)) => {
                        Some(((x0, x1), n0 + n1))
                    },
                    None => None,
                }
            },
            None => None,
        }
    }

    open spec fn spec_roundtrips(v: (<i16 as DeepView>::V, <i16 as DeepView>::V)) -> bool {
        &&& <i16 as SquashObject>::spec_roundtrips(v.0)
        &&& <i16 as SquashObject>::spec_roundtrips(v.1)
    }

    proof fn lemma_decode_len(bytes: Seq<u8>) {
        let b1 = bytes;
        <i16 as SquashObject>::lemma_decode_len(b1);
        if let Some((_, n1)) = <i16 as SquashObject>::spec_decode(b1) {
            let b0 = b1.take(b1.len() - n1);
            <i16 as SquashObject>::lemma_decode_len(b0);
        }
    }

    proof fn lemma_roundtrip(v: (<i16 as DeepView>::V, <i16 as DeepView>::V), prefix: Seq<u8>) {
        let e0 = <i16 as SquashObject>::spec_encode(v.0)->0;
        let e1 = <i16 as SquashObject>::spec_encode(v.1)->0;
        let p0 = prefix;
        let p1 = p0 + e0;
        <i16 as SquashObject>::lemma_roundtrip(v.0, p0);
        <i16 as SquashObject>::lemma_roundtrip(v.1, p1);
        let all = prefix + (e0 + e1);
        assert(all =~= p1 + e1);
        assert((p1 + e1).take((p1 + e1).len() - e1.len()) =~= p1);
    }

    fn push_obj(self, cursor: &mut SquashCursor) -> Result<usize> {
        let _ = cursor.position();
        let ghost start = cursor@;
        let ghost v = self.deep_view();
        let Vector2int16 { y, x } = self;
        let n0 = match cursor.push(x) {
            Ok(n) => n,
            Err(e) => {
                return Err(e);
            },
        };
        let _ = cursor.position();
        let n1 = match cursor.push(y) {
            Ok(n) => n,
            Err(e) => {
                return Err(e);
            },
        };
        let _ = cursor.position();
        proof {
            let e0 = <i16 as SquashObject>::spec_encode(v.0)->0;
            let e1 = <i16 as SquashObject>::spec_encode(v.1)->0;
            lemma_pushed_pushed(start, e0, e1);
        }
        Ok(n0 + n1)
    }

    fn pop_obj(cursor: &mut SquashCursor) -> Result<Vector2int16> {
        let _ = cursor.position();
        let ghost c1 = cursor@;
        let y = match cursor.pop::<i16>() {
            Ok(x) => x,
            Err(e) => {
                return Err(e);
            },
        };
        proof {
            <i16 as SquashObject>::lemma_decode_len(c1.readable());
            lemma_popped(c1, <i16 as SquashObject>::spec_decode(c1.readable()).unwrap().1);
        }
        let ghost c0 = cursor@;
        let x = match cursor.pop::<i16>() {
            Ok(x) => x,
            Err(e) => {
                return Err(e);
            },
        };
        Ok(Vector2int16 { y, x })
    }
}

/// A 3D vector.
#[derive(Copy, Clone, PartialEq, PartialOrd, Debug, Default)]
pub struct Vector3<T: SquashNumber> {
    pub z: T,
    pub y: T,
    pub x: T,
}

/// The deep view lists the fields in the order in which they are pushed.
impl<T: SquashNumber> DeepView for Vector3<T> {
    type V = (<T as DeepView>::V, <T as DeepView>::V, <T as DeepView>::V);

    open spec fn deep_view(&self) -> (<T as DeepView>::V, <T as DeepView>::V, <T as DeepView>::V) {
        (self.x.deep_view(), self.y.deep_view(), self.z.deep_view())
    }
}

impl<T: SquashNumber> SquashObject for Vector3<T> {
    open spec fn spec_encode(v: (<T as DeepView>::V, <T as DeepView>::V, <T as DeepView>::V)) -> Option<Seq<u8>> {
        match (<T as SquashObject>::spec_encode(v.0), <T as SquashObject>::spec_encode(v.1), <T as SquashObject>::spec_encode(v.2)) {
            (Some(e0), Some(e1), Some(e2)) => Some(e0 + e1 + e2),
            _ => None,
        }
    }

    open spec fn spec_decode(bytes: Seq<u8>) -> Option<((<T as DeepView>::V, <T as DeepView>::V, <T as DeepView>::V), nat)> {
        let b2 = bytes;
        match <T as SquashObject>::spec_decode(b2) {
            Some((x2, n2)) => {
                let b1 = b2.take(b2.len() - n2);
                match <T as SquashObject>::spec_decode(b1) {
                    Some((x1, n1)) => {
                        let b0 = b1.take(b1.len() - n1);
                        match <T as SquashObject>::spec_decode(b0) {
                            Some((x0, n0)) => {
                                Some(((x0, x1, x2), n0 + n1 + n2))
                            },
                            None => None,
                        }
                    },
                    None => None,
                }
            },
            None => None,
        }
    }

    open spec fn spec_roundtrips(v: (<T as DeepView>::V, <T as DeepView>::V, <T as DeepView>::V)) -> bool {
        &&& <T as SquashObject>::spec_roundtrips(v.0)
        &&& <T as SquashObject>::spec_roundtrips(v.1)
        &&& <T as SquashObject>::spec_roundtrips(v.2)
    }

    proof fn lemma_decode_len(bytes: Seq<u8>) {
        let b2 = bytes;
        <T as SquashObject>::lemma_decode_len(b2);
        if let Some((_, n2)) = <T as SquashObject>::spec_decode(b2) {
            let b1 = b2.take(b2.len() - n2);
            <T as SquashObject>::lemma_decode_len(b1);
            if let Some((_, n1)) = <T as SquashObject>::spec_decode(b1) {
                let b0 = b1.take(b1.len() - n1);
                <T as SquashObject>::lemma_decode_len(b0);
            }
        }
    }

    proof fn lemma_roundtrip(v: (<T as DeepView>::V, <T as DeepView>::V, <T as DeepView>::V), prefix: Seq<u8>) {
        let e0 = <T as SquashObject>::spec_encode(v.0)->0;
        let e1 = <T as SquashObject>::spec_encode(v.1)->0;
        let e2 = <T as SquashObject>::spec_encode(v.2)->0;
        let p0 = prefix;
        let p1 = p0 + e0;
        let p2 = p1 + e1;
        <T as SquashObject>::lemma_roundtrip(v.0, p0);
        <T as SquashObject>::lemma_roundtrip(v.1, p1);
        <T as SquashObject>::lemma_roundtrip(v.2, p2);
        let all = prefix + (e0 + e1 + e2);
        assert(all =~= p2 + e2);
        assert((p2 + e2).take((p2 + e2).len() - e2.len()) =~= p2);
        assert((p1 + e1).take((p1 + e1).len() - e1.len()) =~= p1);
    }

    fn push_obj(self, cursor: &mut SquashCursor) -> Result<usize> {
        let _ = cursor.position();
        let ghost start = cursor@;
        let ghost v = self.deep_view();
        let Vector3 { z, y, x } = self;
        let n0 = match cursor.push(x) {
            Ok(n) => n,
            Err(e) => {
                return Err(e);
            },
        };
        let _ = cursor.position();
        let n1 = match cursor.push(y) {
            Ok(n) => n,
            Err(e) => {
                return Err(e);
            },
        };
        let _ = cursor.position();
        let n2 = match cursor.push(z) {
            Ok(n) => n,
            Err(e) => {
                return Err(e);
            },
        };
        let _ = cursor.position();
        proof {
            let e0 = <T as SquashObject>::spec_encode(v.0)->0;
            let e1 = <T as SquashObject>::spec_encode(v.1)->0;
            let e2 = <T as SquashObject>::spec_encode(v.2)->0;
            lemma_pushed_pushed(start, e0, e1);
            lemma_pushed_pushed(start, e0 + e1, e2);
        }
        Ok(n0 + n1 + n2)
    }

    fn pop_obj(cursor: &mut SquashCursor) -> Result<Vector3<T>> {
        let _ = cursor.position();
        let ghost c2 = cursor@;
        let z = match cursor.pop::<T>() {
            Ok(x) => x,
            Err(e) => {
                return Err(e);
            },
        };
        proof {
            <T as SquashObject>::lemma_decode_len(c2.readable());
            lemma_popped(c2, <T as SquashObject>::spec_decode(c2.readable()).unwrap().1);
        }
        let ghost c1 = cursor@;
        let y = match cursor.pop::<T>() {
            Ok(x) => x,
            Err(e) => {
                return Err(e);
            },
        };
        proof {
            <T as SquashObject>::lemma_decode_len(c1.readable());
            lemma_popped(c1, <T as SquashObject>::spec_decode(c1.readable()).unwrap().1);
        }
        let ghost c0 = cursor@;
        let x = match cursor.pop::<T>() {
            Ok(x) => x,
            Err(e) => {
                return Err(e);
            },
        };
        Ok(Vector3 { z, y, x })
    }
}

/// A 3D vector of 16-bit integers.
#[derive(Copy, Clone, PartialEq, Eq, PartialOrd, Ord, Hash, Debug, Default)]
pub struct Vector3int16 {
    pub z: i16,
    pub y: i16,
    pub x: i16,
}

/// The deep view lists the fields in the order in which they are pushed.
impl DeepView for Vector3int16 {
    type V = (<i16 as DeepView>::V, <i16 as DeepView>::V, <i16 as DeepView>::V);

    open spec fn deep_view(&self) -> (<i16 as DeepView>::V, <i16 as DeepView>::V, <i16 as DeepView>::V) {
        (self.x.deep_view(), self.y.deep_view(), self.z.deep_view())
    }
}

impl SquashObject for Vector3int16 {
    open spec fn spec_encode(v: (<i16 as DeepView>::V, <i16 as DeepView>::V, <i16 as DeepView>::V)) -> Option<Seq<u8>> {
        match (<i16 as SquashObject>::spec_encode(v.0), <i16 as SquashObject>::spec_encode(v.1), <i16 as SquashObject>::spec_encode(v.2)) {
            (Some(e0), Some(e1), Some(e2)) => Some(e0 + e1 + e2),
            _ => None,
        }
    }

    open spec fn spec_decode(bytes: Seq<u8>) -> Option<((<i16 as DeepView>::V, <i16 as DeepView>::V, <i16 as DeepView>::V), nat)> {
        let b2 = bytes;
        match <i16 as SquashObject>::spec_decode(b2) {
            Some((x2, n2)) => {
                let b1 = b2.take(b2.len() - n2);
                match <i16 as SquashObject>::spec_decode(b1) {
                    Some((x1, n1)) => {
                        let b0 = b1.take(b1.len() - n1);
                        match <i16 as SquashObject>::spec_decode(b0) {
                            Some((x0, n0)) => {
                                Some(((x0, x1, x2), n0 + n1 + n2))
                            },
                            None => None,
                        }
                    },
                    None => None,
                }
            },
            None => None,
        }
    }

    open spec fn spec_roundtrips(v: (<i16 as DeepView>::V, <i16 as DeepView>::V, <i16 as DeepView>::V)) -> bool {
        &&& <i16 as SquashObject>::spec_roundtrips(v.0)
        &&& <i16 as SquashObject>::spec_roundtrips(v.1)
        &&& <i16 as SquashObject>::spec_roundtrips(v.2)
    }

    proof fn lemma_decode_len(bytes: Seq<u8>) {
        let b2 = bytes;
        <i16 as SquashObject>::lemma_decode_len(b2);
        if let Some((_, n2)) = <i16 as SquashObject>::spec_decode(b2) {
            let b1 = b2.take(b2.len() - n2);
            <i16 as SquashObject>::lemma_decode_len(b1);
            if let Some((_, n1)) = <i16 as SquashObject>::spec_decode(b1) {
                let b0 = b1.take(b1.len() - n1);
                <i16 as SquashObject>::lemma_decode_len(b0);
            }
        }
    }

    proof fn lemma_roundtrip(v: (<i16 as DeepView>::V, <i16 as DeepView>::V, <i16 as DeepView>::V), prefix: Seq<u8>) {
        let e0 = <i16 as SquashObject>::spec_encode(v.0)->0;
        let e1 = <i16 as SquashObject>::spec_encode(v.1)->0;
        let e2 = <i16 as SquashObject>::spec_encode(v.2)->0;
        let p0 = prefix;
        let p1 = p0 + e0;
        let p2 = p1 + e1;
        <i16 as SquashObject>::lemma_roundtrip(v.0, p0);
        <i16 as SquashObject>::lemma_roundtrip(v.1, p1);
        <i16 as SquashObject>::lemma_roundtrip(v.2, p2);
        let all = prefix + (e0 + e1 + e2);
        assert(all =~= p2 + e2);
        assert((p2 + e2).take((p2 + e2).len() - e2.len()) =~= p2);
        assert((p1 + e1).take((p1 + e1).len() - e1.len()) =~= p1);
    }

    fn push_obj(self, cursor: &mut SquashCursor) -> Result<usize> {
        let _ = cursor.position();
        let ghost start = cursor@;
        let ghost v = self.deep_view();
        let Vector3int16 { z, y, x } = self;
        let n0 = match cursor.push(x) {
            Ok(n) => n,
            Err(e) => {
                return Err(e);
            },
        };
        let _ = cursor.position();
        let n1 = match cursor.push(y) {
            Ok(n) => n,
            Err(e) => {
                return Err(e);
            },
        };
        let _ = cursor.position();
        let n2 = match cursor.push(z) {
            Ok(n) => n,
            Err(e) => {
                return Err(e);
            },
        };
        let _ = cursor.position();
        proof {
            let e0 = <i16 as SquashObject>::spec_encode(v.0)->0;
            let e1 = <i16 as SquashObject>::spec_encode(v.1)->0;
            let e2 = <i16 as SquashObject>::spec_encode(v.2)->0;
            lemma_pushed_pushed(start, e0, e1);
            lemma_pushed_pushed(start, e0 + e1, e2);
        }
        Ok(n0 + n1 + n2)
    }

    fn pop_obj(cursor: &mut SquashCursor) -> Result<Vector3int16> {
        let _ = cursor.position();
        let ghost c2 = cursor@;
        let z = match cursor.pop::<i16>() {
            Ok(x) => x,
            Err(e) => {
                return Err(e);
            },
        };
        proof {
            <i16 as SquashObject>::lemma_decode_len(c2.readable());
            lemma_popped(c2, <i16 as SquashObject>::spec_decode(c2.readable()).unwrap().1);
        }
        let ghost c1 = cursor@;
        let y = match cursor.pop::<i16>() {
            Ok(x) => x,
            Err(e) => {
                return Err(e);
            },
        };
        proof {
            <i16 as SquashObject>::lemma_decode_len(c1.readable());
            lemma_popped(c1, <i16 as SquashObject>::spec_decode(c1.readable()).unwrap().1);
        }
        let ghost c0 = cursor@;
        let x = match cursor.pop::<i16>() {
            Ok(x) => x,
            Err(e) => {
                return Err(e);
            },
        };
        Ok(Vector3int16 { z, y, x })
    }
}

impl<T: SquashNumber> Vector2<T> {
    pub fn new(x: T, y: T) -> (r: Vector2<T>)
        ensures
            r.x == x,
            r.y == y,
    {
        Vector2 { x, y }
    }
}

impl<T: SquashNumber> Vector3<T> {
    /// The origin.
    pub fn zero() -> (r: Vector3<T>)
        ensures
            r.x == T::spec_zero(),
            r.y == T::spec_zero(),
            r.z == T::spec_zero(),
    {
        Vector3 { x: T::zero(), y: T::zero(), z: T::zero() }
    }
}

/// A `Vector2` is written field by field: `x`, then `y`, each as its own type
/// writes it, one after another.
pub proof fn lemma_vector2_layout<T: SquashNumber>(r: Vector2<T>)
    ensures
        Vector2::<T>::spec_encode(r.deep_view()) == (match (<T as SquashObject>::spec_encode(r.x.deep_view()), <T as SquashObject>::spec_encode(r.y.deep_view())) {
            (Some(e0), Some(e1)) => Some(e0 + e1),
            _ => None,
        }),
{
}

/// A `Vector2int16` is written field by field: `x`, then `y`, each as its own type
/// writes it, one after another.
pub proof fn lemma_vector2int16_layout(r: Vector2int16)
    ensures
        Vector2int16::spec_encode(r.deep_view()) == (match (<i16 as SquashObject>::spec_encode(r.x.deep_view()), <i16 as SquashObject>::spec_encode(r.y.deep_view())) {
            (Some(e0), Some(e1)) => Some(e0 + e1),
            _ => None,
        }),
{
}

/// A `Vector3` is written field by field: `x`, then `y`, then `z`, each as its own type
/// writes it, one after another.
pub proof fn lemma_vector3_layout<T: SquashNumber>(r: Vector3<T>)
    ensures
        Vector3::<T>::spec_encode(r.deep_view()) == (match (<T as SquashObject>::spec_encode(r.x.deep_view()), <T as SquashObject>::spec_encode(r.y.deep_view()), <T as SquashObject>::spec_encode(r.z.deep_view())) {
            (Some(e0), Some(e1), Some(e2)) => Some(e0 + e1 + e2),
            _ => None,
        }),
{
}

/// A `Vector3int16` is written field by field: `x`, then `y`, then `z`, each as its own type
/// writes it, one after another.
pub proof fn lemma_vector3int16_layout(r: Vector3int16)
    ensures
        Vector3int16::spec_encode(r.deep_view()) == (match (<i16 as SquashObject>::spec_encode(r.x.deep_view()), <i16 as SquashObject>::spec_encode(r.y.deep_view()), <i16 as SquashObject>::spec_encode(r.z.deep_view())) {
            (Some(e0), Some(e1), Some(e2)) => Some(e0 + e1 + e2),
            _ => None,
        }),
{
}

} // verus!
