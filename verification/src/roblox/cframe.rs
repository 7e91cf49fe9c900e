use vstd::prelude::*;

use crate::cursor::{lemma_popped, lemma_pushed_pushed, SquashCursor};
use crate::error::Result;
use crate::num::SquashNumber;
use crate::object::SquashObject;
use crate::num::Zero;
use crate::roblox::vector::Vector3;

verus! {

/// The rotation of a coordinate frame, in three segments.
#[derive(Copy, Clone, PartialEq, PartialOrd, Debug, Default)]
pub struct CframeRotSegments {
    pub z: i16,
    pub y: i16,
    pub x: i16,
}

/// The deep view lists the fields in the order in which they are pushed.
impl DeepView for CframeRotSegments {
    type V = (<i16 as DeepView>::V, <i16 as DeepView>::V, <i16 as DeepView>::V);

    open spec fn deep_view(&self) -> (<i16 as DeepView>::V, <i16 as DeepView>::V, <i16 as DeepView>::V) {
        (self.x.deep_view(), self.y.deep_view(), self.z.deep_view())
    }
}

impl SquashObject for CframeRotSegments {
    open spec fn spec_encode(v: (<i16 as DeepView>::V, <i16 as DeepView>::V, <i16 as DeepView>::V)) -> Option<Seq<u8>> {
        match (<i16 as SquashObject>::spec_encode(v.0), <i16 as SquashObject>::spec_encode(v.1), <i16 as SquashObject>::spec_encode(v.2)) {
            (Some(e0), Some(e1), Some(e2)) => Some(e0 + e1 + e2),
            _ => None,
        }
    }

    open spec fn spec_decode(bytes: Seq<u8>) -> Option<((<i16 as DeepView>::V, <i16 as DeepView>::V, <i16 as DeepView>::V), nat)> {
        let b2 = bytes;
        match <i16 as SquashObject>::spec_decode(b2) {
            Some((x2, n2)) => {
                let b1 = b2.take(b2.len() - n2);
                match <i16 as SquashObject>::spec_decode(b1) {
                    Some((x1, n1)) => {
                        let b0 = b1.take(b1.len() - n1);
                        match <i16 as SquashObject>::spec_decode(b0) {
                            Some((x0, n0)) => {
                                Some(((x0, x1, x2), n0 + n1 + n2))
                            },
                            None => None,
                        }
                    },
                    None => None,
                }
            },
            None => None,
        }
    }

    open spec fn spec_roundtrips(v: (<i16 as DeepView>::V, <i16 as DeepView>::V, <i16 as DeepView>::V)) -> bool {
        &&& <i16 as SquashObject>::spec_roundtrips(v.0)
        &&& <i16 as SquashObject>::spec_roundtrips(v.1)
        &&& <i16 as SquashObject>::spec_roundtrips(v.2)
    }

    proof fn lemma_decode_len(bytes: Seq<u8>) {
        let b2 = bytes;
        <i16 as SquashObject>::lemma_decode_len(b2);
        if let Some((_, n2)) = <i16 as SquashObject>::spec_decode(b2) {
            let b1 = b2.take(b2.len() - n2);
            <i16 as SquashObject>::lemma_decode_len(b1);
            if let Some((_, n1)) = <i16 as SquashObject>::spec_decode(b1) {
                let b0 = b1.take(b1.len() - n1);
                <i16 as SquashObject>::lemma_decode_len(b0);
            }
        }
    }

    proof fn lemma_roundtrip(v: (<i16 as DeepView>::V, <i16 as DeepView>::V, <i16 as DeepView>::V), prefix: Seq<u8>) {
        let e0 = <i16 as SquashObject>::spec_encode(v.0)->0;
        let e1 = <i16 as SquashObject>::spec_encode(v.1)->0;
        let e2 = <i16 as SquashObject>::spec_encode(v.2)->0;
        let p0 = prefix;
        let p1 = p0 + e0;
        let p2 = p1 + e1;
        <i16 as SquashObject>::lemma_roundtrip(v.0, p0);
        <i16 as SquashObject>::lemma_roundtrip(v.1, p1);
        <i16 as SquashObject>::lemma_roundtrip(v.2, p2);
        let all = prefix + (e0 + e1 + e2);
        assert(all =~= p2 + e2);
        assert((p2 + e2).take((p2 + e2).len() - e2.len()) =~= p2);
        assert((p1 + e1).take((p1 + e1).len() - e1.len()) =~= p1);
    }

    fn push_obj(self, cursor: &mut SquashCursor) -> Result<usize> {
        let _ = cursor.position();
        let ghost start = cursor@;
        let ghost v = self.deep_view();
        let CframeRotSegments { z, y, x } = self;
        let n0 = match cursor.push(x) {
            Ok(n) => n,
            Err(e) => {
                return Err(e);
            },
        };
        let _ = cursor.position();
        let n1 = match cursor.push(y) {
            Ok(n) => n,
            Err(e) => {
                return Err(e);
            },
        };
        let _ = cursor.position();
        let n2 = match cursor.push(z) {
            Ok(n) => n,
            Err(e) => {
                return Err(e);
            },
        };
        let _ = cursor.position();
        proof {
            let e0 = <i16 as SquashObject>::spec_encode(v.0)->0;
            let e1 = <i16 as SquashObject>::spec_encode(v.1)->0;
            let e2 = <i16 as SquashObject>::spec_encode(v.2)->0;
            lemma_pushed_pushed(start, e0, e1);
            lemma_pushed_pushed(start, e0 + e1, e2);
        }
        Ok(n0 + n1 + n2)
    }

    fn pop_obj(cursor: &mut SquashCursor) -> Result<CframeRotSegments> {
        let _ = cursor.position();
        let ghost c2 = cursor@;
        let z = match cursor.pop::<i16>() {
            Ok(x) => x,
            Err(e) => {
                return Err(e);
            },
        };
        proof {
            <i16 as SquashObject>::lemma_decode_len(c2.readable());
            lemma_popped(c2, <i16 as SquashObject>::spec_decode(c2.readable()).unwrap().1);
        }
        let ghost c1 = cursor@;
        let y = match cursor.pop::<i16>() {
            Ok(x) => x,
            Err(e) => {
                return Err(e);
            },
        };
        proof {
            <i16 as SquashObject>::lemma_decode_len(c1.readable());
            lemma_popped(c1, <i16 as SquashObject>::spec_decode(c1.readable()).unwrap().1);
        }
        let ghost c0 = cursor@;
        let x = match cursor.pop::<i16>() {
            Ok(x) => x,
            Err(e) => {
                return Err(e);
            },
        };
        Ok(CframeRotSegments { z, y, x })
    }
}

/// The rotations that have a special id, by id (`x`, `y`, `z`); there are
/// ids 1 to 24, and 0 stands for none.
pub open spec fn spec_cframe_rot(i: nat) -> (int, int, int) {
    if i == 1 {
        (0, 0, 0)
    } else if i == 2 {
        (1608, 0, 0)
    } else if i == 3 {
        (3216, -1, -1)
    } else if i == 4 {
        (-1609, 0, 0)
    } else if i == 5 {
        (2274, 2274, -1)
    } else if i == 6 {
        (1238, 1238, 1238)
    } else if i == 7 {
        (0, 0, 1608)
    } else if i == 8 {
        (-1239, -1239, 1238)
    } else if i == 9 {
        (-1239, -1239, 1238)
    } else if i == 10 {
        (0, -1609, 0)
    } else if i == 11 {
        (1238, -1239, -1239)
    } else if i == 12 {
        (2274, -1, 2274)
    } else if i == 13 {
        (2274, -1, -2275)
    } else if i == 14 {
        (0, 3216, 0)
    } else if i == 15 {
        (0, -2275, 2274)
    } else if i == 16 {
        (0, 0, 3216)
    } else if i == 17 {
        (-1, 2274, 2274)
    } else if i == 18 {
        (0, 0, -1609)
    } else if i == 19 {
        (1238, -1239, -1239)
    } else if i == 20 {
        (2274, -2275, 0)
    } else if i == 21 {
        (-1239, 1238, -1239)
    } else if i == 22 {
        (1238, 1238, 1238)
    } else if i == 23 {
        (0, 1608, 0)
    } else if i == 24 {
        (-1239, 1238, -1239)
    } else {
        (0, 0, 0)
    }
}

/// The rotation of special id `i`, for `i < 25`.
fn cframe_rot(i: u8) -> (r: CframeRotSegments)
    requires
        i < 25,
    ensures
        (r.x as int, r.y as int, r.z as int) == spec_cframe_rot(i as nat),
{
    match i {
        0 => CframeRotSegments { x: 0, y: 0, z: 0 },
        1 => CframeRotSegments { x: 0, y: 0, z: 0 },
        2 => CframeRotSegments { x: 1608, y: 0, z: 0 },
        3 => CframeRotSegments { x: 3216, y: -1, z: -1 },
        4 => CframeRotSegments { x: -1609, y: 0, z: 0 },
        5 => CframeRotSegments { x: 2274, y: 2274, z: -1 },
        6 => CframeRotSegments { x: 1238, y: 1238, z: 1238 },
        7 => CframeRotSegments { x: 0, y: 0, z: 1608 },
        8 => CframeRotSegments { x: -1239, y: -1239, z: 1238 },
        9 => CframeRotSegments { x: -1239, y: -1239, z: 1238 },
        10 => CframeRotSegments { x: 0, y: -1609, z: 0 },
        11 => CframeRotSegments { x: 1238, y: -1239, z: -1239 },
        12 => CframeRotSegments { x: 2274, y: -1, z: 2274 },
        13 => CframeRotSegments { x: 2274, y: -1, z: -2275 },
        14 => CframeRotSegments { x: 0, y: 3216, z: 0 },
        15 => CframeRotSegments { x: 0, y: -2275, z: 2274 },
        16 => CframeRotSegments { x: 0, y: 0, z: 3216 },
        17 => CframeRotSegments { x: -1, y: 2274, z: 2274 },
        18 => CframeRotSegments { x: 0, y: 0, z: -1609 },
        19 => CframeRotSegments { x: 1238, y: -1239, z: -1239 },
        20 => CframeRotSegments { x: 2274, y: -2275, z: 0 },
        21 => CframeRotSegments { x: -1239, y: 1238, z: -1239 },
        22 => CframeRotSegments { x: 1238, y: 1238, z: 1238 },
        23 => CframeRotSegments { x: 0, y: 1608, z: 0 },
        _ => CframeRotSegments { x: -1239, y: 1238, z: -1239 },
    }
}

/// The first id from `i` up to 24 whose rotation is `r`, or `None`.
pub open spec fn special_id_from(r: (int, int, int), i: nat) -> Option<u8>
    decreases 25 - i,
{
    if i >= 25 {
        None
    } else if spec_cframe_rot(i) == r {
        Some(i as u8)
    } else {
        special_id_from(r, i + 1)
    }
}

/// The rotation (`x`, `y`, `z`) of each special id from 1 to 24.
pub proof fn lemma_special_id_rotations()
    ensures
        spec_cframe_rot(1) == (0int, 0int, 0int),
        spec_cframe_rot(2) == (1608int, 0int, 0int),
        spec_cframe_rot(3) == (3216int, -1int, -1int),
        spec_cframe_rot(4) == (-1609int, 0int, 0int),
        spec_cframe_rot(5) == (2274int, 2274int, -1int),
        spec_cframe_rot(6) == (1238int, 1238int, 1238int),
        spec_cframe_rot(7) == (0int, 0int, 1608int),
        spec_cframe_rot(8) == (-1239int, -1239int, 1238int),
        spec_cframe_rot(9) == (-1239int, -1239int, 1238int),
        spec_cframe_rot(10) == (0int, -1609int, 0int),
        spec_cframe_rot(11) == (1238int, -1239int, -1239int),
        spec_cframe_rot(12) == (2274int, -1int, 2274int),
        spec_cframe_rot(13) == (2274int, -1int, -2275int),
        spec_cframe_rot(14) == (0int, 3216int, 0int),
        spec_cframe_rot(15) == (0int, -2275int, 2274int),
        spec_cframe_rot(16) == (0int, 0int, 3216int),
        spec_cframe_rot(17) == (-1int, 2274int, 2274int),
        spec_cframe_rot(18) == (0int, 0int, -1609int),
        spec_cframe_rot(19) == (1238int, -1239int, -1239int),
        spec_cframe_rot(20) == (2274int, -2275int, 0int),
        spec_cframe_rot(21) == (-1239int, 1238int, -1239int),
        spec_cframe_rot(22) == (1238int, 1238int, 1238int),
        spec_cframe_rot(23) == (0int, 1608int, 0int),
        spec_cframe_rot(24) == (-1239int, 1238int, -1239int),
{
}

proof fn lemma_special_id_from(r: (int, int, int), i: nat)
    requires
        1 <= i,
    ensures
        special_id_from(r, i) matches Some(k) ==> i <= k < 25 && spec_cframe_rot(k as nat) == r
            && forall|j: nat| i <= j < k ==> spec_cframe_rot(j) != r,
        special_id_from(r, i) is None ==> forall|j: nat| i <= j < 25 ==> spec_cframe_rot(j) != r,
    decreases 25 - i,
{
    if i < 25 && spec_cframe_rot(i) != r {
        lemma_special_id_from(r, i + 1);
    }
}

/// The special id of a rotation is the least id from 1 to 24 with that
/// rotation, and a rotation has none only where no id has it.
pub proof fn lemma_special_id_least(r: (int, int, int))
    ensures
        special_id_from(r, 1) matches Some(k) ==> 1 <= k < 25 && spec_cframe_rot(k as nat) == r
            && forall|j: nat| 1 <= j < k ==> spec_cframe_rot(j) != r,
        special_id_from(r, 1) is None ==> forall|j: nat| 1 <= j < 25 ==> spec_cframe_rot(j) != r,
{
    lemma_special_id_from(r, 1);
}

impl CframeRotSegments {
    pub fn new(x: i16, y: i16, z: i16) -> (r: CframeRotSegments)
        ensures
            r.x == x,
            r.y == y,
            r.z == z,
    {
        CframeRotSegments { x, y, z }
    }

    /// The rotation of special id `id`, for ids 1 to 24; `None` above 25.
    /// Id 25 passes the bound and has no entry.
    pub fn from_special_id(id: u8) -> (r: Option<CframeRotSegments>)
        requires
            id != 0,
            id != 25,
        ensures
            id > 25 ==> r is None,
            id < 25 ==> (r matches Some(s) && (s.x as int, s.y as int, s.z as int) == spec_cframe_rot(id as nat)),
    {
        if id > 25 {
            None
        } else {
            Some(cframe_rot(id))
        }
    }
}

impl<T: SquashNumber> Cframe<T> {
    /// The first special id whose rotation equals this frame's, if any.
    pub fn special_id(&self) -> (r: Option<u8>)
        ensures
            r == special_id_from((self.rotation.x as int, self.rotation.y as int, self.rotation.z as int), 1),
    {
        let ghost rot = (self.rotation.x as int, self.rotation.y as int, self.rotation.z as int);
        let mut i: u8 = 1;
        while i < 25
            invariant
                1 <= i <= 25,
                rot == (self.rotation.x as int, self.rotation.y as int, self.rotation.z as int),
                special_id_from(rot, i as nat) == special_id_from(rot, 1),
            decreases 25 - i,
        {
            let rots = cframe_rot(i);
            if rots.x == self.rotation.x && rots.y == self.rotation.y && rots.z == self.rotation.z {
                return Some(i);
            }
            i = i + 1;
        }
        None
    }

    /// The frame at the origin with the rotation of special id `id`, for ids
    /// 1 to 24; `None` above 25. Id 25 passes the bound and has no entry.
    pub fn from_special_id(id: u8) -> (r: Option<Cframe<T>>)
        requires
            id != 0,
            id != 25,
        ensures
            id > 25 ==> r is None,
            id < 25 ==> (r matches Some(c) && (c.rotation.x as int, c.rotation.y as int, c.rotation.z as int) == spec_cframe_rot(id as nat)
                && c.position.x == T::spec_zero() && c.position.y == T::spec_zero() && c.position.z == T::spec_zero()),
    {
        let rotation = match CframeRotSegments::from_special_id(id) {
            Some(r) => r,
            None => {
                return None;
            },
        };
        Some(Cframe { rotation, position: Vector3::zero() })
    }
}

/// A coordinate frame: a rotation and a position.
#[derive(Copy, Clone, PartialEq, PartialOrd, Debug, Default)]
pub struct Cframe<T: SquashNumber> {
    pub rotation: CframeRotSegments,
    pub position: Vector3<T>,
}

/// The deep view lists the fields in the order in which they are pushed.
impl<T: SquashNumber> DeepView for Cframe<T> {
    type V = (<CframeRotSegments as DeepView>::V, <Vector3<T> as DeepView>::V);

    open spec fn deep_view(&self) -> (<CframeRotSegments as DeepView>::V, <Vector3<T> as DeepView>::V) {
        (self.rotation.deep_view(), self.position.deep_view())
    }
}

impl<T: SquashNumber> SquashObject for Cframe<T> {
    open spec fn spec_encode(v: (<CframeRotSegments as DeepView>::V, <Vector3<T> as DeepView>::V)) -> Option<Seq<u8>> {
        match (<CframeRotSegments as SquashObject>::spec_encode(v.0), <Vector3<T> as SquashObject>::spec_encode(v.1)) {
            (Some(e0), Some(e1)) => Some(e0 + e1),
            _ => None,
        }
    }

    open spec fn spec_decode(bytes: Seq<u8>) -> Option<((<CframeRotSegments as DeepView>::V, <Vector3<T> as DeepView>::V), nat)> {
        let b1 = bytes;
        match <Vector3<T> as SquashObject>::spec_decode(b1) {
            Some((x1, n1)) => {
                let b0 = b1.take(b1.len() - n1);
                match <CframeRotSegments as SquashObject>::spec_decode(b0) {
                    Some((x0, n0)) => {
                        Some(((x0, x1), n0 + n1))
                    },
                    None => None,
                }
            },
            None => None,
        }
    }

    open spec fn spec_roundtrips(v: (<CframeRotSegments as DeepView>::V, <Vector3<T> as DeepView>::V)) -> bool {
        &&& <CframeRotSegments as SquashObject>::spec_roundtrips(v.0)
        &&& <Vector3<T> as SquashObject>::spec_roundtrips(v.1)
    }

    proof fn lemma_decode_len(bytes: Seq<u8>) {
        let b1 = bytes;
        <Vector3<T> as SquashObject>::lemma_decode_len(b1);
        if let Some((_, n1)) = <Vector3<T> as SquashObject>::spec_decode(b1) {
            let b0 = b1.take(b1.len() - n1);
            <CframeRotSegments as SquashObject>::lemma_decode_len(b0);
        }
    }

    proof fn lemma_roundtrip(v: (<CframeRotSegments as DeepView>::V, <Vector3<T> as DeepView>::V), prefix: Seq<u8>) {
        let e0 = <CframeRotSegments as SquashObject>::spec_encode(v.0)->0;
        let e1 = <Vector3<T> as SquashObject>::spec_encode(v.1)->0;
        let p0 = prefix;
        let p1 = p0 + e0;
        <CframeRotSegments as SquashObject>::lemma_roundtrip(v.0, p0);
        <Vector3<T> as SquashObject>::lemma_roundtrip(v.1, p1);
        let all = prefix + (e0 + e1);
        assert(all =~= p1 + e1);
        assert((p1 + e1).take((p1 + e1).len() - e1.len()) =~= p1);
    }

    fn push_obj(self, cursor: &mut SquashCursor) -> Result<usize> {
        let _ = cursor.position();
        let ghost start = cursor@;
        let ghost v = self.deep_view();
        let Cframe { rotation, position } = self;
        let n0 = match cursor.push(rotation) {
            Ok(n) => n,
            Err(e) => {
                return Err(e);
            },
        };
        let _ = cursor.position();
        let n1 = match cursor.push(position) {
            Ok(n) => n,
            Err(e) => {
                return Err(e);
            },
        };
        let _ = cursor.position();
        proof {
            let e0 = <CframeRotSegments as SquashObject>::spec_encode(v.0)->0;
            let e1 = <Vector3<T> as SquashObject>::spec_encode(v.1)->0;
            lemma_pushed_pushed(start, e0, e1);
        }
        Ok(n0 + n1)
    }

    fn pop_obj(cursor: &mut SquashCursor) -> Result<Cframe<T>> {
        let _ = cursor.position();
        let ghost c1 = cursor@;
        let position = match cursor.pop::<Vector3<T>>() {
            Ok(x) => x,
            Err(e) => {
                return Err(e);
            },
        };
        proof {
            <Vector3<T> as SquashObject>::lemma_decode_len(c1.readable());
            lemma_popped(c1, <Vector3<T> as SquashObject>::spec_decode(c1.readable()).unwrap().1);
        }
        let ghost c0 = cursor@;
        let rotation = match cursor.pop::<CframeRotSegments>() {
            Ok(x) => x,
            Err(e) => {
                return Err(e);
            },
        };
        Ok(Cframe { rotation, position })
    }
}

/// A `CframeRotSegments` is written field by field: `x`, then `y`, then `z`, each as its own type
/// writes it, one after another.
pub proof fn lemma_cframe_rot_segments_layout(r: CframeRotSegments)
    ensures
        CframeRotSegments::spec_encode(r.deep_view()) == (match (<i16 as SquashObject>::spec_encode(r.x.deep_view()), <i16 as SquashObject>::spec_encode(r.y.deep_view()), <i16 as SquashObject>::spec_encode(r.z.deep_view())) {
            (Some(e0), Some(e1), Some(e2)) => Some(e0 + e1 + e2),
            _ => None,
        }),
{
}

/// A `Cframe` is written field by field: `rotation`, then `position`, each as its own type
/// writes it, one after another.
pub proof fn lemma_cframe_layout<T: SquashNumber>(r: Cframe<T>)
    ensures
        Cframe::<T>::spec_encode(r.deep_view()) == (match (<CframeRotSegments as SquashObject>::spec_encode(r.rotation.deep_view()), <Vector3<T> as SquashObject>::spec_encode(r.position.deep_view())) {
            (Some(e0), Some(e1)) => Some(e0 + e1),
            _ => None,
        }),
{
}

} // verus!
