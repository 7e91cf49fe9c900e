use vstd::prelude::*;

use crate::cursor::{lemma_popped, lemma_pushed_pushed, SquashCursor};
use crate::error::Result;
use crate::num::SquashNumber;
use crate::object::SquashObject;
use crate::roblox::enum_item::EnumItem;
use crate::roblox::vector::Vector3;

verus! {

/// A waypoint of a path.
#[derive(Clone, PartialEq, PartialOrd, Debug, Default)]
pub struct PathWaypoint<T: SquashNumber> {
    pub label: String,
    pub action: EnumItem,
    pub position: Vector3<T>,
}

/// The deep view lists the fields in the order in which they are pushed.
impl<T: SquashNumber> DeepView for PathWaypoint<T> {
    type V = (<String as DeepView>::V, <EnumItem as DeepView>::V, <Vector3<T> as DeepView>::V);

    open spec fn deep_view(&self) -> (<String as DeepView>::V, <EnumItem as DeepView>::V, <Vector3<T> as DeepView>::V) {
        (self.label.deep_view(), self.action.deep_view(), self.position.deep_view())
    }
}

impl<T: SquashNumber> SquashObject for PathWaypoint<T> {
    open spec fn spec_encode(v: (<String as DeepView>::V, <EnumItem as DeepView>::V, <Vector3<T> as DeepView>::V)) -> Option<Seq<u8>> {
        match (<String as SquashObject>::spec_encode(v.0), <EnumItem as SquashObject>::spec_encode(v.1), <Vector3<T> as SquashObject>::spec_encode(v.2)) {
            (Some(e0), Some(e1), Some(e2)) => Some(e0 + e1 + e2),
            _ => None,
        }
    }

    open spec fn spec_decode(bytes: Seq<u8>) -> Option<((<String as DeepView>::V, <EnumItem as DeepView>::V, <Vector3<T> as DeepView>::V), nat)> {
        let b2 = bytes;
        match <Vector3<T> as SquashObject>::spec_decode(b2) {
            Some((x2, n2)) => {
                let b1 = b2.take(b2.len() - n2);
                match <EnumItem as SquashObject>::spec_decode(b1) {
                    Some((x1, n1)) => {
                        let b0 = b1.take(b1.len() - n1);
                        match <String as SquashObject>::spec_decode(b0) {
                            Some((x0, n0)) => {
                                Some(((x0, x1, x2), n0 + n1 + n2))
                            },
                            None => None,
                        }
                    },
                    None => None,
                }
            },
            None => None,
        }
    }

    open spec fn spec_roundtrips(v: (<String as DeepView>::V, <EnumItem as DeepView>::V, <Vector3<T> as DeepView>::V)) -> bool {
        &&& <String as SquashObject>::spec_roundtrips(v.0)
        &&& <EnumItem as SquashObject>::spec_roundtrips(v.1)
        &&& <Vector3<T> as SquashObject>::spec_roundtrips(v.2)
    }

    proof fn lemma_decode_len(bytes: Seq<u8>) {
        let b2 = bytes;
        <Vector3<T> as SquashObject>::lemma_decode_len(b2);
        if let Some((_, n2)) = <Vector3<T> as SquashObject>::spec_decode(b2) {
            let b1 = b2.take(b2.len() - n2);
            <EnumItem as SquashObject>::lemma_decode_len(b1);
            if let Some((_, n1)) = <EnumItem as SquashObject>::spec_decode(b1) {
                let b0 = b1.take(b1.len() - n1);
                <String as SquashObject>::lemma_decode_len(b0);
            }
        }
    }

    proof fn lemma_roundtrip(v: (<String as DeepView>::V, <EnumItem as DeepView>::V, <Vector3<T> as DeepView>::V), prefix: Seq<u8>) {
        let e0 = <String as SquashObject>::spec_encode(v.0)->0;
        let e1 = <EnumItem as SquashObject>::spec_encode(v.1)->0;
        let e2 = <Vector3<T> as SquashObject>::spec_encode(v.2)->0;
        let p0 = prefix;
        let p1 = p0 + e0;
        let p2 = p1 + e1;
        <String as SquashObject>::lemma_roundtrip(v.0, p0);
        <EnumItem as SquashObject>::lemma_roundtrip(v.1, p1);
        <Vector3<T> as SquashObject>::lemma_roundtrip(v.2, p2);
        let all = prefix + (e0 + e1 + e2);
        assert(all =~= p2 + e2);
        assert((p2 + e2).take((p2 + e2).len() - e2.len()) =~= p2);
        assert((p1 + e1).take((p1 + e1).len() - e1.len()) =~= p1);
    }

    fn push_obj(self, cursor: &mut SquashCursor) -> Result<usize> {
        let _ = cursor.position();
        let ghost start = cursor@;
        let ghost v = self.deep_view();
        let PathWaypoint { label, action, position } = self;
        let n0 = match cursor.push(label) {
            Ok(n) => n,
            Err(e) => {
                return Err(e);
            },
        };
        let _ = cursor.position();
        let n1 = match cursor.push(action) {
            Ok(n) => n,
            Err(e) => {
                return Err(e);
            },
        };
        let _ = cursor.position();
        let n2 = match cursor.push(position) {
            Ok(n) => n,
            Err(e) => {
                return Err(e);
            },
        };
        let _ = cursor.position();
        proof {
            let e0 = <String as SquashObject>::spec_encode(v.0)->0;
            let e1 = <EnumItem as SquashObject>::spec_encode(v.1)->0;
            let e2 = <Vector3<T> as SquashObject>::spec_encode(v.2)->0;
            lemma_pushed_pushed(start, e0, e1);
            lemma_pushed_pushed(start, e0 + e1, e2);
        }
        Ok(n0 + n1 + n2)
    }

    fn pop_obj(cursor: &mut SquashCursor) -> Result<PathWaypoint<T>> {
        let _ = cursor.position();
        let ghost c2 = cursor@;
        let position = match cursor.pop::<Vector3<T>>() {
            Ok(x) => x,
            Err(e) => {
                return Err(e);
            },
        };
        proof {
            <Vector3<T> as SquashObject>::lemma_decode_len(c2.readable());
            lemma_popped(c2, <Vector3<T> as SquashObject>::spec_decode(c2.readable()).unwrap().1);
        }
        let ghost c1 = cursor@;
        let action = match cursor.pop::<EnumItem>() {
            Ok(x) => x,
            Err(e) => {
                return Err(e);
            },
        };
        proof {
            <EnumItem as SquashObject>::lemma_decode_len(c1.readable());
            lemma_popped(c1, <EnumItem as SquashObject>::spec_decode(c1.readable()).unwrap().1);
        }
        let ghost c0 = cursor@;
        let label = match cursor.pop::<String>() {
            Ok(x) => x,
            Err(e) => {
                return Err(e);
            },
        };
        Ok(PathWaypoint { label, action, position })
    }
}

/// A `PathWaypoint` is written field by field: `label`, then `action`, then `position`, each as its own type
/// writes it, one after another.
pub proof fn lemma_path_waypoint_layout<T: SquashNumber>(r: PathWaypoint<T>)
    ensures
        PathWaypoint::<T>::spec_encode(r.deep_view()) == (match (<String as SquashObject>::spec_encode(r.label.deep_view()), <EnumItem as SquashObject>::spec_encode(r.action.deep_view()), <Vector3<T> as SquashObject>::spec_encode(r.position.deep_view())) {
            (Some(e0), Some(e1), Some(e2)) => Some(e0 + e1 + e2),
            _ => None,
        }),
{
}

} // verus!
