use vstd::prelude::*;

use crate::cursor::{lemma_popped, lemma_pushed_pushed, SquashCursor};
use crate::ds::bool_tuple::BoolTuple3;
use crate::error::Result;
use crate::object::SquashObject;
use crate::roblox::enum_item::EnumItem;

verus! {

/// The parameters of a raycast.
#[derive(Clone, PartialEq, PartialOrd, Debug, Default)]
pub struct RaycastParams {
    pub bool_data: BoolTuple3,
    pub filter_type: EnumItem,
    pub collision_group: String,
}

/// The deep view lists the fields in the order in which they are pushed.
impl DeepView for RaycastParams {
    type V = (<BoolTuple3 as DeepView>::V, <String as DeepView>::V, <EnumItem as DeepView>::V);

    open spec fn deep_view(&self) -> (<BoolTuple3 as DeepView>::V, <String as DeepView>::V, <EnumItem as DeepView>::V) {
        (self.bool_data.deep_view(), self.collision_group.deep_view(), self.filter_type.deep_view())
    }
}

impl SquashObject for RaycastParams {
    open spec fn spec_encode(v: (<BoolTuple3 as DeepView>::V, <String as DeepView>::V, <EnumItem as DeepView>::V)) -> Option<Seq<u8>> {
        match (<BoolTuple3 as SquashObject>::spec_encode(v.0), <String as SquashObject>::spec_encode(v.1), <EnumItem as SquashObject>::spec_encode(v.2)) {
            (Some(e0), Some(e1), Some(e2)) => Some(e0 + e1 + e2),
            _ => None,
        }
    }

    open spec fn spec_decode(bytes: Seq<u8>) -> Option<((<BoolTuple3 as DeepView>::V, <String as DeepView>::V, <EnumItem as DeepView>::V), nat)> {
        let b2 = bytes;
        match <EnumItem as SquashObject>::spec_decode(b2) {
            Some((x2, n2)) => {
                let b1 = b2.take(b2.len() - n2);
                match <String as SquashObject>::spec_decode(b1) {
                    Some((x1, n1)) => {
                        let b0 = b1.take(b1.len() - n1);
                        match <BoolTuple3 as SquashObject>::spec_decode(b0) {
                            Some((x0, n0)) => {
                                Some(((x0, x1, x2), n0 + n1 + n2))
                            },
                            None => None,
                        }
                    },
                    None => None,
                }
            },
            None => None,
        }
    }

    open spec fn spec_roundtrips(v: (<BoolTuple3 as DeepView>::V, <String as DeepView>::V, <EnumItem as DeepView>::V)) -> bool {
        &&& <BoolTuple3 as SquashObject>::spec_roundtrips(v.0)
        &&& <String as SquashObject>::spec_roundtrips(v.1)
        &&& <EnumItem as SquashObject>::spec_roundtrips(v.2)
    }

    proof fn lemma_decode_len(bytes: Seq<u8>) {
        let b2 = bytes;
        <EnumItem as SquashObject>::lemma_decode_len(b2);
        if let Some((_, n2)) = <EnumItem as SquashObject>::spec_decode(b2) {
            let b1 = b2.take(b2.len() - n2);
            <String as SquashObject>::lemma_decode_len(b1);
            if let Some((_, n1)) = <String as SquashObject>::spec_decode(b1) {
                let b0 = b1.take(b1.len() - n1);
                <BoolTuple3 as SquashObject>::lemma_decode_len(b0);
            }
        }
    }

    proof fn lemma_roundtrip(v: (<BoolTuple3 as DeepView>::V, <String as DeepView>::V, <EnumItem as DeepView>::V), prefix: Seq<u8>) {
        let e0 = <BoolTuple3 as SquashObject>::spec_encode(v.0)->0;
        let e1 = <String as SquashObject>::spec_encode(v.1)->0;
        let e2 = <EnumItem as SquashObject>::spec_encode(v.2)->0;
        let p0 = prefix;
        let p1 = p0 + e0;
        let p2 = p1 + e1;
        <BoolTuple3 as SquashObject>::lemma_roundtrip(v.0, p0);
        <String as SquashObject>::lemma_roundtrip(v.1, p1);
        <EnumItem as SquashObject>::lemma_roundtrip(v.2, p2);
        let all = prefix + (e0 + e1 + e2);
        assert(all =~= p2 + e2);
        assert((p2 + e2).take((p2 + e2).len() - e2.len()) =~= p2);
        assert((p1 + e1).take((p1 + e1).len() - e1.len()) =~= p1);
    }

    fn push_obj(self, cursor: &mut SquashCursor) -> Result<usize> {
        let _ = cursor.position();
        let ghost start = cursor@;
        let ghost v = self.deep_view();
        let RaycastParams { bool_data, filter_type, collision_group } = self;
        let n0 = match cursor.push(bool_data) {
            Ok(n) => n,
            Err(e) => {
                return Err(e);
            },
        };
        let _ = cursor.position();
        let n1 = match cursor.push(collision_group) {
            Ok(n) => n,
            Err(e) => {
                return Err(e);
            },
        };
        let _ = cursor.position();
        let n2 = match cursor.push(filter_type) {
            Ok(n) => n,
            Err(e) => {
                return Err(e);
            },
        };
        let _ = cursor.position();
        proof {
            let e0 = <BoolTuple3 as SquashObject>::spec_encode(v.0)->0;
            let e1 = <String as SquashObject>::spec_encode(v.1)->0;
            let e2 = <EnumItem as SquashObject>::spec_encode(v.2)->0;
            lemma_pushed_pushed(start, e0, e1);
            lemma_pushed_pushed(start, e0 + e1, e2);
        }
        Ok(n0 + n1 + n2)
    }

    fn pop_obj(cursor: &mut SquashCursor) -> Result<RaycastParams> {
        let _ = cursor.position();
        let ghost c2 = cursor@;
        let filter_type = match cursor.pop::<EnumItem>() {
            Ok(x) => x,
            Err(e) => {
                return Err(e);
            },
        };
        proof {
            <EnumItem as SquashObject>::lemma_decode_len(c2.readable());
            lemma_popped(c2, <EnumItem as SquashObject>::spec_decode(c2.readable()).unwrap().1);
        }
        let ghost c1 = cursor@;
        let collision_group = match cursor.pop::<String>() {
            Ok(x) => x,
            Err(e) => {
                return Err(e);
            },
        };
        proof {
            <String as SquashObject>::lemma_decode_len(c1.readable());
            lemma_popped(c1, <String as SquashObject>::spec_decode(c1.readable()).unwrap().1);
        }
        let ghost c0 = cursor@;
        let bool_data = match cursor.pop::<BoolTuple3>() {
            Ok(x) => x,
            Err(e) => {
                return Err(e);
            },
        };
        Ok(RaycastParams { bool_data, filter_type, collision_group })
    }
}

/// A `RaycastParams` is written field by field: `bool_data`, then `collision_group`, then `filter_type`, each as its own type
/// writes it, one after another.
pub proof fn lemma_raycast_params_layout(r: RaycastParams)
    ensures
        RaycastParams::spec_encode(r.deep_view()) == (match (<BoolTuple3 as SquashObject>::spec_encode(r.bool_data.deep_view()), <String as SquashObject>::spec_encode(r.collision_group.deep_view()), <EnumItem as SquashObject>::spec_encode(r.filter_type.deep_view())) {
            (Some(e0), Some(e1), Some(e2)) => Some(e0 + e1 + e2),
            _ => None,
        }),
{
}

} // verus!
