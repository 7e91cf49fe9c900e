use vstd::prelude::*;

use crate::cursor::SquashCursor;
use crate::error::Result;
use crate::num::vlq::Vlq;
use crate::object::SquashObject;

verus! {

/// An enum item, by its number.
#[derive(Copy, Clone, PartialEq, Eq, PartialOrd, Ord, Hash, Debug, Default)]
pub struct EnumItem(pub Vlq);

impl DeepView for EnumItem {
    type V = <Vlq as DeepView>::V;

    open spec fn deep_view(&self) -> <Vlq as DeepView>::V {
        self.0.deep_view()
    }
}

impl SquashObject for EnumItem {
    open spec fn spec_encode(v: <Vlq as DeepView>::V) -> Option<Seq<u8>> {
        <Vlq as SquashObject>::spec_encode(v)
    }

    open spec fn spec_decode(bytes: Seq<u8>) -> Option<(<Vlq as DeepView>::V, nat)> {
        <Vlq as SquashObject>::spec_decode(bytes)
    }

    open spec fn spec_roundtrips(v: <Vlq as DeepView>::V) -> bool {
        <Vlq as SquashObject>::spec_roundtrips(v)
    }

    proof fn lemma_decode_len(bytes: Seq<u8>) {
        <Vlq as SquashObject>::lemma_decode_len(bytes);
    }

    proof fn lemma_roundtrip(v: <Vlq as DeepView>::V, prefix: Seq<u8>) {
        <Vlq as SquashObject>::lemma_roundtrip(v, prefix);
    }

    fn push_obj(self, cursor: &mut SquashCursor) -> Result<usize> {
        cursor.push(self.0)
    }

    fn pop_obj(cursor: &mut SquashCursor) -> Result<EnumItem> {
        match cursor.pop::<Vlq>() {
            Ok(x) => Ok(EnumItem(x)),
            Err(e) => Err(e),
        }
    }
}

/// A `EnumItem` is written as the value it wraps.
pub proof fn lemma_enum_item_layout(r: EnumItem)
    ensures
        EnumItem::spec_encode(r.deep_view()) == (<Vlq as SquashObject>::spec_encode(r.0.deep_view())),
{
}

} // verus!
