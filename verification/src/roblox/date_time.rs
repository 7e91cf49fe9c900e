use vstd::prelude::*;

use crate::cursor::SquashCursor;
use crate::error::Result;
use crate::num::ux::u48;
use crate::object::SquashObject;

verus! {

/// A point in time, as a 48-bit number.
#[derive(Copy, Clone, PartialEq, Eq, PartialOrd, Ord, Hash, Debug, Default)]
pub struct DateTime(pub u48);

impl DeepView for DateTime {
    type V = <u48 as DeepView>::V;

    open spec fn deep_view(&self) -> <u48 as DeepView>::V {
        self.0.deep_view()
    }
}

impl SquashObject for DateTime {
    open spec fn spec_encode(v: <u48 as DeepView>::V) -> Option<Seq<u8>> {
        <u48 as SquashObject>::spec_encode(v)
    }

    open spec fn spec_decode(bytes: Seq<u8>) -> Option<(<u48 as DeepView>::V, nat)> {
        <u48 as SquashObject>::spec_decode(bytes)
    }

    open spec fn spec_roundtrips(v: <u48 as DeepView>::V) -> bool {
        <u48 as SquashObject>::spec_roundtrips(v)
    }

    proof fn lemma_decode_len(bytes: Seq<u8>) {
        <u48 as SquashObject>::lemma_decode_len(bytes);
    }

    proof fn lemma_roundtrip(v: <u48 as DeepView>::V, prefix: Seq<u8>) {
        <u48 as SquashObject>::lemma_roundtrip(v, prefix);
    }

    fn push_obj(self, cursor: &mut SquashCursor) -> Result<usize> {
        cursor.push(self.0)
    }

    fn pop_obj(cursor: &mut SquashCursor) -> Result<DateTime> {
        match cursor.pop::<u48>() {
            Ok(x) => Ok(DateTime(x)),
            Err(e) => Err(e),
        }
    }
}

/// A `DateTime` is written as the value it wraps.
pub proof fn lemma_date_time_layout(r: DateTime)
    ensures
        DateTime::spec_encode(r.deep_view()) == (<u48 as SquashObject>::spec_encode(r.0.deep_view())),
{
}

} // verus!
