use vstd::prelude::*;

use crate::cursor::{lemma_popped, lemma_pushed_pushed, SquashCursor};
use crate::error::Result;
use crate::object::SquashObject;
use crate::roblox::enum_item::EnumItem;

verus! {

/// A font: its family, weight and style.
#[derive(Clone, PartialEq, Eq, PartialOrd, Ord, Hash, Debug, Default)]
pub struct Font {
    pub family: String,
    pub bold: bool,
    pub weight: EnumItem,
    pub style: EnumItem,
}

/// The deep view lists the fields in the order in which they are pushed.
impl DeepView for Font {
    type V = (<String as DeepView>::V, <bool as DeepView>::V, <EnumItem as DeepView>::V, <EnumItem as DeepView>::V);

    open spec fn deep_view(&self) -> (<String as DeepView>::V, <bool as DeepView>::V, <EnumItem as DeepView>::V, <EnumItem as DeepView>::V) {
        (self.family.deep_view(), self.bold.deep_view(), self.weight.deep_view(), self.style.deep_view())
    }
}

impl SquashObject for Font {
    open spec fn spec_encode(v: (<String as DeepView>::V, <bool as DeepView>::V, <EnumItem as DeepView>::V, <EnumItem as DeepView>::V)) -> Option<Seq<u8>> {
        match (<String as SquashObject>::spec_encode(v.0), <bool as SquashObject>::spec_encode(v.1), <EnumItem as SquashObject>::spec_encode(v.2), <EnumItem as SquashObject>::spec_encode(v.3)) {
            (Some(e0), Some(e1), Some(e2), Some(e3)) => Some(e0 + e1 + e2 + e3),
            _ => None,
        }
    }

    open spec fn spec_decode(bytes: Seq<u8>) -> Option<((<String as DeepView>::V, <bool as DeepView>::V, <EnumItem as DeepView>::V, <EnumItem as DeepView>::V), nat)> {
        let b3 = bytes;
        match <EnumItem as SquashObject>::spec_decode(b3) {
            Some((x3, n3)) => {
                let b2 = b3.take(b3.len() - n3);
                match <EnumItem as SquashObject>::spec_decode(b2) {
                    Some((x2, n2)) => {
                        let b1 = b2.take(b2.len() - n2);
                        match <bool as SquashObject>::spec_decode(b1) {
                            Some((x1, n1)) => {
                                let b0 = b1.take(b1.len() - n1);
                                match <String as SquashObject>::spec_decode(b0) {
                                    Some((x0, n0)) => {
                                        Some(((x0, x1, x2, x3), n0 + n1 + n2 + n3))
                                    },
                                    None => None,
                                }
                            },
                            None => None,
                        }
                    },
                    None => None,
                }
            },
            None => None,
        }
    }

    open spec fn spec_roundtrips(v: (<String as DeepView>::V, <bool as DeepView>::V, <EnumItem as DeepView>::V, <EnumItem as DeepView>::V)) -> bool {
        &&& <String as SquashObject>::spec_roundtrips(v.0)
        &&& <bool as SquashObject>::spec_roundtrips(v.1)
        &&& <EnumItem as SquashObject>::spec_roundtrips(v.2)
        &&& <EnumItem as SquashObject>::spec_roundtrips(v.3)
    }

    proof fn lemma_decode_len(bytes: Seq<u8>) {
        let b3 = bytes;
        <EnumItem as SquashObject>::lemma_decode_len(b3);
        if let Some((_, n3)) = <EnumItem as SquashObject>::spec_decode(b3) {
            let b2 = b3.take(b3.len() - n3);
            <EnumItem as SquashObject>::lemma_decode_len(b2);
            if let Some((_, n2)) = <EnumItem as SquashObject>::spec_decode(b2) {
                let b1 = b2.take(b2.len() - n2);
                <bool as SquashObject>::lemma_decode_len(b1);
                if let Some((_, n1)) = <bool as SquashObject>::spec_decode(b1) {
                    let b0 = b1.take(b1.len() - n1);
                    <String as SquashObject>::lemma_decode_len(b0);
                }
            }
        }
    }

    proof fn lemma_roundtrip(v: (<String as DeepView>::V, <bool as DeepView>::V, <EnumItem as DeepView>::V, <EnumItem as DeepView>::V), prefix: Seq<u8>) {
        let e0 = <String as SquashObject>::spec_encode(v.0)->0;
        let e1 = <bool as SquashObject>::spec_encode(v.1)->0;
        let e2 = <EnumItem as SquashObject>::spec_encode(v.2)->0;
        let e3 = <EnumItem as SquashObject>::spec_encode(v.3)->0;
        let p0 = prefix;
        let p1 = p0 + e0;
        let p2 = p1 + e1;
        let p3 = p2 + e2;
        <String as SquashObject>::lemma_roundtrip(v.0, p0);
        <bool as SquashObject>::lemma_roundtrip(v.1, p1);
        <EnumItem as SquashObject>::lemma_roundtrip(v.2, p2);
        <EnumItem as SquashObject>::lemma_roundtrip(v.3, p3);
        let all = prefix + (e0 + e1 + e2 + e3);
        assert(all =~= p3 + e3);
        assert((p3 + e3).take((p3 + e3).len() - e3.len()) =~= p3);
        assert((p2 + e2).take((p2 + e2).len() - e2.len()) =~= p2);
        assert((p1 + e1).take((p1 + e1).len() - e1.len()) =~= p1);
    }

    fn push_obj(self, cursor: &mut SquashCursor) -> Result<usize> {
        let _ = cursor.position();
        let ghost start = cursor@;
        let ghost v = self.deep_view();
        let Font { family, bold, weight, style } = self;
        let n0 = match cursor.push(family) {
            Ok(n) => n,
            Err(e) => {
                return Err(e);
            },
        };
        let _ = cursor.position();
        let n1 = match cursor.push(bold) {
            Ok(n) => n,
            Err(e) => {
                return Err(e);
            },
        };
        let _ = cursor.position();
        let n2 = match cursor.push(weight) {
            Ok(n) => n,
            Err(e) => {
                return Err(e);
            },
        };
        let _ = cursor.position();
        let n3 = match cursor.push(style) {
            Ok(n) => n,
            Err(e) => {
                return Err(e);
            },
        };
        let _ = cursor.position();
        proof {
            let e0 = <String as SquashObject>::spec_encode(v.0)->0;
            let e1 = <bool as SquashObject>::spec_encode(v.1)->0;
            let e2 = <EnumItem as SquashObject>::spec_encode(v.2)->0;
            let e3 = <EnumItem as SquashObject>::spec_encode(v.3)->0;
            lemma_pushed_pushed(start, e0, e1);
            lemma_pushed_pushed(start, e0 + e1, e2);
            lemma_pushed_pushed(start, e0 + e1 + e2, e3);
        }
        Ok(n0 + n1 + n2 + n3)
    }

    fn pop_obj(cursor: &mut SquashCursor) -> Result<Font> {
        let _ = cursor.position();
        let ghost c3 = cursor@;
        let style = match cursor.pop::<EnumItem>() {
            Ok(x) => x,
            Err(e) => {
                return Err(e);
            },
        };
        proof {
            <EnumItem as SquashObject>::lemma_decode_len(c3.readable());
            lemma_popped(c3, <EnumItem as SquashObject>::spec_decode(c3.readable()).unwrap().1);
        }
        let ghost c2 = cursor@;
        let weight = match cursor.pop::<EnumItem>() {
            Ok(x) => x,
            Err(e) => {
                return Err(e);
            },
        };
        proof {
            <EnumItem as SquashObject>::lemma_decode_len(c2.readable());
            lemma_popped(c2, <EnumItem as SquashObject>::spec_decode(c2.readable()).unwrap().1);
        }
        let ghost c1 = cursor@;
        let bold = match cursor.pop::<bool>() {
            Ok(x) => x,
            Err(e) => {
                return Err(e);
            },
        };
        proof {
            <bool as SquashObject>::lemma_decode_len(c1.readable());
            lemma_popped(c1, <bool as SquashObject>::spec_decode(c1.readable()).unwrap().1);
        }
        let ghost c0 = cursor@;
        let family = match cursor.pop::<String>() {
            Ok(x) => x,
            Err(e) => {
                return Err(e);
            },
        };
        Ok(Font { family, bold, weight, style })
    }
}

/// A `Font` is written field by field: `family`, then `bold`, then `weight`, then `style`, each as its own type
/// writes it, one after another.
pub proof fn lemma_font_layout(r: Font)
    ensures
        Font::spec_encode(r.deep_view()) == (match (<String as SquashObject>::spec_encode(r.family.deep_view()), <bool as SquashObject>::spec_encode(r.bold.deep_view()), <EnumItem as SquashObject>::spec_encode(r.weight.deep_view()), <EnumItem as SquashObject>::spec_encode(r.style.deep_view())) {
            (Some(e0), Some(e1), Some(e2), Some(e3)) => Some(e0 + e1 + e2 + e3),
            _ => None,
        }),
{
}

} // verus!
