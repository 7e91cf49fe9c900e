use vstd::prelude::*;

use crate::cursor::{lemma_popped, lemma_pushed_pushed, SquashCursor};
use crate::error::Result;
use crate::object::SquashObject;

verus! {

/// A colour of three 8-bit channels.
#[derive(Copy, Clone, PartialEq, Eq, PartialOrd, Ord, Hash, Debug, Default)]
pub struct Color3 {
    pub b: u8,
    pub g: u8,
    pub r: u8,
}

/// The deep view lists the fields in the order in which they are pushed.
impl DeepView for Color3 {
    type V = (<u8 as DeepView>::V, <u8 as DeepView>::V, <u8 as DeepView>::V);

    open spec fn deep_view(&self) -> (<u8 as DeepView>::V, <u8 as DeepView>::V, <u8 as DeepView>::V) {
        (self.b.deep_view(), self.g.deep_view(), self.r.deep_view())
    }
}

impl SquashObject for Color3 {
    open spec fn spec_encode(v: (<u8 as DeepView>::V, <u8 as DeepView>::V, <u8 as DeepView>::V)) -> Option<Seq<u8>> {
        match (<u8 as SquashObject>::spec_encode(v.0), <u8 as SquashObject>::spec_encode(v.1), <u8 as SquashObject>::spec_encode(v.2)) {
            (Some(e0), Some(e1), Some(e2)) => Some(e0 + e1 + e2),
            _ => None,
        }
    }

    open spec fn spec_decode(bytes: Seq<u8>) -> Option<((<u8 as DeepView>::V, <u8 as DeepView>::V, <u8 as DeepView>::V), nat)> {
        let b2 = bytes;
        match <u8 as SquashObject>::spec_decode(b2) {
            Some((x2, n2)) => {
                let b1 = b2.take(b2.len() - n2);
                match <u8 as SquashObject>::spec_decode(b1) {
                    Some((x1, n1)) => {
                        let b0 = b1.take(b1.len() - n1);
                        match <u8 as SquashObject>::spec_decode(b0) {
                            Some((x0, n0)) => {
                                Some(((x0, x1, x2), n0 + n1 + n2))
                            },
                            None => None,
                        }
                    },
                    None => None,
                }
            },
            None => None,
        }
    }

    open spec fn spec_roundtrips(v: (<u8 as DeepView>::V, <u8 as DeepView>::V, <u8 as DeepView>::V)) -> bool {
        &&& <u8 as SquashObject>::spec_roundtrips(v.0)
        &&& <u8 as SquashObject>::spec_roundtrips(v.1)
        &&& <u8 as SquashObject>::spec_roundtrips(v.2)
    }

    proof fn lemma_decode_len(bytes: Seq<u8>) {
        let b2 = bytes;
        <u8 as SquashObject>::lemma_decode_len(b2);
        if let Some((_, n2)) = <u8 as SquashObject>::spec_decode(b2) {
            let b1 = b2.take(b2.len() - n2);
            <u8 as SquashObject>::lemma_decode_len(b1);
            if let Some((_, n1)) = <u8 as SquashObject>::spec_decode(b1) {
                let b0 = b1.take(b1.len() - n1);
                <u8 as SquashObject>::lemma_decode_len(b0);
            }
        }
    }

    proof fn lemma_roundtrip(v: (<u8 as DeepView>::V, <u8 as DeepView>::V, <u8 as DeepView>::V), prefix: Seq<u8>) {
        let e0 = <u8 as SquashObject>::spec_encode(v.0)->0;
        let e1 = <u8 as SquashObject>::spec_encode(v.1)->0;
        let e2 = <u8 as SquashObject>::spec_encode(v.2)->0;
        let p0 = prefix;
        let p1 = p0 + e0;
        let p2 = p1 + e1;
        <u8 as SquashObject>::lemma_roundtrip(v.0, p0);
        <u8 as SquashObject>::lemma_roundtrip(v.1, p1);
        <u8 as SquashObject>::lemma_roundtrip(v.2, p2);
        let all = prefix + (e0 + e1 + e2);
        assert(all =~= p2 + e2);
        assert((p2 + e2).take((p2 + e2).len() - e2.len()) =~= p2);
        assert((p1 + e1).take((p1 + e1).len() - e1.len()) =~= p1);
    }

    fn push_obj(self, cursor: &mut SquashCursor) -> Result<usize> {
        let _ = cursor.position();
        let ghost start = cursor@;
        let ghost v = self.deep_view();
        let Color3 { b, g, r } = self;
        let n0 = match cursor.push(b) {
            Ok(n) => n,
            Err(e) => {
                return Err(e);
            },
        };
        let _ = cursor.position();
        let n1 = match cursor.push(g) {
            Ok(n) => n,
            Err(e) => {
                return Err(e);
            },
        };
        let _ = cursor.position();
        let n2 = match cursor.push(r) {
            Ok(n) => n,
            Err(e) => {
                return Err(e);
            },
        };
        let _ = cursor.position();
        proof {
            let e0 = <u8 as SquashObject>::spec_encode(v.0)->0;
            let e1 = <u8 as SquashObject>::spec_encode(v.1)->0;
            let e2 = <u8 as SquashObject>::spec_encode(v.2)->0;
            lemma_pushed_pushed(start, e0, e1);
            lemma_pushed_pushed(start, e0 + e1, e2);
        }
        Ok(n0 + n1 + n2)
    }

    fn pop_obj(cursor: &mut SquashCursor) -> Result<Color3> {
        let _ = cursor.position();
        let ghost c2 = cursor@;
        let r = match cursor.pop::<u8>() {
            Ok(x) => x,
            Err(e) => {
                return Err(e);
            },
        };
        proof {
            <u8 as SquashObject>::lemma_decode_len(c2.readable());
            lemma_popped(c2, <u8 as SquashObject>::spec_decode(c2.readable()).unwrap().1);
        }
        let ghost c1 = cursor@;
        let g = match cursor.pop::<u8>() {
            Ok(x) => x,
            Err(e) => {
                return Err(e);
            },
        };
        proof {
            <u8 as SquashObject>::lemma_decode_len(c1.readable());
            lemma_popped(c1, <u8 as SquashObject>::spec_decode(c1.readable()).unwrap().1);
        }
        let ghost c0 = cursor@;
        let b = match cursor.pop::<u8>() {
            Ok(x) => x,
            Err(e) => {
                return Err(e);
            },
        };
        Ok(Color3 { b, g, r })
    }
}

/// A colour at a point in time.
#[derive(Copy, Clone, PartialEq, Eq, PartialOrd, Ord, Hash, Debug, Default)]
pub struct ColorSequenceKeypoint {
    pub value: Color3,
    pub time: u8,
}

/// The deep view lists the fields in the order in which they are pushed.
impl DeepView for ColorSequenceKeypoint {
    type V = (<Color3 as DeepView>::V, <u8 as DeepView>::V);

    open spec fn deep_view(&self) -> (<Color3 as DeepView>::V, <u8 as DeepView>::V) {
        (self.value.deep_view(), self.time.deep_view())
    }
}

impl SquashObject for ColorSequenceKeypoint {
    open spec fn spec_encode(v: (<Color3 as DeepView>::V, <u8 as DeepView>::V)) -> Option<Seq<u8>> {
        match (<Color3 as SquashObject>::spec_encode(v.0), <u8 as SquashObject>::spec_encode(v.1)) {
            (Some(e0), Some(e1)) => Some(e0 + e1),
            _ => None,
        }
    }

    open spec fn spec_decode(bytes: Seq<u8>) -> Option<((<Color3 as DeepView>::V, <u8 as DeepView>::V), nat)> {
        let b1 = bytes;
        match <u8 as SquashObject>::spec_decode(b1) {
            Some((x1, n1)) => {
                let b0 = b1.take(b1.len() - n1);
                match <Color3 as SquashObject>::spec_decode(b0) {
                    Some((x0, n0)) => {
                        Some(((x0, x1), n0 + n1))
                    },
                    None => None,
                }
            },
            None => None,
        }
    }

    open spec fn spec_roundtrips(v: (<Color3 as DeepView>::V, <u8 as DeepView>::V)) -> bool {
        &&& <Color3 as SquashObject>::spec_roundtrips(v.0)
        &&& <u8 as SquashObject>::spec_roundtrips(v.1)
    }

    proof fn lemma_decode_len(bytes: Seq<u8>) {
        let b1 = bytes;
        <u8 as SquashObject>::lemma_decode_len(b1);
        if let Some((_, n1)) = <u8 as SquashObject>::spec_decode(b1) {
            let b0 = b1.take(b1.len() - n1);
            <Color3 as SquashObject>::lemma_decode_len(b0);
        }
    }

    proof fn lemma_roundtrip(v: (<Color3 as DeepView>::V, <u8 as DeepView>::V), prefix: Seq<u8>) {
        let e0 = <Color3 as SquashObject>::spec_encode(v.0)->0;
        let e1 = <u8 as SquashObject>::spec_encode(v.1)->0;
        let p0 = prefix;
        let p1 = p0 + e0;
        <Color3 as SquashObject>::lemma_roundtrip(v.0, p0);
        <u8 as SquashObject>::lemma_roundtrip(v.1, p1);
        let all = prefix + (e0 + e1);
        assert(all =~= p1 + e1);
        assert((p1 + e1).take((p1 + e1).len() - e1.len()) =~= p1);
    }

    fn push_obj(self, cursor: &mut SquashCursor) -> Result<usize> {
        let _ = cursor.position();
        let ghost start = cursor@;
        let ghost v = self.deep_view();
        let ColorSequenceKeypoint { value, time } = self;
        let n0 = match cursor.push(value) {
            Ok(n) => n,
            Err(e) => {
                return Err(e);
            },
        };
        let _ = cursor.position();
        let n1 = match cursor.push(time) {
            Ok(n) => n,
            Err(e) => {
                return Err(e);
            },
        };
        let _ = cursor.position();
        proof {
            let e0 = <Color3 as SquashObject>::spec_encode(v.0)->0;
            let e1 = <u8 as SquashObject>::spec_encode(v.1)->0;
            lemma_pushed_pushed(start, e0, e1);
        }
        Ok(n0 + n1)
    }

    fn pop_obj(cursor: &mut SquashCursor) -> Result<ColorSequenceKeypoint> {
        let _ = cursor.position();
        let ghost c1 = cursor@;
        let time = match cursor.pop::<u8>() {
            Ok(x) => x,
            Err(e) => {
                return Err(e);
            },
        };
        proof {
            <u8 as SquashObject>::lemma_decode_len(c1.readable());
            lemma_popped(c1, <u8 as SquashObject>::spec_decode(c1.readable()).unwrap().1);
        }
        let ghost c0 = cursor@;
        let value = match cursor.pop::<Color3>() {
            Ok(x) => x,
            Err(e) => {
                return Err(e);
            },
        };
        Ok(ColorSequenceKeypoint { value, time })
    }
}

/// A sequence of colour keypoints.
#[derive(Clone, PartialEq, Eq, PartialOrd, Ord, Hash, Debug, Default)]
pub struct ColorSequence(pub Vec<ColorSequenceKeypoint>);

impl DeepView for ColorSequence {
    type V = <Vec<ColorSequenceKeypoint> as DeepView>::V;

    open spec fn deep_view(&self) -> <Vec<ColorSequenceKeypoint> as DeepView>::V {
        self.0.deep_view()
    }
}

impl SquashObject for ColorSequence {
    open spec fn spec_encode(v: <Vec<ColorSequenceKeypoint> as DeepView>::V) -> Option<Seq<u8>> {
        <Vec<ColorSequenceKeypoint> as SquashObject>::spec_encode(v)
    }

    open spec fn spec_decode(bytes: Seq<u8>) -> Option<(<Vec<ColorSequenceKeypoint> as DeepView>::V, nat)> {
        <Vec<ColorSequenceKeypoint> as SquashObject>::spec_decode(bytes)
    }

    open spec fn spec_roundtrips(v: <Vec<ColorSequenceKeypoint> as DeepView>::V) -> bool {
        <Vec<ColorSequenceKeypoint> as SquashObject>::spec_roundtrips(v)
    }

    proof fn lemma_decode_len(bytes: Seq<u8>) {
        <Vec<ColorSequenceKeypoint> as SquashObject>::lemma_decode_len(bytes);
    }

    proof fn lemma_roundtrip(v: <Vec<ColorSequenceKeypoint> as DeepView>::V, prefix: Seq<u8>) {
        <Vec<ColorSequenceKeypoint> as SquashObject>::lemma_roundtrip(v, prefix);
    }

    fn push_obj(self, cursor: &mut SquashCursor) -> Result<usize> {
        cursor.push(self.0)
    }

    fn pop_obj(cursor: &mut SquashCursor) -> Result<ColorSequence> {
        match cursor.pop::<Vec<ColorSequenceKeypoint>>() {
            Ok(x) => Ok(ColorSequence(x)),
            Err(e) => Err(e),
        }
    }
}

/// A `Color3` is written field by field: `b`, then `g`, then `r`, each as its own type
/// writes it, one after another.
pub proof fn lemma_color3_layout(r: Color3)
    ensures
        Color3::spec_encode(r.deep_view()) == (match (<u8 as SquashObject>::spec_encode(r.b.deep_view()), <u8 as SquashObject>::spec_encode(r.g.deep_view()), <u8 as SquashObject>::spec_encode(r.r.deep_view())) {
            (Some(e0), Some(e1), Some(e2)) => Some(e0 + e1 + e2),
            _ => None,
        }),
{
}

/// A `ColorSequenceKeypoint` is written field by field: `value`, then `time`, each as its own type
/// writes it, one after another.
pub proof fn lemma_color_sequence_keypoint_layout(r: ColorSequenceKeypoint)
    ensures
        ColorSequenceKeypoint::spec_encode(r.deep_view()) == (match (<Color3 as SquashObject>::spec_encode(r.value.deep_view()), <u8 as SquashObject>::spec_encode(r.time.deep_view())) {
            (Some(e0), Some(e1)) => Some(e0 + e1),
            _ => None,
        }),
{
}

/// A `ColorSequence` is written as the value it wraps.
pub proof fn lemma_color_sequence_layout(r: ColorSequence)
    ensures
        ColorSequence::spec_encode(r.deep_view()) == (<Vec<ColorSequenceKeypoint> as SquashObject>::spec_encode(r.0.deep_view())),
{
}

} // verus!
