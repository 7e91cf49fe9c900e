use vstd::prelude::*;

use crate::cursor::SquashCursor;
use crate::error::Result;
use crate::object::SquashObject;
use vstd::std_specs::convert::FromSpec;

verus! {

/// Three axes and six faces, each on or off, pushed as a 16-bit number.
///
/// Turned into a number, `back` is bit 0, `bottom` bit 1, `front` bit 2,
/// `left` bit 3, `right` bit 4, `top` bit 5, and `x`, `y`, `z` bits 8 to 10.
/// Read from a number, `front` is bit 1 and `bottom` bit 2, so those two
/// change places on the way back.
#[derive(Copy, Clone, PartialEq, Eq, Structural, PartialOrd, Ord, Hash, Debug, Default)]
pub struct Axes {
    pub x: bool,
    pub y: bool,
    pub z: bool,
    pub top: bool,
    pub bottom: bool,
    pub left: bool,
    pub right: bool,
    pub back: bool,
    pub front: bool,
}

impl DeepView for Axes {
    type V = Axes;

    open spec fn deep_view(&self) -> Axes {
        *self
    }
}

/// `1` for `true`, `0` for `false`.
pub open spec fn bit16(b: bool) -> u16 {
    if b {
        1
    } else {
        0
    }
}

impl From<u16> for Axes {
    fn from(value: u16) -> (r: Axes) {
        Axes {
            x: (value & 256) != 0,
            y: (value & 512) != 0,
            z: (value & 1024) != 0,
            top: (value & 32) != 0,
            bottom: (value & 4) != 0,
            left: (value & 8) != 0,
            right: (value & 16) != 0,
            back: (value & 1) != 0,
            front: (value & 2) != 0,
        }
    }
}

impl vstd::std_specs::convert::FromSpecImpl<u16> for Axes {
    open spec fn obeys_from_spec() -> bool {
        true
    }

    open spec fn from_spec(value: u16) -> Axes {
        Axes {
            x: (value & 256) != 0,
            y: (value & 512) != 0,
            z: (value & 1024) != 0,
            top: (value & 32) != 0,
            bottom: (value & 4) != 0,
            left: (value & 8) != 0,
            right: (value & 16) != 0,
            back: (value & 1) != 0,
            front: (value & 2) != 0,
        }
    }
}

impl From<Axes> for u16 {
    fn from(value: Axes) -> (r: u16) {
        (if value.back { 1u16 } else { 0u16 }) | (if value.bottom { 1u16 } else { 0u16 }) << 1u16
            | (if value.front { 1u16 } else { 0u16 }) << 2u16 | (if value.left { 1u16 } else { 0u16 }) << 3u16
            | (if value.right { 1u16 } else { 0u16 }) << 4u16 | (if value.top { 1u16 } else { 0u16 }) << 5u16
            | (if value.x { 1u16 } else { 0u16 }) << 8u16 | (if value.y { 1u16 } else { 0u16 }) << 9u16
            | (if value.z { 1u16 } else { 0u16 }) << 10u16
    }
}

impl vstd::std_specs::convert::FromSpecImpl<Axes> for u16 {
    open spec fn obeys_from_spec() -> bool {
        true
    }

    open spec fn from_spec(value: Axes) -> u16 {
        bit16(value.back) | bit16(value.bottom) << 1u16 | bit16(value.front) << 2u16 | bit16(value.left) << 3u16
            | bit16(value.right) << 4u16 | bit16(value.top) << 5u16 | bit16(value.x) << 8u16 | bit16(value.y) << 9u16
            | bit16(value.z) << 10u16
    }
}

/// Where each flag stands in the packed number.
proof fn lemma_axes_bits(a: u16, b: u16, c: u16, d: u16, e: u16, f: u16, g: u16, h: u16, i: u16)
    requires
        a <= 1,
        b <= 1,
        c <= 1,
        d <= 1,
        e <= 1,
        f <= 1,
        g <= 1,
        h <= 1,
        i <= 1,
    ensures
        ({
            let p = a | b << 1u16 | c << 2u16 | d << 3u16 | e << 4u16 | f << 5u16 | g << 8u16 | h << 9u16 | i << 10u16;
            &&& (p & 1 != 0) == (a == 1)
            &&& (p & 2 != 0) == (b == 1)
            &&& (p & 4 != 0) == (c == 1)
            &&& (p & 8 != 0) == (d == 1)
            &&& (p & 16 != 0) == (e == 1)
            &&& (p & 32 != 0) == (f == 1)
            &&& (p & 256 != 0) == (g == 1)
            &&& (p & 512 != 0) == (h == 1)
            &&& (p & 1024 != 0) == (i == 1)
        }),
{
    assert({
        let p = a | b << 1u16 | c << 2u16 | d << 3u16 | e << 4u16 | f << 5u16 | g << 8u16 | h << 9u16 | i << 10u16;
        &&& (p & 1 != 0) == (a == 1)
        &&& (p & 2 != 0) == (b == 1)
        &&& (p & 4 != 0) == (c == 1)
        &&& (p & 8 != 0) == (d == 1)
        &&& (p & 16 != 0) == (e == 1)
        &&& (p & 32 != 0) == (f == 1)
        &&& (p & 256 != 0) == (g == 1)
        &&& (p & 512 != 0) == (h == 1)
        &&& (p & 1024 != 0) == (i == 1)
    }) by (bit_vector)
        requires
            a <= 1,
            b <= 1,
            c <= 1,
            d <= 1,
            e <= 1,
            f <= 1,
            g <= 1,
            h <= 1,
            i <= 1,
    ;
}

/// Axes turned into their number and back are the same axes with `bottom`
/// and `front` exchanged.
pub proof fn lemma_axes_number_roundtrip(v: Axes)
    ensures
        Axes::from_spec(u16::from_spec(v)) == (Axes { bottom: v.front, front: v.bottom, ..v }),
{
    lemma_axes_bits(
        bit16(v.back),
        bit16(v.bottom),
        bit16(v.front),
        bit16(v.left),
        bit16(v.right),
        bit16(v.top),
        bit16(v.x),
        bit16(v.y),
        bit16(v.z),
    );
}

/// Each flag has its own bit. As a number: `back` 1, `bottom` 2, `front` 4,
/// `left` 8, `right` 16, `top` 32, `x` 256, `y` 512, `z` 1024. Read from a
/// number: `back` 1, `front` 2, `bottom` 4, `left` 8, `right` 16, `top` 32,
/// `x` 256, `y` 512, `z` 1024.
pub proof fn lemma_axes_fixed_bits(a: Axes, v: u16)
    ensures
        u16::from_spec(a) as int == (if a.back { 1int } else { 0 }) + (if a.bottom { 2int } else { 0 }) + (if a.front {
            4int
        } else {
            0
        }) + (if a.left { 8int } else { 0 }) + (if a.right { 16int } else { 0 }) + (if a.top { 32int } else { 0 }) + (
        if a.x {
            256int
        } else {
            0
        }) + (if a.y { 512int } else { 0 }) + (if a.z { 1024int } else { 0 }),
        Axes::from_spec(v).back == (v % 2 == 1),
        Axes::from_spec(v).front == ((v / 2) % 2 == 1),
        Axes::from_spec(v).bottom == ((v / 4) % 2 == 1),
        Axes::from_spec(v).left == ((v / 8) % 2 == 1),
        Axes::from_spec(v).right == ((v / 16) % 2 == 1),
        Axes::from_spec(v).top == ((v / 32) % 2 == 1),
        Axes::from_spec(v).x == ((v / 256) % 2 == 1),
        Axes::from_spec(v).y == ((v / 512) % 2 == 1),
        Axes::from_spec(v).z == ((v / 1024) % 2 == 1),
{
    let (a0, b, c, d, e, f) = (bit16(a.back), bit16(a.bottom), bit16(a.front), bit16(a.left), bit16(a.right), bit16(a.top));
    let (g, h, i) = (bit16(a.x), bit16(a.y), bit16(a.z));
    assert((a0 | b << 1u16 | c << 2u16 | d << 3u16 | e << 4u16 | f << 5u16 | g << 8u16 | h << 9u16 | i << 10u16) == a0 + 2
        * b + 4 * c + 8 * d + 16 * e + 32 * f + 256 * g + 512 * h + 1024 * i) by (bit_vector)
        requires
            a0 <= 1,
            b <= 1,
            c <= 1,
            d <= 1,
            e <= 1,
            f <= 1,
            g <= 1,
            h <= 1,
            i <= 1,
    ;
    assert(((v & 1) != 0) == (v % 2 == 1) && ((v & 2) != 0) == ((v / 2) % 2 == 1) && ((v & 4) != 0) == ((v / 4)
        % 2 == 1) && ((v & 8) != 0) == ((v / 8) % 2 == 1) && ((v & 16) != 0) == ((v / 16) % 2 == 1) && ((v & 32)
        != 0) == ((v / 32) % 2 == 1) && ((v & 256) != 0) == ((v / 256) % 2 == 1) && ((v & 512) != 0) == ((v / 512)
        % 2 == 1) && ((v & 1024) != 0) == ((v / 1024) % 2 == 1)) by (bit_vector);
}

impl SquashObject for Axes {
    open spec fn spec_encode(v: Axes) -> Option<Seq<u8>> {
        u16::spec_encode(u16::from_spec(v))
    }

    open spec fn spec_decode(bytes: Seq<u8>) -> Option<(Axes, nat)> {
        match u16::spec_decode(bytes) {
            Some((x, k)) => Some((Axes::from_spec(x), k)),
            None => None,
        }
    }

    /// Only axes whose `bottom` and `front` agree read back unchanged.
    open spec fn spec_roundtrips(v: Axes) -> bool {
        v.bottom == v.front
    }

    proof fn lemma_decode_len(bytes: Seq<u8>) {
    }

    proof fn lemma_roundtrip(v: Axes, prefix: Seq<u8>) {
        u16::lemma_roundtrip(u16::from_spec(v), prefix);
        lemma_axes_number_roundtrip(v);
    }

    fn push_obj(self, cursor: &mut SquashCursor) -> Result<usize> {
        cursor.push(u16::from(self))
    }

    fn pop_obj(cursor: &mut SquashCursor) -> Result<Axes> {
        match cursor.pop::<u16>() {
            Ok(x) => Ok(Axes::from(x)),
            Err(e) => Err(e),
        }
    }
}

} // verus!
