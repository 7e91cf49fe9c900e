use vstd::prelude::*;

use crate::cursor::SquashCursor;
use crate::error::Result;
use crate::object::SquashObject;
use vstd::std_specs::convert::FromSpec;

verus! {

/// Six faces, each on or off, pushed as one byte: `back` in the lowest bit,
/// then `bottom`, `front`, `left`, `right` and `top`.
#[derive(Copy, Clone, PartialEq, Eq, Structural, PartialOrd, Ord, Hash, Debug, Default)]
pub struct Faces {
    pub back: bool,
    pub bottom: bool,
    pub front: bool,
    pub left: bool,
    pub right: bool,
    pub top: bool,
}

impl DeepView for Faces {
    type V = Faces;

    open spec fn deep_view(&self) -> Faces {
        *self
    }
}

/// `1` for `true`, `0` for `false`.
pub open spec fn bit8(b: bool) -> u8 {
    if b {
        1
    } else {
        0
    }
}

/// The flags of the six lowest bits of `x`.
impl From<u8> for Faces {
    fn from(x: u8) -> (r: Faces) {
        Faces {
            back: (x & 1) != 0,
            bottom: (x & 2) != 0,
            front: (x & 4) != 0,
            left: (x & 8) != 0,
            right: (x & 16) != 0,
            top: (x & 32) != 0,
        }
    }
}

impl vstd::std_specs::convert::FromSpecImpl<u8> for Faces {
    open spec fn obeys_from_spec() -> bool {
        true
    }

    open spec fn from_spec(x: u8) -> Faces {
        Faces {
            back: (x & 1) != 0,
            bottom: (x & 2) != 0,
            front: (x & 4) != 0,
            left: (x & 8) != 0,
            right: (x & 16) != 0,
            top: (x & 32) != 0,
        }
    }
}

/// The byte of the six flags.
impl From<Faces> for u8 {
    fn from(x: Faces) -> (r: u8) {
        (if x.back { 1u8 } else { 0u8 }) | (if x.bottom { 1u8 } else { 0u8 }) << 1u8 | (if x.front { 1u8 } else { 0u8 }) << 2u8
            | (if x.left { 1u8 } else { 0u8 }) << 3u8 | (if x.right { 1u8 } else { 0u8 }) << 4u8 | (if x.top { 1u8 } else { 0u8 }) << 5u8
    }
}

impl vstd::std_specs::convert::FromSpecImpl<Faces> for u8 {
    open spec fn obeys_from_spec() -> bool {
        true
    }

    open spec fn from_spec(x: Faces) -> u8 {
        bit8(x.back) | bit8(x.bottom) << 1u8 | bit8(x.front) << 2u8 | bit8(x.left) << 3u8 | bit8(x.right) << 4u8
            | bit8(x.top) << 5u8
    }
}

/// Each flag packed into a byte comes back from its own bit.
proof fn lemma_faces_bits(a: u8, b: u8, c: u8, d: u8, e: u8, f: u8)
    requires
        a <= 1,
        b <= 1,
        c <= 1,
        d <= 1,
        e <= 1,
        f <= 1,
    ensures
        ((a | b << 1u8 | c << 2u8 | d << 3u8 | e << 4u8 | f << 5u8) & 1 != 0) == (a == 1),
        ((a | b << 1u8 | c << 2u8 | d << 3u8 | e << 4u8 | f << 5u8) & 2 != 0) == (b == 1),
        ((a | b << 1u8 | c << 2u8 | d << 3u8 | e << 4u8 | f << 5u8) & 4 != 0) == (c == 1),
        ((a | b << 1u8 | c << 2u8 | d << 3u8 | e << 4u8 | f << 5u8) & 8 != 0) == (d == 1),
        ((a | b << 1u8 | c << 2u8 | d << 3u8 | e << 4u8 | f << 5u8) & 16 != 0) == (e == 1),
        ((a | b << 1u8 | c << 2u8 | d << 3u8 | e << 4u8 | f << 5u8) & 32 != 0) == (f == 1),
{
    assert(((a | b << 1u8 | c << 2u8 | d << 3u8 | e << 4u8 | f << 5u8) & 1 != 0) == (a == 1)
        && ((a | b << 1u8 | c << 2u8 | d << 3u8 | e << 4u8 | f << 5u8) & 2 != 0) == (b == 1)
        && ((a | b << 1u8 | c << 2u8 | d << 3u8 | e << 4u8 | f << 5u8) & 4 != 0) == (c == 1)
        && ((a | b << 1u8 | c << 2u8 | d << 3u8 | e << 4u8 | f << 5u8) & 8 != 0) == (d == 1)
        && ((a | b << 1u8 | c << 2u8 | d << 3u8 | e << 4u8 | f << 5u8) & 16 != 0) == (e == 1)
        && ((a | b << 1u8 | c << 2u8 | d << 3u8 | e << 4u8 | f << 5u8) & 32 != 0) == (f == 1)) by (bit_vector)
        requires
            a <= 1,
            b <= 1,
            c <= 1,
            d <= 1,
            e <= 1,
            f <= 1,
    ;
}

/// Faces turned into their byte and back are the same faces.
pub proof fn lemma_faces_byte_roundtrip(x: Faces)
    ensures
        Faces::from_spec(u8::from_spec(x)) == x,
{
    lemma_faces_bits(bit8(x.back), bit8(x.bottom), bit8(x.front), bit8(x.left), bit8(x.right), bit8(x.top));
}

/// Each face has its own bit: `back` 1, `bottom` 2, `front` 4, `left` 8,
/// `right` 16, `top` 32, both when faces become a byte and when a byte
/// becomes faces.
pub proof fn lemma_faces_fixed_bits(f: Faces, x: u8)
    ensures
        u8::from_spec(f) as int == (if f.back { 1int } else { 0 }) + (if f.bottom { 2int } else { 0 }) + (if f.front {
            4int
        } else {
            0
        }) + (if f.left { 8int } else { 0 }) + (if f.right { 16int } else { 0 }) + (if f.top { 32int } else { 0 }),
        Faces::from_spec(x).back == (x % 2 == 1),
        Faces::from_spec(x).bottom == ((x / 2) % 2 == 1),
        Faces::from_spec(x).front == ((x / 4) % 2 == 1),
        Faces::from_spec(x).left == ((x / 8) % 2 == 1),
        Faces::from_spec(x).right == ((x / 16) % 2 == 1),
        Faces::from_spec(x).top == ((x / 32) % 2 == 1),
{
    let (a, b, c, d, e, g) = (bit8(f.back), bit8(f.bottom), bit8(f.front), bit8(f.left), bit8(f.right), bit8(f.top));
    assert((a | b << 1u8 | c << 2u8 | d << 3u8 | e << 4u8 | g << 5u8) == a + 2 * b + 4 * c + 8 * d + 16 * e + 32 * g)
        by (bit_vector)
        requires
            a <= 1,
            b <= 1,
            c <= 1,
            d <= 1,
            e <= 1,
            g <= 1,
    ;
    assert(((x & 1) != 0) == (x % 2 == 1) && ((x & 2) != 0) == ((x / 2) % 2 == 1) && ((x & 4) != 0) == ((x / 4)
        % 2 == 1) && ((x & 8) != 0) == ((x / 8) % 2 == 1) && ((x & 16) != 0) == ((x / 16) % 2 == 1) && ((x & 32)
        != 0) == ((x / 32) % 2 == 1)) by (bit_vector);
}

impl SquashObject for Faces {
    open spec fn spec_encode(v: Faces) -> Option<Seq<u8>> {
        u8::spec_encode(u8::from_spec(v))
    }

    open spec fn spec_decode(bytes: Seq<u8>) -> Option<(Faces, nat)> {
        match u8::spec_decode(bytes) {
            Some((x, k)) => Some((Faces::from_spec(x), k)),
            None => None,
        }
    }

    open spec fn spec_roundtrips(v: Faces) -> bool {
        true
    }

    proof fn lemma_decode_len(bytes: Seq<u8>) {
    }

    proof fn lemma_roundtrip(v: Faces, prefix: Seq<u8>) {
        u8::lemma_roundtrip(u8::from_spec(v), prefix);
        lemma_faces_byte_roundtrip(v);
    }

    fn push_obj(self, cursor: &mut SquashCursor) -> Result<usize> {
        cursor.push(u8::from(self))
    }

    fn pop_obj(cursor: &mut SquashCursor) -> Result<Faces> {
        match cursor.pop::<u8>() {
            Ok(x) => Ok(Faces::from(x)),
            Err(e) => Err(e),
        }
    }
}

} // verus!
