use vstd::prelude::*;

use crate::object::SquashObject;
use self::ux::{i24, i40, i48, i56, u24, u40, u48, u56};

pub mod le;
pub mod prim;
pub mod ux;
pub mod vlq;

verus! {

/// A type with a zero value.
pub trait Zero: Sized {
    spec fn spec_zero() -> Self;

    fn zero() -> (r: Self)
        ensures
            r == Self::spec_zero(),
    ;
}

impl Zero for u8 {
    open spec fn spec_zero() -> u8 {
        0
    }

    fn zero() -> u8 {
        0
    }
}

impl Zero for u16 {
    open spec fn spec_zero() -> u16 {
        0
    }

    fn zero() -> u16 {
        0
    }
}

impl Zero for u32 {
    open spec fn spec_zero() -> u32 {
        0
    }

    fn zero() -> u32 {
        0
    }
}

impl Zero for u64 {
    open spec fn spec_zero() -> u64 {
        0
    }

    fn zero() -> u64 {
        0
    }
}

impl Zero for u128 {
    open spec fn spec_zero() -> u128 {
        0
    }

    fn zero() -> u128 {
        0
    }
}

impl Zero for usize {
    open spec fn spec_zero() -> usize {
        0
    }

    fn zero() -> usize {
        0
    }
}

impl Zero for i8 {
    open spec fn spec_zero() -> i8 {
        0
    }

    fn zero() -> i8 {
        0
    }
}

impl Zero for i16 {
    open spec fn spec_zero() -> i16 {
        0
    }

    fn zero() -> i16 {
        0
    }
}

impl Zero for i32 {
    open spec fn spec_zero() -> i32 {
        0
    }

    fn zero() -> i32 {
        0
    }
}

impl Zero for i64 {
    open spec fn spec_zero() -> i64 {
        0
    }

    fn zero() -> i64 {
        0
    }
}

impl Zero for i128 {
    open spec fn spec_zero() -> i128 {
        0
    }

    fn zero() -> i128 {
        0
    }
}

impl Zero for isize {
    open spec fn spec_zero() -> isize {
        0
    }

    fn zero() -> isize {
        0
    }
}

/// The numbers that Roblox values are made of.
pub trait SquashNumber: SquashObject + Clone + Zero {}

impl SquashNumber for i8 {}

impl SquashNumber for i16 {}

impl SquashNumber for i24 {}

impl SquashNumber for i32 {}

impl SquashNumber for i40 {}

impl SquashNumber for i48 {}

impl SquashNumber for i56 {}

impl SquashNumber for i64 {}

impl SquashNumber for u8 {}

impl SquashNumber for u16 {}

impl SquashNumber for u24 {}

impl SquashNumber for u32 {}

impl SquashNumber for u40 {}

impl SquashNumber for u48 {}

impl SquashNumber for u56 {}

impl SquashNumber for u64 {}

} // verus!
