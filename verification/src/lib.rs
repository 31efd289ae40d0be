//! Small, allocation-free number representations in the limb layout used by
//! GMP and MPFR, together with the byte-string helpers used when parsing
//! numbers.

pub mod bits;
pub mod complex;
pub mod float;
pub mod gcd;
pub mod integer;
pub mod misc;
pub mod rational;
pub mod serdeize;

use vstd::prelude::*;

verus! {

/// Assigns to a number from another value.
pub trait Assign<Src = Self>: Sized {
    /// Whether `src` may be assigned; most types accept every value.
    spec fn accepts(src: &Src) -> bool;

    fn assign(&mut self, src: Src)
        requires
            Self::accepts(&src),
    ;
}

} // verus!
