//! Complex numbers whose parts are small floats, in the layout of an MPC
//! `mpc_t`.

use crate::float::{float_is_special, float_wf, MiniFloat, RawFloat, SealedToMini, Special, ToMini, EXP_ZERO, PREC_MIN};
use crate::integer::Limbs;
use crate::Assign;
use vstd::prelude::*;

verus! {

/// Values that a small complex number can be set from: a real part, or a
/// pair of a real and an imaginary part.
pub trait ToComplex: Sized {
    /// The parts written hold the value.
    spec fn complex_holds(&self, re: RawFloat, re_limbs: Limbs, im: RawFloat, im_limbs: Limbs) -> bool;

    /// Writes both parts as MPFR fields and limbs.
    fn copy_parts(self, re: &mut RawFloat, re_limbs: &mut Limbs, im: &mut RawFloat, im_limbs: &mut Limbs)
        ensures
            float_wf(*final(re), *final(re_limbs)),
            float_wf(*final(im), *final(im_limbs)),
            self.complex_holds(*final(re), *final(re_limbs), *final(im), *final(im_limbs)),
    ;
}

impl<Re: ToMini> ToComplex for Re {
    /// The real part holds the value; the imaginary part is a positive zero
    /// with the precision of the real part.
    open spec fn complex_holds(&self, re: RawFloat, re_limbs: Limbs, im: RawFloat, im_limbs: Limbs) -> bool {
        &&& re.prec == self.mini_prec()
        &&& self.mini_holds(re, re_limbs)
        &&& float_is_special(im, Special::Zero)
        &&& im.prec == re.prec
    }

    fn copy_parts(self, re: &mut RawFloat, re_limbs: &mut Limbs, im: &mut RawFloat, im_limbs: &mut Limbs) {
        self.copy(re, re_limbs);
        *im = RawFloat { prec: re.prec, sign: 1, exp: EXP_ZERO };
    }
}

impl<Re: ToMini, Im: ToMini> ToComplex for (Re, Im) {
    open spec fn complex_holds(&self, re: RawFloat, re_limbs: Limbs, im: RawFloat, im_limbs: Limbs) -> bool {
        &&& re.prec == self.0.mini_prec()
        &&& self.0.mini_holds(re, re_limbs)
        &&& im.prec == self.1.mini_prec()
        &&& self.1.mini_holds(im, im_limbs)
    }

    fn copy_parts(self, re: &mut RawFloat, re_limbs: &mut Limbs, im: &mut RawFloat, im_limbs: &mut Limbs) {
        let (re_src, im_src) = self;
        re_src.copy(re, re_limbs);
        im_src.copy(im, im_limbs);
    }
}

/// A small complex number that does not require any memory allocation: a
/// small float for each part.
#[derive(Clone, Copy)]
pub struct MiniComplex {
    re: MiniFloat,
    im: MiniFloat,
}

impl View for MiniComplex {
    /// The MPFR fields and limbs of the real and of the imaginary part.
    type V = ((RawFloat, Limbs), (RawFloat, Limbs));

    closed spec fn view(&self) -> ((RawFloat, Limbs), (RawFloat, Limbs)) {
        (self.re@, self.im@)
    }
}

impl MiniComplex {
    /// Creates a [`MiniComplex`] with value 0 and the minimum precision for
    /// both parts.
    pub fn new() -> (r: Self)
        ensures
            float_is_special(r@.0.0, Special::Zero),
            float_is_special(r@.1.0, Special::Zero),
            r@.0.0.prec == PREC_MIN,
            r@.1.0.prec == PREC_MIN,
    {
        MiniComplex { re: MiniFloat::new(), im: MiniFloat::new() }
    }

    /// Creates a [`MiniComplex`] from a real part, or from a real and an
    /// imaginary part.
    pub fn from<Src: ToComplex>(src: Src) -> (r: Self)
        ensures
            src.complex_holds(r@.0.0, r@.0.1, r@.1.0, r@.1.1),
    {
        let mut re = RawFloat { prec: 0, sign: 0, exp: 0 };
        let mut re_limbs: Limbs = [0, 0];
        let mut im = RawFloat { prec: 0, sign: 0, exp: 0 };
        let mut im_limbs: Limbs = [0, 0];
        src.copy_parts(&mut re, &mut re_limbs, &mut im, &mut im_limbs);
        MiniComplex { re: MiniFloat::from_parts(re, re_limbs), im: MiniFloat::from_parts(im, im_limbs) }
    }

    /// The real part.
    pub fn real_part(&self) -> (r: MiniFloat)
        ensures
            r@ == self@.0,
    {
        self.re
    }

    /// The imaginary part.
    pub fn imag_part(&self) -> (r: MiniFloat)
        ensures
            r@ == self@.1,
    {
        self.im
    }
}

impl Default for MiniComplex {
    fn default() -> (r: Self)
        ensures
            float_is_special(r@.0.0, Special::Zero),
            float_is_special(r@.1.0, Special::Zero),
            r@.0.0.prec == PREC_MIN,
            r@.1.0.prec == PREC_MIN,
    {
        MiniComplex::new()
    }
}

impl<Src: ToComplex> Assign<Src> for MiniComplex {
    open spec fn accepts(src: &Src) -> bool {
        true
    }

    fn assign(&mut self, src: Src)
        ensures
            src.complex_holds(final(self)@.0.0, final(self)@.0.1, final(self)@.1.0, final(self)@.1.1),
    {
        *self = MiniComplex::from(src);
    }
}

impl Assign<&MiniComplex> for MiniComplex {
    open spec fn accepts(src: &&MiniComplex) -> bool {
        true
    }

    fn assign(&mut self, other: &MiniComplex)
        ensures
            final(self)@ == other@,
    {
        *self = *other;
    }
}

impl Assign for MiniComplex {
    open spec fn accepts(src: &MiniComplex) -> bool {
        true
    }

    fn assign(&mut self, other: MiniComplex)
        ensures
            final(self)@ == other@,
    {
        *self = other;
    }
}

} // verus!
