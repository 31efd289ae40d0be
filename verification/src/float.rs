//! Floating-point numbers held in two 64-bit limbs, in the layout of an
//! MPFR `mpfr_t`.

use crate::bits::{
    lemma_normalize, lemma_pow2_128, lemma_u128_shl_is_mul, lemma_u16_leading_zeros,
    lemma_u32_leading_zeros, lemma_u64_leading_zeros, lemma_u8_leading_zeros,
};
use crate::integer::{limb_radix, usize_az_u32, usize_az_u64, Limbs};
use crate::misc::{abs_int, NegAbs};
use crate::Assign;
use vstd::arithmetic::power2::{lemma_pow2_adds, lemma_pow2_pos, pow2};
use vstd::bits::{lemma_u128_shr_is_div, lemma_u64_shl_is_mul, lemma_u64_shr_is_div};
use vstd::prelude::*;

verus! {

/// MPFR's exponent field for zero: `0 - i64::MAX`.
pub const EXP_ZERO: i64 = -0x7fff_ffff_ffff_ffff;

/// MPFR's exponent field for NaN: `1 - i64::MAX`.
pub const EXP_NAN: i64 = -0x7fff_ffff_ffff_fffe;

/// MPFR's exponent field for infinity: `2 - i64::MAX`.
pub const EXP_INF: i64 = -0x7fff_ffff_ffff_fffd;

/// The minimum precision, MPFR's `PREC_MIN`.
pub const PREC_MIN: i64 = 1;

/// Special floating-point values.
#[derive(Clone, Copy, Debug, PartialEq, Eq, Structural)]
pub enum Special {
    /// Positive zero.
    Zero,
    /// Negative zero.
    NegZero,
    /// Positive infinity.
    Infinity,
    /// Negative infinity.
    NegInfinity,
    /// Not a number.
    Nan,
}

/// The fields of an MPFR number other than the pointer to its significand:
/// the precision in bits, the sign (1 or -1) and the exponent, which holds
/// one of `EXP_ZERO`, `EXP_NAN` and `EXP_INF` for the special values.
#[derive(Clone, Copy, Debug, PartialEq, Eq, Structural)]
pub struct RawFloat {
    pub prec: i64,
    pub sign: i32,
    pub exp: i64,
}

/// The significand as a 128-bit number whose most significant bit is bit
/// 127: a single limb in use fills the upper half.
pub open spec fn aligned_significand(prec: i64, limbs: Limbs) -> nat {
    if prec <= 64 {
        limbs[0] as nat * limb_radix()
    } else {
        limbs[0] as nat + limbs[1] as nat * limb_radix()
    }
}

/// A regular number: neither zero, nor infinite, nor NaN.
pub open spec fn is_regular(raw: RawFloat) -> bool {
    raw.exp > EXP_INF
}

/// What MPFR asks of a number: a precision that fits in two limbs, a sign of
/// 1 or -1, and for a regular number a significand whose top bit is set and
/// whose bits below the precision are zero.
pub open spec fn float_wf(raw: RawFloat, limbs: Limbs) -> bool {
    &&& 1 <= raw.prec <= 128
    &&& raw.sign == 1 || raw.sign == -1
    &&& is_regular(raw) ==> {
        &&& aligned_significand(raw.prec, limbs) >= pow2(127)
        &&& aligned_significand(raw.prec, limbs) % pow2((128 - raw.prec) as nat) == 0
    }
}

/// The number is the integer `v`: a zero of either sign for 0, else a
/// regular number `sign * 0.significand * 2^exp` that equals `v`.
pub open spec fn float_is_int(raw: RawFloat, limbs: Limbs, v: int) -> bool {
    if v == 0 {
        raw.exp == EXP_ZERO
    } else {
        &&& 0 < raw.exp <= 128
        &&& (raw.sign == -1 <==> v < 0)
        &&& aligned_significand(raw.prec, limbs) * pow2(raw.exp as nat) == abs_int(v) * pow2(128)
    }
}

/// The number is the special value `s`.
pub open spec fn float_is_special(raw: RawFloat, s: Special) -> bool {
    match s {
        Special::Zero => raw.exp == EXP_ZERO && raw.sign == 1,
        Special::NegZero => raw.exp == EXP_ZERO && raw.sign == -1,
        Special::Infinity => raw.exp == EXP_INF && raw.sign == 1,
        Special::NegInfinity => raw.exp == EXP_INF && raw.sign == -1,
        Special::Nan => raw.exp == EXP_NAN && raw.sign == 1,
    }
}

/// Sets a number to positive zero, as `mpfr_custom_init_set` does for
/// `ZERO_KIND`.
fn custom_zero(inner: &mut RawFloat, prec: i64)
    ensures
        *final(inner) == (RawFloat { prec, sign: 1, exp: EXP_ZERO }),
{
    *inner = RawFloat { prec, sign: 1, exp: EXP_ZERO };
}

/// Sets a number to a positive regular value, as `mpfr_custom_init_set` does
/// for `REGULAR_KIND`; the significand is in the limbs.
fn custom_regular(inner: &mut RawFloat, exp: i64, prec: i64)
    ensures
        *final(inner) == (RawFloat { prec, sign: 1, exp }),
{
    *inner = RawFloat { prec, sign: 1, exp };
}

/// Sets a number to a special value, as `mpfr_custom_init_set` does for the
/// kinds of zero, infinity and NaN.
fn custom_special(inner: &mut RawFloat, special: Special, prec: i64)
    ensures
        final(inner).prec == prec,
        final(inner).sign == 1 || final(inner).sign == -1,
        float_is_special(*final(inner), special),
{
    let (sign, exp) = match special {
        Special::Zero => (1i32, EXP_ZERO),
        Special::NegZero => (-1i32, EXP_ZERO),
        Special::Infinity => (1i32, EXP_INF),
        Special::NegInfinity => (-1i32, EXP_INF),
        Special::Nan => (1i32, EXP_NAN),
    };
    *inner = RawFloat { prec, sign, exp };
}

/// A value of `width - lz` significant bits fits in one limb once shifted
/// left by `lz + 64 - width`, and the shifted limb makes a well-formed number
/// of precision `width` and exponent `width - lz` that equals the value.
proof fn lemma_one_limb(x: nat, width: nat, lz: nat, limbs: Limbs)
    requires
        lz < width <= 64,
        pow2((width - lz - 1) as nat) <= x < pow2((width - lz) as nat),
    ensures
        x * pow2((lz + 64 - width) as nat) < pow2(64),
        limbs[0] as nat == x * pow2((lz + 64 - width) as nat) ==> {
            let raw = RawFloat { prec: width as i64, sign: 1, exp: (width - lz) as i64 };
            float_wf(raw, limbs) && float_is_int(raw, limbs, x as int)
        },
{
    lemma_normalize(x, width, lz);
    lemma_pow2_128();
    let t = (lz + 64 - width) as nat;
    let s = (lz + 128 - width) as nat;
    lemma_pow2_adds(t, 64);
    assert(t + 64 == s);
    assert(x * pow2(s) == x * pow2(t) * pow2(64)) by (nonlinear_arith)
        requires
            pow2(s) == pow2(t) * pow2(64),
    ;
    assert(x * pow2(t) < pow2(64)) by (nonlinear_arith)
        requires
            x * pow2(t) * pow2(64) < pow2(128),
            pow2(128) == pow2(64) * pow2(64),
            pow2(64) > 0,
    ;
    if limbs[0] as nat == x * pow2(t) {
        let raw = RawFloat { prec: width as i64, sign: 1, exp: (width - lz) as i64 };
        assert(raw.prec <= 64);
        assert(aligned_significand(raw.prec, limbs) == limbs[0] as nat * pow2(64));
        assert(aligned_significand(raw.prec, limbs) == x * pow2(s));
        assert(raw.exp as nat == (width - lz) as nat);
        assert((128 - raw.prec) as nat == (128 - width) as nat);
        assert(float_wf(raw, limbs));
        lemma_pow2_pos((width - lz - 1) as nat);
        assert(x != 0);
        assert(abs_int(x as int) == x);
        assert(aligned_significand(raw.prec, limbs) * pow2(raw.exp as nat) == x * pow2(128));
        assert(float_is_int(raw, limbs, x as int));
    }
}

/// Types implementing this trait can be converted to [`MiniFloat`].
///
/// It is implemented for the primitive integer types and [`Special`].
pub trait ToMini: SealedToMini {

}

/// The conversion behind [`ToMini`].
pub trait SealedToMini: Copy {
    /// The precision that the value gets.
    spec fn mini_prec(&self) -> int;

    /// The number that the fields and limbs hold is the value.
    spec fn mini_holds(&self, raw: RawFloat, limbs: Limbs) -> bool;

    /// Writes the value as MPFR fields and limbs.
    fn copy(self, inner: &mut RawFloat, limbs: &mut Limbs)
        ensures
            float_wf(*final(inner), *final(limbs)),
            final(inner).prec == self.mini_prec(),
            self.mini_holds(*final(inner), *final(limbs)),
    ;
}

impl ToMini for u8 {

}

impl SealedToMini for u8 {
    open spec fn mini_prec(&self) -> int {
        8
    }

    open spec fn mini_holds(&self, raw: RawFloat, limbs: Limbs) -> bool {
        float_is_int(raw, limbs, *self as int) && raw.sign == (if *self < 0 {
            -1i32
        } else {
            1i32
        })
    }

    fn copy(self, inner: &mut RawFloat, limbs: &mut Limbs) {
        if self == 0 {
            custom_zero(inner, 8);
        } else {
            let leading = self.leading_zeros();
            proof {
                lemma_u8_leading_zeros(self);
                lemma_one_limb(self as nat, 8, leading as nat, *limbs);
            }
            let limb_leading = leading + 64 - 8;
            proof {
                lemma_pow2_128();
                lemma_u64_shl_is_mul(self as u64, limb_leading as u64);
            }
            limbs[0] = (self as u64) << limb_leading;
            proof {
                lemma_one_limb(self as nat, 8, leading as nat, *limbs);
            }
            let exp = (8 - leading) as i64;
            custom_regular(inner, exp, 8);
        }
    }
}

impl ToMini for u16 {

}

impl SealedToMini for u16 {
    open spec fn mini_prec(&self) -> int {
        16
    }

    open spec fn mini_holds(&self, raw: RawFloat, limbs: Limbs) -> bool {
        float_is_int(raw, limbs, *self as int) && raw.sign == (if *self < 0 {
            -1i32
        } else {
            1i32
        })
    }

    fn copy(self, inner: &mut RawFloat, limbs: &mut Limbs) {
        if self == 0 {
            custom_zero(inner, 16);
        } else {
            let leading = self.leading_zeros();
            proof {
                lemma_u16_leading_zeros(self);
                lemma_one_limb(self as nat, 16, leading as nat, *limbs);
            }
            let limb_leading = leading + 64 - 16;
            proof {
                lemma_pow2_128();
                lemma_u64_shl_is_mul(self as u64, limb_leading as u64);
            }
            limbs[0] = (self as u64) << limb_leading;
            proof {
                lemma_one_limb(self as nat, 16, leading as nat, *limbs);
            }
            let exp = (16 - leading) as i64;
            custom_regular(inner, exp, 16);
        }
    }
}

impl ToMini for u32 {

}

impl SealedToMini for u32 {
    open spec fn mini_prec(&self) -> int {
        32
    }

    open spec fn mini_holds(&self, raw: RawFloat, limbs: Limbs) -> bool {
        float_is_int(raw, limbs, *self as int) && raw.sign == (if *self < 0 {
            -1i32
        } else {
            1i32
        })
    }

    fn copy(self, inner: &mut RawFloat, limbs: &mut Limbs) {
        if self == 0 {
            custom_zero(inner, 32);
        } else {
            let leading = self.leading_zeros();
            proof {
                lemma_u32_leading_zeros(self);
                lemma_one_limb(self as nat, 32, leading as nat, *limbs);
            }
            let limb_leading = leading + 64 - 32;
            proof {
                lemma_pow2_128();
                lemma_u64_shl_is_mul(self as u64, limb_leading as u64);
            }
            limbs[0] = (self as u64) << limb_leading;
            proof {
                lemma_one_limb(self as nat, 32, leading as nat, *limbs);
            }
            let exp = (32 - leading) as i64;
            custom_regular(inner, exp, 32);
        }
    }
}

impl ToMini for u64 {

}

impl SealedToMini for u64 {
    open spec fn mini_prec(&self) -> int {
        64
    }

    open spec fn mini_holds(&self, raw: RawFloat, limbs: Limbs) -> bool {
        float_is_int(raw, limbs, *self as int) && raw.sign == (if *self < 0 {
            -1i32
        } else {
            1i32
        })
    }

    fn copy(self, inner: &mut RawFloat, limbs: &mut Limbs) {
        if self == 0 {
            custom_zero(inner, 64);
        } else {
            let leading = self.leading_zeros();
            proof {
                lemma_u64_leading_zeros(self);
                lemma_one_limb(self as nat, 64, leading as nat, *limbs);
                lemma_pow2_128();
                lemma_u64_shl_is_mul(self, leading as u64);
            }
            limbs[0] = self << leading;
            proof {
                lemma_one_limb(self as nat, 64, leading as nat, *limbs);
            }
            let exp = (64 - leading) as i64;
            custom_regular(inner, exp, 64);
        }
    }
}

proof fn lemma_two_limbs(sval: u128, limbs: Limbs)
    requires
        limbs[0] == sval as u64,
        limbs[1] == (sval >> 64u128) as u64,
    ensures
        aligned_significand(128, limbs) == sval,
{
    assert(sval == (sval as u64) as u128 + ((sval >> 64u128) as u64) as u128
        * 0x1_0000_0000_0000_0000u128) by (bit_vector);
}

impl ToMini for u128 {

}

impl SealedToMini for u128 {
    open spec fn mini_prec(&self) -> int {
        128
    }

    open spec fn mini_holds(&self, raw: RawFloat, limbs: Limbs) -> bool {
        float_is_int(raw, limbs, *self as int) && raw.sign == (if *self < 0 {
            -1i32
        } else {
            1i32
        })
    }

    fn copy(self, inner: &mut RawFloat, limbs: &mut Limbs) {
        if self == 0 {
            custom_zero(inner, 128);
        } else {
            let leading = self.leading_zeros();
            proof {
                lemma_normalize(self as nat, 128, leading as nat);
                lemma_u128_shl_is_mul(self, leading as u128);
            }
            let sval = self << leading;
            limbs[0] = sval as u64;
            limbs[1] = (sval >> 64u32) as u64;
            proof {
                lemma_two_limbs(sval, *limbs);
                lemma_pow2_128();
            }
            let exp = (128 - leading) as i64;
            custom_regular(inner, exp, 128);
        }
    }
}

impl ToMini for usize {

}

impl SealedToMini for usize {
    /// As many bits as a `usize` has: 32 or 64, depending on the platform.
    open spec fn mini_prec(&self) -> int {
        usize::BITS as int
    }

    open spec fn mini_holds(&self, raw: RawFloat, limbs: Limbs) -> bool {
        float_is_int(raw, limbs, *self as int) && raw.sign == (if *self < 0 {
            -1i32
        } else {
            1i32
        })
    }

    fn copy(self, inner: &mut RawFloat, limbs: &mut Limbs) {
        if usize::BITS == 32 {
            let val = usize_az_u32(self);
            val.copy(inner, limbs);
        } else {
            let val = usize_az_u64(self);
            val.copy(inner, limbs);
        }
    }
}

impl ToMini for i8 {

}

impl SealedToMini for i8 {
    open spec fn mini_prec(&self) -> int {
        8
    }

    open spec fn mini_holds(&self, raw: RawFloat, limbs: Limbs) -> bool {
        float_is_int(raw, limbs, *self as int) && raw.sign == (if *self < 0 {
            -1i32
        } else {
            1i32
        })
    }

    fn copy(self, inner: &mut RawFloat, limbs: &mut Limbs) {
        let (neg, abs) = self.neg_abs();
        abs.copy(inner, limbs);
        if neg {
            inner.sign = -1;
        }
    }
}

impl ToMini for i16 {

}

impl SealedToMini for i16 {
    open spec fn mini_prec(&self) -> int {
        16
    }

    open spec fn mini_holds(&self, raw: RawFloat, limbs: Limbs) -> bool {
        float_is_int(raw, limbs, *self as int) && raw.sign == (if *self < 0 {
            -1i32
        } else {
            1i32
        })
    }

    fn copy(self, inner: &mut RawFloat, limbs: &mut Limbs) {
        let (neg, abs) = self.neg_abs();
        abs.copy(inner, limbs);
        if neg {
            inner.sign = -1;
        }
    }
}

impl ToMini for i32 {

}

impl SealedToMini for i32 {
    open spec fn mini_prec(&self) -> int {
        32
    }

    open spec fn mini_holds(&self, raw: RawFloat, limbs: Limbs) -> bool {
        float_is_int(raw, limbs, *self as int) && raw.sign == (if *self < 0 {
            -1i32
        } else {
            1i32
        })
    }

    fn copy(self, inner: &mut RawFloat, limbs: &mut Limbs) {
        let (neg, abs) = self.neg_abs();
        abs.copy(inner, limbs);
        if neg {
            inner.sign = -1;
        }
    }
}

impl ToMini for i64 {

}

impl SealedToMini for i64 {
    open spec fn mini_prec(&self) -> int {
        64
    }

    open spec fn mini_holds(&self, raw: RawFloat, limbs: Limbs) -> bool {
        float_is_int(raw, limbs, *self as int) && raw.sign == (if *self < 0 {
            -1i32
        } else {
            1i32
        })
    }

    fn copy(self, inner: &mut RawFloat, limbs: &mut Limbs) {
        let (neg, abs) = self.neg_abs();
        abs.copy(inner, limbs);
        if neg {
            inner.sign = -1;
        }
    }
}

impl ToMini for i128 {

}

impl SealedToMini for i128 {
    open spec fn mini_prec(&self) -> int {
        128
    }

    open spec fn mini_holds(&self, raw: RawFloat, limbs: Limbs) -> bool {
        float_is_int(raw, limbs, *self as int) && raw.sign == (if *self < 0 {
            -1i32
        } else {
            1i32
        })
    }

    fn copy(self, inner: &mut RawFloat, limbs: &mut Limbs) {
        let (neg, abs) = self.neg_abs();
        abs.copy(inner, limbs);
        if neg {
            inner.sign = -1;
        }
    }
}

impl ToMini for isize {

}

impl SealedToMini for isize {
    /// As many bits as an `isize` has: 32 or 64, depending on the platform.
    open spec fn mini_prec(&self) -> int {
        isize::BITS as int
    }

    open spec fn mini_holds(&self, raw: RawFloat, limbs: Limbs) -> bool {
        float_is_int(raw, limbs, *self as int) && raw.sign == (if *self < 0 {
            -1i32
        } else {
            1i32
        })
    }

    fn copy(self, inner: &mut RawFloat, limbs: &mut Limbs) {
        let (neg, abs) = self.neg_abs();
        abs.copy(inner, limbs);
        if neg {
            inner.sign = -1;
        }
    }
}

impl ToMini for Special {

}

impl SealedToMini for Special {
    open spec fn mini_prec(&self) -> int {
        PREC_MIN as int
    }

    open spec fn mini_holds(&self, raw: RawFloat, limbs: Limbs) -> bool {
        float_is_special(raw, *self)
    }

    fn copy(self, inner: &mut RawFloat, limbs: &mut Limbs) {
        custom_special(inner, self, PREC_MIN);
    }
}

/// Two integers that the same number equals are the same.
pub proof fn lemma_float_int_unique(raw: RawFloat, limbs: Limbs, v1: int, v2: int)
    requires
        float_is_int(raw, limbs, v1),
        float_is_int(raw, limbs, v2),
    ensures
        v1 == v2,
{
    if v1 != 0 && v2 != 0 {
        lemma_pow2_128();
        let a = aligned_significand(raw.prec, limbs) * pow2(raw.exp as nat);
        assert(abs_int(v1) == abs_int(v2)) by (nonlinear_arith)
            requires
                a == abs_int(v1) * pow2(128),
                a == abs_int(v2) * pow2(128),
                pow2(128) > 0,
        ;
    }
}

/// A small float that does not require any memory allocation: the fields of
/// an MPFR number and two limbs for its significand.
#[derive(Clone, Copy)]
pub struct MiniFloat {
    inner: RawFloat,
    limbs: Limbs,
}

impl View for MiniFloat {
    /// The MPFR fields and the limbs.
    type V = (RawFloat, Limbs);

    closed spec fn view(&self) -> (RawFloat, Limbs) {
        (self.inner, self.limbs)
    }
}

impl MiniFloat {
    #[verifier::type_invariant]
    closed spec fn inv(self) -> bool {
        float_wf(self.inner, self.limbs)
    }

    /// Creates a [`MiniFloat`] with value 0 and the minimum precision.
    pub fn new() -> (r: Self)
        ensures
            float_is_special(r@.0, Special::Zero),
            r@.0.prec == PREC_MIN,
    {
        MiniFloat { inner: RawFloat { prec: PREC_MIN, sign: 1, exp: EXP_ZERO }, limbs: [0, 0] }
    }

    /// Creates a [`MiniFloat`] from a primitive integer or a special value;
    /// the precision is the number of bits of the integer type.
    pub fn from<T: ToMini>(src: T) -> (r: Self)
        ensures
            float_wf(r@.0, r@.1),
            r@.0.prec == src.mini_prec(),
            src.mini_holds(r@.0, r@.1),
    {
        let mut inner = RawFloat { prec: 0, sign: 0, exp: 0 };
        let mut limbs: Limbs = [0, 0];
        src.copy(&mut inner, &mut limbs);
        MiniFloat { inner, limbs }
    }

    /// Creates a [`MiniFloat`] from MPFR fields and limbs that MPFR accepts.
    pub fn from_parts(inner: RawFloat, limbs: Limbs) -> (r: Self)
        requires
            float_wf(inner, limbs),
        ensures
            r@ == (inner, limbs),
    {
        MiniFloat { inner, limbs }
    }

    /// The MPFR fields: precision, sign and exponent.
    pub fn raw(&self) -> (r: RawFloat)
        ensures
            r == self@.0,
            float_wf(self@.0, self@.1),
    {
        proof {
            use_type_invariant(self);
        }
        self.inner
    }

    /// The limbs of the significand, least significant first.
    pub fn limbs(&self) -> (r: Limbs)
        ensures
            r == self@.1,
            float_wf(self@.0, self@.1),
    {
        proof {
            use_type_invariant(self);
        }
        self.limbs
    }

    /// The precision in bits.
    pub fn prec(&self) -> (r: i64)
        ensures
            r == self@.0.prec,
    {
        self.inner.prec
    }

    /// Whether the number is NaN.
    pub fn is_nan(&self) -> (r: bool)
        ensures
            r == (self@.0.exp == EXP_NAN),
    {
        self.inner.exp == EXP_NAN
    }

    /// Whether the number is infinite.
    pub fn is_infinite(&self) -> (r: bool)
        ensures
            r == (self@.0.exp == EXP_INF),
    {
        self.inner.exp == EXP_INF
    }

    /// Whether the number is zero, of either sign.
    pub fn is_zero(&self) -> (r: bool)
        ensures
            r == (self@.0.exp == EXP_ZERO),
    {
        self.inner.exp == EXP_ZERO
    }

    /// Whether the sign is positive; NaN has a sign too.
    pub fn is_sign_positive(&self) -> (r: bool)
        ensures
            r == (self@.0.sign > 0),
    {
        self.inner.sign > 0
    }

    /// Whether the sign is negative; NaN has a sign too.
    pub fn is_sign_negative(&self) -> (r: bool)
        ensures
            r == (self@.0.sign < 0),
    {
        self.inner.sign < 0
    }

    /// The significand as one 128-bit number with its top bit at bit 127.
    fn aligned(&self) -> (r: u128)
        ensures
            r as nat == aligned_significand(self@.0.prec, self@.1),
    {
        let lo = self.limbs[0];
        let hi = self.limbs[1];
        if self.inner.prec <= 64 {
            assert((lo as u128) << 64u128 == (lo as u128) * 0x1_0000_0000_0000_0000u128)
                by (bit_vector);
            (lo as u128) << 64u32
        } else {
            assert(((hi as u128) << 64u128) | (lo as u128) == (lo as u128) + (hi as u128)
                * 0x1_0000_0000_0000_0000u128) by (bit_vector);
            ((hi as u128) << 64u32) | (lo as u128)
        }
    }

    /// The number as an integer, given as its sign and its magnitude: a zero
    /// of either sign, or a regular number with an exponent from 1 to 128 and
    /// no fractional bits. Otherwise `None`.
    pub fn to_integer(&self) -> (r: Option<(bool, u128)>)
        ensures
            r matches Some((neg, mag)) ==> {
                &&& neg == (self@.0.sign < 0)
                &&& float_is_int(self@.0, self@.1, if neg { -(mag as int) } else { mag as int })
            },
            r is None ==> forall|v: int| !float_is_int(self@.0, self@.1, v),
    {
        proof {
            use_type_invariant(self);
            lemma_pow2_128();
        }
        let neg = self.inner.sign < 0;
        if self.inner.exp == EXP_ZERO {
            return Some((neg, 0));
        }
        if self.inner.exp < 1 || self.inner.exp > 128 {
            return None;
        }
        let aligned = self.aligned();
        let exp = self.inner.exp;
        let shift = (128 - exp) as u32;
        proof {
            lemma_u128_shr_is_div(aligned, shift as u128);
            lemma_pow2_pos(shift as nat);
            lemma_pow2_adds(shift as nat, exp as nat);
            vstd::arithmetic::div_mod::lemma_fundamental_div_mod(aligned as int, pow2(shift as nat) as int);
        }
        let mag = aligned >> shift;
        proof {
            assert(mag * pow2(shift as nat) <= aligned) by (nonlinear_arith)
                requires
                    aligned as int == pow2(shift as nat) * (aligned as int / pow2(shift as nat) as int)
                        + aligned as int % pow2(shift as nat) as int,
                    mag as int == aligned as int / pow2(shift as nat) as int,
                    aligned as int % pow2(shift as nat) as int >= 0,
            ;
            lemma_u128_shl_is_mul(mag, shift as u128);
        }
        if mag << shift == aligned {
            proof {
                assert(aligned * pow2(exp as nat) == mag * pow2(128)) by (nonlinear_arith)
                    requires
                        aligned == mag * pow2(shift as nat),
                        pow2(128) == pow2(shift as nat) * pow2(exp as nat),
                ;
                assert(mag != 0) by (nonlinear_arith)
                    requires
                        aligned == mag * pow2(shift as nat),
                        aligned >= pow2(127),
                        pow2(127) > 0,
                ;
            }
            Some((neg, mag))
        } else {
            proof {
                assert forall|v: int| !float_is_int(self@.0, self@.1, v) by {
                    if float_is_int(self@.0, self@.1, v) {
                        let m = abs_int(v);
                        assert(aligned == m * pow2(shift as nat)) by (nonlinear_arith)
                            requires
                                aligned * pow2(exp as nat) == m * pow2(128),
                                pow2(128) == pow2(shift as nat) * pow2(exp as nat),
                                pow2(exp as nat) > 0,
                        ;
                        vstd::arithmetic::div_mod::lemma_div_multiples_vanish(m as int, pow2(shift as nat) as int);
                        assert(m * pow2(shift as nat) == pow2(shift as nat) * m) by (nonlinear_arith);
                        assert(mag == m);
                    }
                }
            }
            None
        }
    }
}

impl ToMini for MiniFloat {

}

impl SealedToMini for MiniFloat {
    open spec fn mini_prec(&self) -> int {
        self@.0.prec as int
    }

    /// The number is copied as it is.
    open spec fn mini_holds(&self, raw: RawFloat, limbs: Limbs) -> bool {
        (raw, limbs) == self@
    }

    fn copy(self, inner: &mut RawFloat, limbs: &mut Limbs) {
        *inner = self.raw();
        *limbs = self.limbs();
    }
}

impl Default for MiniFloat {
    fn default() -> (r: Self)
        ensures
            float_is_special(r@.0, Special::Zero),
            r@.0.prec == PREC_MIN,
    {
        MiniFloat::new()
    }
}

impl<T: ToMini> Assign<T> for MiniFloat {
    open spec fn accepts(src: &T) -> bool {
        true
    }

    fn assign(&mut self, src: T)
        ensures
            final(self)@.0.prec == src.mini_prec(),
            src.mini_holds(final(self)@.0, final(self)@.1),
    {
        *self = MiniFloat::from(src);
    }
}

impl Assign<&MiniFloat> for MiniFloat {
    open spec fn accepts(src: &&MiniFloat) -> bool {
        true
    }

    fn assign(&mut self, other: &MiniFloat)
        ensures
            final(self)@ == other@,
    {
        *self = *other;
    }
}

/// The top eight bits of the first limb of a regular number of at least
/// eight bits of precision.
pub fn unchecked_get_unshifted_u8(small: &MiniFloat) -> (r: u8)
    requires
        small@.0.prec >= 8,
        is_regular(small@.0),
    ensures
        r as nat == small@.1[0] as nat / pow2(56),
{
    let limb = small.limbs()[0];
    let top = limb >> 56u64;
    proof {
        lemma_u64_shr_is_div(limb, 56);
        assert(limb >> 56u64 < 0x100u64) by (bit_vector);
    }
    top as u8
}

/// The top sixteen bits of the first limb of a regular number of at least
/// sixteen bits of precision.
pub fn unchecked_get_unshifted_u16(small: &MiniFloat) -> (r: u16)
    requires
        small@.0.prec >= 16,
        is_regular(small@.0),
    ensures
        r as nat == small@.1[0] as nat / pow2(48),
{
    let limb = small.limbs()[0];
    let top = limb >> 48u64;
    proof {
        lemma_u64_shr_is_div(limb, 48);
        assert(limb >> 48u64 < 0x1_0000u64) by (bit_vector);
    }
    top as u16
}

/// The top 32 bits of the first limb of a regular number of at least 32 bits
/// of precision.
pub fn unchecked_get_unshifted_u32(small: &MiniFloat) -> (r: u32)
    requires
        small@.0.prec >= 32,
        is_regular(small@.0),
    ensures
        r as nat == small@.1[0] as nat / pow2(32),
{
    let limb = small.limbs()[0];
    let top = limb >> 32u64;
    proof {
        lemma_u64_shr_is_div(limb, 32);
        assert(limb >> 32u64 < 0x1_0000_0000u64) by (bit_vector);
    }
    top as u32
}

/// The first limb of a regular number of at least 64 bits of precision.
pub fn unchecked_get_unshifted_u64(small: &MiniFloat) -> (r: u64)
    requires
        small@.0.prec >= 64,
        is_regular(small@.0),
    ensures
        r == small@.1[0],
{
    small.limbs()[0]
}

/// Both limbs of a regular number of 128 bits of precision, as one number:
/// its whole significand.
pub fn unchecked_get_unshifted_u128(small: &MiniFloat) -> (r: u128)
    requires
        small@.0.prec >= 128,
        is_regular(small@.0),
    ensures
        r as nat == aligned_significand(small@.0.prec, small@.1),
{
    let limbs = small.limbs();
    let lo = limbs[0];
    let hi = limbs[1];
    assert((lo as u128) | ((hi as u128) << 64u128) == (lo as u128) + (hi as u128)
        * 0x1_0000_0000_0000_0000u128) by (bit_vector);
    (lo as u128) | ((hi as u128) << 64u32)
}

/// `a * 2^ea == b * 2^eb`, stated without negative powers.
pub open spec fn scaled_eq(a: nat, ea: int, b: nat, eb: int) -> bool {
    if ea >= eb {
        a * pow2((ea - eb) as nat) == b
    } else {
        a == b * pow2((eb - ea) as nat)
    }
}

/// The number is the regular value `(-1)^neg * m * 2^e`.
pub open spec fn float_is_dyadic(raw: RawFloat, limbs: Limbs, neg: bool, m: nat, e: int) -> bool {
    &&& is_regular(raw)
    &&& (raw.sign == -1 <==> neg)
    &&& scaled_eq(aligned_significand(raw.prec, limbs), raw.exp - 128, m, e)
}

/// What an IEEE 754 number with the given sign, biased exponent and fraction
/// is, for a format with `frac_bits` fraction bits and exponent bias `bias`:
/// NaN, an infinity, a zero, a subnormal `frac * 2^(1 - bias - frac_bits)`
/// or a normal `(2^frac_bits + frac) * 2^(biased - bias - frac_bits)`; the
/// sign of every kind, NaN too, is kept.
pub open spec fn float_is_ieee(
    raw: RawFloat,
    limbs: Limbs,
    neg: bool,
    biased: nat,
    frac: nat,
    max_biased: nat,
    frac_bits: nat,
    bias: int,
) -> bool {
    &&& (raw.sign == -1 <==> neg)
    &&& biased == max_biased && frac != 0 ==> raw.exp == EXP_NAN
    &&& biased == max_biased && frac == 0 ==> raw.exp == EXP_INF
    &&& biased == 0 && frac == 0 ==> raw.exp == EXP_ZERO
    &&& biased == 0 && frac != 0 ==> float_is_dyadic(raw, limbs, neg, frac, 1 - bias - frac_bits)
    &&& 0 < biased < max_biased ==> float_is_dyadic(
        raw,
        limbs,
        neg,
        pow2(frac_bits) + frac,
        biased - bias - frac_bits,
    )
}

/// Places a significand of `prec` bits whose top bit is bit 63 of the first
/// limb: the number is well formed and equals `m * 2^e` when
/// `limb == m * 2^shift` and `exp - 128 == e - 64 - shift`.
proof fn lemma_top_limb(m: nat, shift: nat, prec: nat, limbs: Limbs, raw: RawFloat, neg: bool, e: int)
    requires
        1 <= prec <= 64,
        raw.prec == prec,
        raw.sign == (if neg { -1i32 } else { 1i32 }),
        raw.exp > EXP_INF,
        raw.exp - 128 == e - 64 - shift,
        limbs[0] as nat == m * pow2(shift),
        limbs[0] as nat >= pow2(63),
        shift >= 64 - prec,
    ensures
        float_wf(raw, limbs),
        float_is_dyadic(raw, limbs, neg, m, e),
{
    lemma_pow2_128();
    let a = aligned_significand(raw.prec, limbs);
    assert(a == m * pow2(shift) * pow2(64));
    lemma_pow2_adds(shift, 64);
    assert(a == m * pow2(shift + 64)) by (nonlinear_arith)
        requires
            a == m * pow2(shift) * pow2(64),
            pow2(shift + 64) == pow2(shift) * pow2(64),
    ;
    assert(a >= pow2(127)) by (nonlinear_arith)
        requires
            a == limbs[0] as nat * pow2(64),
            limbs[0] as nat >= pow2(63),
            pow2(127) == pow2(63) * pow2(64),
    ;
    let low = (128 - prec) as nat;
    let rest = (shift + 64 - low) as nat;
    lemma_pow2_adds(rest, low);
    assert(a == (m * pow2(rest)) * pow2(low)) by (nonlinear_arith)
        requires
            a == m * pow2(shift + 64),
            pow2(shift + 64) == pow2(rest) * pow2(low),
    ;
    lemma_pow2_pos(low);
    vstd::arithmetic::div_mod::lemma_mod_multiples_basic((m * pow2(rest)) as int, pow2(low) as int);
    assert(float_wf(raw, limbs));
    assert(scaled_eq(a, raw.exp - 128, m, e));
}

impl MiniFloat {

/// Reads an IEEE 754 double, given by its bits, exactly, with 53 bits of
/// precision; `f64::to_bits` gives the bits.
pub fn from_f64_bits(bits: u64) -> (r: MiniFloat)
    ensures
        r@.0.prec == 53,
        float_is_ieee(
            r@.0,
            r@.1,
            bits >> 63u64 == 1,
            ((bits >> 52u64) & 0x7ff) as nat,
            (bits & 0xf_ffff_ffff_ffff) as nat,
            0x7ff,
            52,
            1023,
        ),
{
    let neg = (bits >> 63u64) == 1;
    let biased = (bits >> 52u64) & 0x7ff;
    let frac = bits & 0xf_ffff_ffff_ffff;
    let sign: i32 = if neg {
        -1
    } else {
        1
    };
    let mut limbs: Limbs = [0, 0];
    proof {
        lemma_pow2_128();
        vstd::arithmetic::power2::lemma2_to64();
        vstd::arithmetic::power2::lemma2_to64_rest();
        assert(frac < 0x10_0000_0000_0000u64) by (bit_vector)
            requires
                frac == bits & 0xf_ffff_ffff_ffff,
        ;
        assert(biased <= 0x7ffu64) by (bit_vector)
            requires
                biased == (bits >> 52u64) & 0x7ff,
        ;
    }
    let inner = if biased == 0x7ff {
        if frac == 0 {
            RawFloat { prec: 53, sign, exp: EXP_INF }
        } else {
            RawFloat { prec: 53, sign, exp: EXP_NAN }
        }
    } else if biased == 0 {
        if frac == 0 {
            RawFloat { prec: 53, sign, exp: EXP_ZERO }
        } else {
            let leading = frac.leading_zeros();
            proof {
                lemma_u64_leading_zeros(frac);
                if leading < 12 {
                    vstd::arithmetic::power2::lemma_pow2_strictly_increases(
                        52,
                        (63 - leading) as nat,
                    );
                }
                lemma_one_limb(frac as nat, 64, leading as nat, limbs);
                lemma_u64_shl_is_mul(frac, leading as u64);
            }
            limbs[0] = frac << leading;
            let exp = -1010 - (leading as i64);
            let inner = RawFloat { prec: 53, sign, exp };
            proof {
                lemma_pow2_pos((63 - leading) as nat);
                lemma_pow2_adds((63 - leading) as nat, leading as nat);
                assert(frac * pow2(leading as nat) >= pow2(63)) by (nonlinear_arith)
                    requires
                        frac >= pow2((63 - leading) as nat),
                        pow2((63 - leading) as nat) * pow2(leading as nat) == pow2(63),
                ;
                lemma_top_limb(frac as nat, leading as nat, 53, limbs, inner, neg, -1074);
            }
            inner
        }
    } else {
        let m = frac | 0x10_0000_0000_0000;
        proof {
            assert(m == frac + 0x10_0000_0000_0000u64) by (bit_vector)
                requires
                    m == frac | 0x10_0000_0000_0000u64,
                    frac < 0x10_0000_0000_0000u64,
            ;
            lemma_u64_shl_is_mul(m, 11);
        }
        limbs[0] = m << 11u64;
        let exp = (biased as i64) - 1022;
        let inner = RawFloat { prec: 53, sign, exp };
        proof {
            lemma_top_limb(m as nat, 11, 53, limbs, inner, neg, biased - 1075);
        }
        inner
    };
    MiniFloat::from_parts(inner, limbs)
}

/// Reads an IEEE 754 single, given by its bits, exactly, with 24 bits of
/// precision; `f32::to_bits` gives the bits.
pub fn from_f32_bits(bits: u32) -> (r: MiniFloat)
    ensures
        r@.0.prec == 24,
        float_is_ieee(
            r@.0,
            r@.1,
            bits >> 31u32 == 1,
            ((bits >> 23u32) & 0xff) as nat,
            (bits & 0x7f_ffff) as nat,
            0xff,
            23,
            127,
        ),
{
    let neg = (bits >> 31u32) == 1;
    let biased = (bits >> 23u32) & 0xff;
    let frac = bits & 0x7f_ffff;
    let sign: i32 = if neg {
        -1
    } else {
        1
    };
    let mut limbs: Limbs = [0, 0];
    proof {
        lemma_pow2_128();
        vstd::arithmetic::power2::lemma2_to64();
        vstd::arithmetic::power2::lemma2_to64_rest();
        assert(frac < 0x80_0000u32) by (bit_vector)
            requires
                frac == bits & 0x7f_ffff,
        ;
        assert(biased <= 0xffu32) by (bit_vector)
            requires
                biased == (bits >> 23u32) & 0xff,
        ;
    }
    let inner = if biased == 0xff {
        if frac == 0 {
            RawFloat { prec: 24, sign, exp: EXP_INF }
        } else {
            RawFloat { prec: 24, sign, exp: EXP_NAN }
        }
    } else if biased == 0 {
        if frac == 0 {
            RawFloat { prec: 24, sign, exp: EXP_ZERO }
        } else {
            let wide = frac as u64;
            let leading = wide.leading_zeros();
            proof {
                lemma_u64_leading_zeros(wide);
                if leading < 41 {
                    vstd::arithmetic::power2::lemma_pow2_strictly_increases(
                        23,
                        (63 - leading) as nat,
                    );
                }
                lemma_one_limb(wide as nat, 64, leading as nat, limbs);
                lemma_u64_shl_is_mul(wide, leading as u64);
            }
            limbs[0] = wide << leading;
            let exp = -85 - (leading as i64);
            let inner = RawFloat { prec: 24, sign, exp };
            proof {
                lemma_pow2_pos((63 - leading) as nat);
                lemma_pow2_adds((63 - leading) as nat, leading as nat);
                assert(wide * pow2(leading as nat) >= pow2(63)) by (nonlinear_arith)
                    requires
                        wide >= pow2((63 - leading) as nat),
                        pow2((63 - leading) as nat) * pow2(leading as nat) == pow2(63),
                ;
                lemma_top_limb(wide as nat, leading as nat, 24, limbs, inner, neg, -149);
            }
            inner
        }
    } else {
        let m = (frac | 0x80_0000) as u64;
        proof {
            assert(frac | 0x80_0000u32 == frac + 0x80_0000u32) by (bit_vector)
                requires
                    frac < 0x80_0000u32,
            ;
            lemma_u64_shl_is_mul(m, 40);
        }
        limbs[0] = m << 40u64;
        let exp = (biased as i64) - 126;
        let inner = RawFloat { prec: 24, sign, exp };
        proof {
            lemma_top_limb(m as nat, 40, 24, limbs, inner, neg, biased - 150);
        }
        inner
    };
    MiniFloat::from_parts(inner, limbs)
}

}

/// Reading back the top `width` bits of the first limb of a number set from
/// a nonzero integer of `width` bits gives that integer shifted left until
/// its top bit is bit `width - 1`: the read value times `2^exp` is the
/// integer times `2^width`, and the exponent is at most `width`.
pub proof fn lemma_unshifted_top_bits(raw: RawFloat, limbs: Limbs, v: nat, width: nat)
    requires
        1 <= width <= 64,
        raw.prec <= 64,
        float_wf(raw, limbs),
        float_is_int(raw, limbs, v as int),
        0 < v < pow2(width),
    ensures
        0 < raw.exp <= width,
        (limbs[0] as nat / pow2((64 - width) as nat)) * pow2(raw.exp as nat) == v * pow2(width),
{
    lemma_pow2_128();
    let e = raw.exp as nat;
    let l = limbs[0] as nat;
    lemma_pow2_adds(64, 64);
    assert(l * pow2(e) == v * pow2(64)) by (nonlinear_arith)
        requires
            l * pow2(64) * pow2(e) == v * pow2(128),
            pow2(128) == pow2(64) * pow2(64),
            pow2(64) > 0,
    ;
    lemma_pow2_adds(63, e);
    lemma_pow2_adds(width, 64);
    assert(pow2(63 + e) < pow2(width + 64)) by (nonlinear_arith)
        requires
            l * pow2(e) == v * pow2(64),
            l >= pow2(63),
            v < pow2(width),
            pow2(63 + e) == pow2(63) * pow2(e),
            pow2(width + 64) == pow2(width) * pow2(64),
            pow2(64) > 0,
    ;
    if 63 + e >= width + 64 {
        if 63 + e > width + 64 {
            vstd::arithmetic::power2::lemma_pow2_strictly_increases(width + 64, 63 + e);
        }
    }
    let k = (64 - e) as nat;
    lemma_pow2_adds(k, e);
    lemma_pow2_pos(e);
    assert(l == v * pow2(k)) by (nonlinear_arith)
        requires
            l * pow2(e) == v * pow2(64),
            pow2(64) == pow2(k) * pow2(e),
            pow2(e) > 0,
    ;
    let j = (width - e) as nat;
    let low = (64 - width) as nat;
    lemma_pow2_adds(j, low);
    lemma_pow2_pos(low);
    assert(l == (v * pow2(j)) * pow2(low)) by (nonlinear_arith)
        requires
            l == v * pow2(k),
            pow2(k) == pow2(j) * pow2(low),
    ;
    vstd::arithmetic::div_mod::lemma_div_by_multiple((v * pow2(j)) as int, pow2(low) as int);
    lemma_pow2_adds(j, e);
    assert((v * pow2(j)) * pow2(e) == v * pow2(width)) by (nonlinear_arith)
        requires
            pow2(width) == pow2(j) * pow2(e),
    ;
}

} // verus!
