//! Integers held in two 64-bit limbs, in the layout of a GMP `mpz_t`.

use crate::misc::{abs_int, NegAbs};
use crate::Assign;
use az::Az;
use vstd::prelude::*;

verus! {

/// The number of limbs that a small number holds.
pub const LIMBS_IN_SMALL: usize = 2;

/// The limbs of a small number, least significant first.
pub type Limbs = [u64; 2];

/// 2^64, the radix of one limb.
pub open spec fn limb_radix() -> nat {
    0x1_0000_0000_0000_0000nat
}

/// The magnitude held by the `n` least significant limbs.
pub open spec fn limbs_magnitude(n: int, limbs: Limbs) -> nat {
    if n <= 0 {
        0
    } else if n == 1 {
        limbs[0] as nat
    } else {
        limbs[0] as nat + limbs[1] as nat * limb_radix()
    }
}

/// The integer that a GMP size and limbs stand for: the absolute value of
/// `size` is the number of limbs in use, and its sign is the number's sign.
pub open spec fn limbs_value(size: i32, limbs: Limbs) -> int {
    if size < 0 {
        -(limbs_magnitude(-size, limbs) as int)
    } else {
        limbs_magnitude(size as int, limbs) as int
    }
}

/// The number of limbs in use: the absolute value of the size.
pub open spec fn limbs_in_use(size: i32) -> int {
    if size < 0 {
        -size
    } else {
        size as int
    }
}

/// GMP's normal form: at most two limbs in use, and the most significant
/// limb in use is not zero.
pub open spec fn limbs_normalized(size: i32, limbs: Limbs) -> bool {
    &&& -2 <= size <= 2
    &&& (size == 1 || size == -1) ==> limbs[0] != 0
    &&& (size == 2 || size == -2) ==> limbs[1] != 0
}

/// In normal form the sign of the size is the sign of the number.
pub proof fn lemma_size_sign(size: i32, limbs: Limbs)
    requires
        limbs_normalized(size, limbs),
    ensures
        size < 0 <==> limbs_value(size, limbs) < 0,
        size == 0 <==> limbs_value(size, limbs) == 0,
{
}

/// The magnitude that a size and limbs hold, as one 128-bit number.
pub(crate) fn magnitude(size: i32, limbs: Limbs) -> (r: u128)
    requires
        limbs_normalized(size, limbs),
    ensures
        r as int == abs_int(limbs_value(size, limbs)),
{
    if size == 0 {
        0
    } else if size == 1 || size == -1 {
        limbs[0] as u128
    } else {
        let lo = limbs[0];
        let hi = limbs[1];
        assert(((hi as u128) << 64u128) | (lo as u128) == (lo as u128) + (hi as u128)
            * 0x1_0000_0000_0000_0000u128) by (bit_vector);
        ((hi as u128) << 64u32) | (lo as u128)
    }
}

/// `az::Az` from `usize` to `u64`, a cast that keeps the value.
#[verifier::external_body]
pub(crate) fn usize_az_u64(x: usize) -> (r: u64)
    ensures
        r as int == x as int,
{
    x.az::<u64>()
}

/// `az::Az` from `usize` to `u32`, a cast that keeps the value; it is called
/// only where a `usize` has 32 bits, where it cannot overflow.
#[verifier::external_body]
pub(crate) fn usize_az_u32(x: usize) -> (r: u32)
    requires
        x <= u32::MAX,
    ensures
        r as int == x as int,
{
    x.az::<u32>()
}

/// Types implementing this trait can be converted to [`StackInteger`].
///
/// It is implemented for [`bool`] and the primitive integer types.
pub trait ToStack: SealedToStack {

}

/// The conversion behind [`ToStack`].
pub trait SealedToStack: Sized {
    /// The integer that the value stands for.
    spec fn stack_value(&self) -> int;

    /// Writes the value as a GMP size and limbs; the limbs that are not in
    /// use keep what they held.
    fn copy(self, size: &mut i32, limbs: &mut Limbs)
        ensures
            limbs_normalized(*final(size), *final(limbs)),
            limbs_value(*final(size), *final(limbs)) == self.stack_value(),
            forall|i: int|
                limbs_in_use(*final(size)) <= i < 2 ==> #[trigger] final(limbs)[i] == old(limbs)[i],
    ;

    fn is_zero(&self) -> (r: bool)
        ensures
            r == (self.stack_value() == 0),
    ;
}

impl ToStack for bool {

}

impl SealedToStack for bool {
    open spec fn stack_value(&self) -> int {
        if *self {
            1
        } else {
            0
        }
    }

    fn copy(self, size: &mut i32, limbs: &mut Limbs) {
        if self {
            *size = 1;
            limbs[0] = 1;
        } else {
            *size = 0;
        }
    }

    fn is_zero(&self) -> (r: bool) {
        !*self
    }
}

impl ToStack for u8 {

}

impl SealedToStack for u8 {
    open spec fn stack_value(&self) -> int {
        *self as int
    }

    fn copy(self, size: &mut i32, limbs: &mut Limbs) {
        if self == 0 {
            *size = 0;
        } else {
            *size = 1;
            limbs[0] = self as u64;
        }
    }

    fn is_zero(&self) -> (r: bool) {
        *self == 0
    }
}

impl ToStack for u16 {

}

impl SealedToStack for u16 {
    open spec fn stack_value(&self) -> int {
        *self as int
    }

    fn copy(self, size: &mut i32, limbs: &mut Limbs) {
        if self == 0 {
            *size = 0;
        } else {
            *size = 1;
            limbs[0] = self as u64;
        }
    }

    fn is_zero(&self) -> (r: bool) {
        *self == 0
    }
}

impl ToStack for u32 {

}

impl SealedToStack for u32 {
    open spec fn stack_value(&self) -> int {
        *self as int
    }

    fn copy(self, size: &mut i32, limbs: &mut Limbs) {
        if self == 0 {
            *size = 0;
        } else {
            *size = 1;
            limbs[0] = self as u64;
        }
    }

    fn is_zero(&self) -> (r: bool) {
        *self == 0
    }
}

impl ToStack for u64 {

}

impl SealedToStack for u64 {
    open spec fn stack_value(&self) -> int {
        *self as int
    }

    fn copy(self, size: &mut i32, limbs: &mut Limbs) {
        if self == 0 {
            *size = 0;
        } else {
            *size = 1;
            limbs[0] = self as u64;
        }
    }

    fn is_zero(&self) -> (r: bool) {
        *self == 0
    }
}

proof fn lemma_u128_limbs(x: u128)
    ensures
        x as int == (x as u64) as int + ((x >> 64u128) as u64) as int * limb_radix(),
        (x >> 64u128) as u64 == 0 <==> x <= 0xffff_ffff_ffff_ffffu128,
{
    assert(x == (x as u64) as u128 + ((x >> 64u128) as u64) as u128 * 0x1_0000_0000_0000_0000u128)
        by (bit_vector);
    assert((x >> 64u128) as u64 == 0 <==> x <= 0xffff_ffff_ffff_ffffu128) by (bit_vector);
}

impl ToStack for u128 {

}

impl SealedToStack for u128 {
    open spec fn stack_value(&self) -> int {
        *self as int
    }

    fn copy(self, size: &mut i32, limbs: &mut Limbs) {
        proof {
            lemma_u128_limbs(self);
        }
        if self == 0 {
            *size = 0;
        } else if self <= 0xffff_ffff_ffff_ffff {
            *size = 1;
            limbs[0] = self as u64;
        } else {
            *size = 2;
            limbs[0] = self as u64;
            limbs[1] = (self >> 64u32) as u64;
        }
    }

    fn is_zero(&self) -> (r: bool) {
        *self == 0
    }
}

impl ToStack for usize {

}

impl SealedToStack for usize {
    open spec fn stack_value(&self) -> int {
        *self as int
    }

    fn copy(self, size: &mut i32, limbs: &mut Limbs) {
        usize_az_u64(self).copy(size, limbs);
    }

    fn is_zero(&self) -> (r: bool) {
        *self == 0
    }
}

impl ToStack for i8 {

}

impl SealedToStack for i8 {
    open spec fn stack_value(&self) -> int {
        *self as int
    }

    fn copy(self, size: &mut i32, limbs: &mut Limbs) {
        let (neg, abs) = self.neg_abs();
        abs.copy(size, limbs);
        if neg {
            *size = -*size;
        }
    }

    fn is_zero(&self) -> (r: bool) {
        *self == 0
    }
}

impl ToStack for i16 {

}

impl SealedToStack for i16 {
    open spec fn stack_value(&self) -> int {
        *self as int
    }

    fn copy(self, size: &mut i32, limbs: &mut Limbs) {
        let (neg, abs) = self.neg_abs();
        abs.copy(size, limbs);
        if neg {
            *size = -*size;
        }
    }

    fn is_zero(&self) -> (r: bool) {
        *self == 0
    }
}

impl ToStack for i32 {

}

impl SealedToStack for i32 {
    open spec fn stack_value(&self) -> int {
        *self as int
    }

    fn copy(self, size: &mut i32, limbs: &mut Limbs) {
        let (neg, abs) = self.neg_abs();
        abs.copy(size, limbs);
        if neg {
            *size = -*size;
        }
    }

    fn is_zero(&self) -> (r: bool) {
        *self == 0
    }
}

impl ToStack for i64 {

}

impl SealedToStack for i64 {
    open spec fn stack_value(&self) -> int {
        *self as int
    }

    fn copy(self, size: &mut i32, limbs: &mut Limbs) {
        let (neg, abs) = self.neg_abs();
        abs.copy(size, limbs);
        if neg {
            *size = -*size;
        }
    }

    fn is_zero(&self) -> (r: bool) {
        *self == 0
    }
}

impl ToStack for i128 {

}

impl SealedToStack for i128 {
    open spec fn stack_value(&self) -> int {
        *self as int
    }

    fn copy(self, size: &mut i32, limbs: &mut Limbs) {
        let (neg, abs) = self.neg_abs();
        abs.copy(size, limbs);
        if neg {
            *size = -*size;
        }
    }

    fn is_zero(&self) -> (r: bool) {
        *self == 0
    }
}

impl ToStack for isize {

}

impl SealedToStack for isize {
    open spec fn stack_value(&self) -> int {
        *self as int
    }

    fn copy(self, size: &mut i32, limbs: &mut Limbs) {
        let (neg, abs) = self.neg_abs();
        abs.copy(size, limbs);
        if neg {
            *size = -*size;
        }
    }

    fn is_zero(&self) -> (r: bool) {
        *self == 0
    }
}

/// A small integer that does not require any memory allocation: a GMP size
/// and two limbs.
pub struct StackInteger {
    size: i32,
    limbs: Limbs,
}

impl View for StackInteger {
    type V = int;

    closed spec fn view(&self) -> int {
        limbs_value(self.size, self.limbs)
    }
}

impl StackInteger {
    /// The GMP size that the number holds.
    pub closed spec fn raw_size(self) -> i32 {
        self.size
    }

    /// The limbs that the number holds.
    pub closed spec fn raw_limbs(self) -> Limbs {
        self.limbs
    }

    #[verifier::type_invariant]
    pub closed spec fn inv(self) -> bool {
        limbs_normalized(self.size, self.limbs)
    }

    /// Creates a [`StackInteger`] with value 0.
    pub fn new() -> (r: Self)
        ensures
            r@ == 0,
            r.raw_size() == 0,
            r.raw_limbs() == [0u64, 0u64],
    {
        StackInteger { size: 0, limbs: [0, 0] }
    }

    /// Creates a [`StackInteger`] from a primitive value.
    pub fn from<T: ToStack>(src: T) -> (r: Self)
        ensures
            r@ == src.stack_value(),
            forall|i: int| limbs_in_use(r.raw_size()) <= i < 2 ==> #[trigger] r.raw_limbs()[i] == 0,
    {
        let mut size: i32 = 0;
        let mut limbs: Limbs = [0, 0];
        src.copy(&mut size, &mut limbs);
        StackInteger { size, limbs }
    }

    /// Creates a [`StackInteger`] from a GMP size and limbs in normal form.
    pub fn from_raw(size: i32, limbs: Limbs) -> (r: Self)
        requires
            limbs_normalized(size, limbs),
        ensures
            r@ == limbs_value(size, limbs),
            r.raw_size() == size,
            r.raw_limbs() == limbs,
    {
        StackInteger { size, limbs }
    }

    /// The sign and the magnitude of the number.
    pub fn sign_magnitude(&self) -> (r: (bool, u128))
        ensures
            r.0 == (self@ < 0),
            r.1 as int == abs_int(self@),
    {
        proof {
            use_type_invariant(self);
            lemma_size_sign(self.size, self.limbs);
        }
        (self.size < 0, magnitude(self.size, self.limbs))
    }

    /// The GMP size: the number of limbs in use, negated for a negative number.
    pub fn size(&self) -> (r: i32)
        ensures
            r == self.raw_size(),
    {
        self.size
    }

    /// The limbs, least significant first.
    pub fn limbs(&self) -> (r: Limbs)
        ensures
            r == self.raw_limbs(),
            self@ == limbs_value(self.raw_size(), r),
            limbs_normalized(self.raw_size(), r),
    {
        proof {
            use_type_invariant(self);
        }
        self.limbs
    }
}

impl<T: ToStack> Assign<T> for StackInteger {
    open spec fn accepts(src: &T) -> bool {
        true
    }

    fn assign(&mut self, src: T)
        ensures
            final(self)@ == src.stack_value(),
    {
        let mut size = self.size;
        let mut limbs = self.limbs;
        src.copy(&mut size, &mut limbs);
        *self = StackInteger { size, limbs };
    }
}

impl Assign<&StackInteger> for StackInteger {
    open spec fn accepts(src: &&StackInteger) -> bool {
        true
    }

    fn assign(&mut self, other: &StackInteger)
        ensures
            final(self)@ == other@,
    {
        proof {
            use_type_invariant(other);
        }
        *self = StackInteger { size: other.size, limbs: other.limbs };
    }
}

impl Assign for StackInteger {
    open spec fn accepts(src: &StackInteger) -> bool {
        true
    }

    fn assign(&mut self, other: StackInteger)
        ensures
            final(self)@ == other@,
    {
        *self = other;
    }
}

impl Clone for StackInteger {
    fn clone(&self) -> (r: Self)
        ensures
            r@ == self@,
    {
        proof {
            use_type_invariant(self);
        }
        StackInteger { size: self.size, limbs: self.limbs }
    }
}

impl Default for StackInteger {
    fn default() -> (r: Self)
        ensures
            r@ == 0,
    {
        StackInteger::new()
    }
}

} // verus!
