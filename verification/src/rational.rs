//! Rational numbers held in two pairs of 64-bit limbs, in the layout of a GMP
//! `mpq_t`, always in canonical form.

use crate::gcd::{gcd, lemma_euclid, lemma_gcd_commutes, lemma_gcd_divides, lemma_gcd_quotients_coprime};
use crate::integer::{lemma_size_sign, magnitude, limbs_normalized, limbs_value, Limbs, SealedToStack, StackInteger, ToStack};
use crate::misc::abs_int;
use crate::Assign;
use vstd::prelude::*;

verus! {

/// The canonical form of a rational: a positive denominator that has no
/// factor in common with the numerator.
pub open spec fn is_canonical(num: int, den: int) -> bool {
    den > 0 && gcd(abs_int(num), den as nat) == 1
}

/// `n1 / d1` and `n2 / d2` are the same rational.
pub open spec fn same_ratio(n1: int, d1: int, n2: int, d2: int) -> bool {
    n1 * d2 == n2 * d1
}

/// The sign of an integer as a factor: -1, 0 or 1.
pub open spec fn signum(x: int) -> int {
    if x < 0 {
        -1
    } else if x == 0 {
        0
    } else {
        1
    }
}

proof fn lemma_abs_mul(a: int, b: int)
    ensures
        abs_int(a * b) == abs_int(a) * abs_int(b),
{
    assert(abs_int(a * b) == abs_int(a) * abs_int(b)) by (nonlinear_arith);
}

/// Every rational has exactly one canonical form: two canonical pairs that
/// stand for the same rational are equal.
pub proof fn lemma_canonical_unique(n1: int, d1: int, n2: int, d2: int)
    requires
        is_canonical(n1, d1),
        is_canonical(n2, d2),
        same_ratio(n1, d1, n2, d2),
    ensures
        n1 == n2,
        d1 == d2,
{
    let m1 = abs_int(n1);
    let m2 = abs_int(n2);
    lemma_abs_mul(n1, d2);
    lemma_abs_mul(n2, d1);
    assert(m1 * d2 == m2 * d1);
    lemma_gcd_commutes(m1, d1 as nat);
    lemma_gcd_commutes(m2, d2 as nat);
    assert((m1 * (d2 as nat)) % (d1 as nat) == 0) by {
        assert(m1 * d2 == d1 * m2) by (nonlinear_arith)
            requires
                m1 * d2 == m2 * d1,
        ;
        vstd::arithmetic::div_mod::lemma_mod_multiples_basic(m2 as int, d1);
        assert(m2 * d1 == d1 * m2) by (nonlinear_arith);
    }
    assert((m2 * (d1 as nat)) % (d2 as nat) == 0) by {
        vstd::arithmetic::div_mod::lemma_mod_multiples_basic(m1 as int, d2);
        assert(m1 * d2 == d2 * m1) by (nonlinear_arith);
    }
    lemma_euclid(d1 as nat, m1, d2 as nat);
    lemma_euclid(d2 as nat, m2, d1 as nat);
    vstd::arithmetic::div_mod::lemma_fundamental_div_mod(d2, d1);
    vstd::arithmetic::div_mod::lemma_fundamental_div_mod(d1, d2);
    assert(d1 == d2) by (nonlinear_arith)
        requires
            d1 > 0,
            d2 > 0,
            d2 == d1 * (d2 / d1),
            d1 == d2 * (d1 / d2),
    ;
    assert(m1 == m2) by (nonlinear_arith)
        requires
            m1 * d2 == m2 * d1,
            d1 == d2,
            d1 > 0,
    ;
    assert(n1 == n2) by (nonlinear_arith)
        requires
            n1 * d2 == n2 * d1,
            d1 == d2,
            d1 > 0,
    ;
}

/// The numerator of the canonical form of `n / d`.
pub open spec fn reduced_num(n: int, d: int) -> int {
    signum(n) * signum(d) * (abs_int(n) as int / gcd(abs_int(n), abs_int(d)) as int)
}

/// The denominator of the canonical form of `n / d`.
pub open spec fn reduced_den(n: int, d: int) -> int {
    abs_int(d) as int / gcd(abs_int(n), abs_int(d)) as int
}

/// Dividing numerator and denominator by their gcd, and moving the sign to
/// the numerator, gives the canonical form of the same rational.
pub proof fn lemma_reduce(n: int, d: int)
    requires
        d != 0,
    ensures
        gcd(abs_int(n), abs_int(d)) > 0,
        is_canonical(reduced_num(n, d), reduced_den(n, d)),
        same_ratio(reduced_num(n, d), reduced_den(n, d), n, d),
{
    let m = abs_int(n);
    let e = abs_int(d);
    lemma_gcd_quotients_coprime(m, e);
    lemma_gcd_divides(m, e);
    let g = gcd(m, e) as int;
    let mq = m as int / g;
    let eq = e as int / g;
    vstd::arithmetic::div_mod::lemma_fundamental_div_mod(m as int, g);
    vstd::arithmetic::div_mod::lemma_fundamental_div_mod(e as int, g);
    assert(m == g * mq);
    assert(e == g * eq);
    assert(eq > 0) by (nonlinear_arith)
        requires
            e == g * eq,
            e > 0,
            g > 0,
    ;
    assert(mq >= 0) by (nonlinear_arith)
        requires
            m == g * mq,
            g > 0,
    ;
    let num = signum(n) * signum(d) * mq;
    if n == 0 {
        assert(mq == 0) by (nonlinear_arith)
            requires
                0 == g * mq,
                g > 0,
        ;
        assert(num == 0) by (nonlinear_arith)
            requires
                num == signum(n) * signum(d) * mq,
                mq == 0,
        ;
    } else if (n < 0) == (d < 0) {
        assert(signum(n) * signum(d) == 1);
        assert(num == mq) by (nonlinear_arith)
            requires
                num == signum(n) * signum(d) * mq,
                signum(n) * signum(d) == 1,
        ;
    } else {
        assert(signum(n) * signum(d) == -1);
        assert(num == -mq) by (nonlinear_arith)
            requires
                num == signum(n) * signum(d) * mq,
                signum(n) * signum(d) == -1,
        ;
    }
    assert(abs_int(num) == mq);
    assert(n == signum(n) * m);
    assert(d == signum(d) * e);
    assert(same_ratio(num, eq, n, d)) by (nonlinear_arith)
        requires
            num == signum(n) * signum(d) * mq,
            n == signum(n) * m,
            d == signum(d) * e,
            signum(d) * signum(d) == 1,
            m == g * mq,
            e == g * eq,
    ;
}

/// The gcd of two 128-bit numbers, by Euclid's algorithm.
fn gcd_u128(a: u128, b: u128) -> (g: u128)
    ensures
        g as nat == gcd(a as nat, b as nat),
{
    let mut x = a;
    let mut y = b;
    while y != 0
        invariant
            gcd(x as nat, y as nat) == gcd(a as nat, b as nat),
        decreases y,
    {
        let r = x % y;
        x = y;
        y = r;
    }
    x
}

/// Puts a numerator and a nonzero denominator in canonical form, as
/// `mpq_canonicalize` does: removes the factors that they have in common and
/// makes the denominator positive.
fn canonicalize(num_size: &mut i32, num_limbs: &mut Limbs, den_size: &mut i32, den_limbs: &mut Limbs)
    requires
        limbs_normalized(*old(num_size), *old(num_limbs)),
        limbs_normalized(*old(den_size), *old(den_limbs)),
        limbs_value(*old(den_size), *old(den_limbs)) != 0,
    ensures
        limbs_normalized(*final(num_size), *final(num_limbs)),
        limbs_normalized(*final(den_size), *final(den_limbs)),
        is_canonical(
            limbs_value(*final(num_size), *final(num_limbs)),
            limbs_value(*final(den_size), *final(den_limbs)),
        ),
        same_ratio(
            limbs_value(*final(num_size), *final(num_limbs)),
            limbs_value(*final(den_size), *final(den_limbs)),
            limbs_value(*old(num_size), *old(num_limbs)),
            limbs_value(*old(den_size), *old(den_limbs)),
        ),
{
    let ghost n = limbs_value(*num_size, *num_limbs);
    let ghost d = limbs_value(*den_size, *den_limbs);
    proof {
        lemma_reduce(n, d);
        lemma_size_sign(*num_size, *num_limbs);
        lemma_size_sign(*den_size, *den_limbs);
    }
    let nm = magnitude(*num_size, *num_limbs);
    let dm = magnitude(*den_size, *den_limbs);
    let g = gcd_u128(nm, dm);
    let nq = nm / g;
    let dq = dm / g;
    let neg = (*num_size < 0) != (*den_size < 0);
    nq.copy(num_size, num_limbs);
    if neg && *num_size != 0 {
        *num_size = -*num_size;
    }
    dq.copy(den_size, den_limbs);
    proof {
        let gi = g as int;
        let q = abs_int(n) as int / gi;
        assert(nq as int == q);
        if q == 0 {
            assert(signum(n) * signum(d) * q == 0) by (nonlinear_arith)
                requires
                    q == 0,
            ;
        } else if neg {
            assert(signum(n) * signum(d) == -1);
            assert(signum(n) * signum(d) * q == -q) by (nonlinear_arith)
                requires
                    signum(n) * signum(d) == -1,
            ;
        } else {
            assert(signum(n) * signum(d) == 1);
            assert(signum(n) * signum(d) * q == q) by (nonlinear_arith)
                requires
                    signum(n) * signum(d) == 1,
            ;
        }
        assert(limbs_value(*num_size, *num_limbs) == reduced_num(n, d));
        assert(limbs_value(*den_size, *den_limbs) == reduced_den(n, d));
    }
}

/// Values that a small rational can be set from: an integer, or a pair of a
/// numerator and a denominator.
pub trait ToRational: Sized {
    /// The numerator that the value stands for.
    spec fn numer_value(&self) -> int;

    /// The denominator that the value stands for.
    spec fn denom_value(&self) -> int;

    /// Writes numerator and denominator as GMP sizes and limbs, as they are.
    fn copy_parts(self, num_size: &mut i32, num_limbs: &mut Limbs, den_size: &mut i32, den_limbs: &mut Limbs)
        requires
            self.denom_value() != 0,
        ensures
            limbs_normalized(*final(num_size), *final(num_limbs)),
            limbs_normalized(*final(den_size), *final(den_limbs)),
            limbs_value(*final(num_size), *final(num_limbs)) == self.numer_value(),
            limbs_value(*final(den_size), *final(den_limbs)) == self.denom_value(),
    ;
}

impl<Num: ToStack> ToRational for Num {
    open spec fn numer_value(&self) -> int {
        self.stack_value()
    }

    open spec fn denom_value(&self) -> int {
        1
    }

    fn copy_parts(self, num_size: &mut i32, num_limbs: &mut Limbs, den_size: &mut i32, den_limbs: &mut Limbs) {
        self.copy(num_size, num_limbs);
        *den_size = 1;
        den_limbs[0] = 1;
    }
}

/// A rational made from an integer is that integer over one: the canonical
/// form of the same ratio as an integer source has the integer itself, sign
/// included, as numerator and one as denominator.
pub proof fn lemma_rational_from_integer<Num: ToStack>(n: Num, num: int, den: int)
    requires
        is_canonical(num, den),
        same_ratio(num, den, n.numer_value(), n.denom_value()),
    ensures
        num == n.stack_value(),
        den == 1,
        num < 0 <==> n.stack_value() < 0,
{
    let v = n.stack_value();
    assert(abs_int(v) % 1 == 0);
    assert(gcd(1, 0) == 1);
    assert(gcd(abs_int(v), 1) == gcd(1, abs_int(v) % 1));
    assert(is_canonical(v, 1));
    assert(same_ratio(num, den, v, 1));
    lemma_canonical_unique(num, den, v, 1);
}

impl<Num: ToStack, Den: ToStack> ToRational for (Num, Den) {
    open spec fn numer_value(&self) -> int {
        self.0.stack_value()
    }

    open spec fn denom_value(&self) -> int {
        self.1.stack_value()
    }

    fn copy_parts(self, num_size: &mut i32, num_limbs: &mut Limbs, den_size: &mut i32, den_limbs: &mut Limbs) {
        let (num, den) = self;
        num.copy(num_size, num_limbs);
        den.copy(den_size, den_limbs);
    }
}

/// A small rational number that does not require any memory allocation: the
/// GMP sizes and limbs of a numerator and a denominator, kept in canonical
/// form.
#[derive(Clone, Copy)]
pub struct MiniRational {
    num_size: i32,
    num_limbs: Limbs,
    den_size: i32,
    den_limbs: Limbs,
}

impl View for MiniRational {
    /// The numerator and the denominator.
    type V = (int, int);

    closed spec fn view(&self) -> (int, int) {
        (limbs_value(self.num_size, self.num_limbs), limbs_value(self.den_size, self.den_limbs))
    }
}

impl MiniRational {
    #[verifier::type_invariant]
    closed spec fn inv(self) -> bool {
        &&& limbs_normalized(self.num_size, self.num_limbs)
        &&& limbs_normalized(self.den_size, self.den_limbs)
        &&& is_canonical(
            limbs_value(self.num_size, self.num_limbs),
            limbs_value(self.den_size, self.den_limbs),
        )
    }

    /// Creates a [`MiniRational`] with value 0.
    pub fn new() -> (r: Self)
        ensures
            r@ == (0int, 1int),
    {
        proof {
            assert(gcd(0, 1) == 1) by {
                assert(gcd(0, 1) == gcd(1, 0nat % 1nat));
            }
        }
        MiniRational { num_size: 0, num_limbs: [0, 0], den_size: 1, den_limbs: [1, 0] }
    }

    /// Creates a [`MiniRational`] from an integer, or from a numerator and a
    /// nonzero denominator, put in canonical form.
    pub fn from<Src: ToRational>(src: Src) -> (r: Self)
        requires
            src.denom_value() != 0,
        ensures
            is_canonical(r@.0, r@.1),
            same_ratio(r@.0, r@.1, src.numer_value(), src.denom_value()),
    {
        let mut num_size: i32 = 0;
        let mut num_limbs: Limbs = [0, 0];
        let mut den_size: i32 = 0;
        let mut den_limbs: Limbs = [0, 0];
        src.copy_parts(&mut num_size, &mut num_limbs, &mut den_size, &mut den_limbs);
        canonicalize(&mut num_size, &mut num_limbs, &mut den_size, &mut den_limbs);
        MiniRational { num_size, num_limbs, den_size, den_limbs }
    }

    /// Creates a [`MiniRational`] from a numerator and a denominator that are
    /// already in canonical form: the denominator is positive and has no
    /// factor in common with the numerator.
    pub fn from_canonical<Num: ToStack, Den: ToStack>(num: Num, den: Den) -> (r: Self)
        requires
            is_canonical(num.stack_value(), den.stack_value()),
        ensures
            r@ == (num.stack_value(), den.stack_value()),
    {
        let mut num_size: i32 = 0;
        let mut num_limbs: Limbs = [0, 0];
        let mut den_size: i32 = 0;
        let mut den_limbs: Limbs = [0, 0];
        num.copy(&mut num_size, &mut num_limbs);
        den.copy(&mut den_size, &mut den_limbs);
        MiniRational { num_size, num_limbs, den_size, den_limbs }
    }

    /// Assigns a numerator and a denominator that are already in canonical
    /// form.
    pub fn assign_canonical<Num: ToStack, Den: ToStack>(&mut self, num: Num, den: Den)
        requires
            is_canonical(num.stack_value(), den.stack_value()),
        ensures
            final(self)@ == (num.stack_value(), den.stack_value()),
    {
        *self = MiniRational::from_canonical(num, den);
    }

    /// The numerator.
    pub fn numer(&self) -> (r: StackInteger)
        ensures
            r@ == self@.0,
    {
        proof {
            use_type_invariant(self);
        }
        StackInteger::from_raw(self.num_size, self.num_limbs)
    }

    /// The denominator, which is positive.
    pub fn denom(&self) -> (r: StackInteger)
        ensures
            r@ == self@.1,
            r@ > 0,
            is_canonical(self@.0, self@.1),
    {
        proof {
            use_type_invariant(self);
        }
        StackInteger::from_raw(self.den_size, self.den_limbs)
    }
}

impl Default for MiniRational {
    fn default() -> (r: Self)
        ensures
            r@ == (0int, 1int),
    {
        MiniRational::new()
    }
}

impl<Src: ToRational> Assign<Src> for MiniRational {
    open spec fn accepts(src: &Src) -> bool {
        src.denom_value() != 0
    }

    fn assign(&mut self, src: Src)
        ensures
            is_canonical(final(self)@.0, final(self)@.1),
            same_ratio(final(self)@.0, final(self)@.1, src.numer_value(), src.denom_value()),
    {
        *self = MiniRational::from(src);
    }
}

impl Assign<&MiniRational> for MiniRational {
    open spec fn accepts(src: &&MiniRational) -> bool {
        true
    }

    fn assign(&mut self, other: &MiniRational)
        ensures
            final(self)@ == other@,
    {
        *self = *other;
    }
}

impl Assign for MiniRational {
    open spec fn accepts(src: &MiniRational) -> bool {
        true
    }

    fn assign(&mut self, other: MiniRational)
        ensures
            final(self)@ == other@,
    {
        *self = other;
    }
}

/// A small rational number that does not require any memory allocation,
/// like [`MiniRational`] but not `Copy`.
pub struct StackRational {
    inner: MiniRational,
}

impl View for StackRational {
    /// The numerator and the denominator.
    type V = (int, int);

    closed spec fn view(&self) -> (int, int) {
        self.inner@
    }
}

impl StackRational {
    /// Creates a [`StackRational`] with value 0.
    pub fn new() -> (r: Self)
        ensures
            r@ == (0int, 1int),
    {
        StackRational { inner: MiniRational::new() }
    }

    /// Creates a [`StackRational`] from an integer, or from a numerator and a
    /// nonzero denominator, put in canonical form.
    pub fn from<Src: ToRational>(src: Src) -> (r: Self)
        requires
            src.denom_value() != 0,
        ensures
            is_canonical(r@.0, r@.1),
            same_ratio(r@.0, r@.1, src.numer_value(), src.denom_value()),
    {
        StackRational { inner: MiniRational::from(src) }
    }

    /// Creates a [`StackRational`] from a numerator and a denominator that are
    /// already in canonical form.
    pub fn from_canonical<Num: ToStack, Den: ToStack>(num: Num, den: Den) -> (r: Self)
        requires
            is_canonical(num.stack_value(), den.stack_value()),
        ensures
            r@ == (num.stack_value(), den.stack_value()),
    {
        StackRational { inner: MiniRational::from_canonical(num, den) }
    }

    /// Assigns a numerator and a denominator that are already in canonical
    /// form.
    pub fn assign_canonical<Num: ToStack, Den: ToStack>(&mut self, num: Num, den: Den)
        requires
            is_canonical(num.stack_value(), den.stack_value()),
        ensures
            final(self)@ == (num.stack_value(), den.stack_value()),
    {
        self.inner = MiniRational::from_canonical(num, den);
    }

    /// The numerator.
    pub fn numer(&self) -> (r: StackInteger)
        ensures
            r@ == self@.0,
    {
        self.inner.numer()
    }

    /// The denominator, which is positive.
    pub fn denom(&self) -> (r: StackInteger)
        ensures
            r@ == self@.1,
            r@ > 0,
            is_canonical(self@.0, self@.1),
    {
        self.inner.denom()
    }
}

impl Clone for StackRational {
    fn clone(&self) -> (r: Self)
        ensures
            r@ == self@,
    {
        StackRational { inner: self.inner }
    }
}

impl Default for StackRational {
    fn default() -> (r: Self)
        ensures
            r@ == (0int, 1int),
    {
        StackRational::new()
    }
}

impl<Src: ToRational> Assign<Src> for StackRational {
    open spec fn accepts(src: &Src) -> bool {
        src.denom_value() != 0
    }

    fn assign(&mut self, src: Src)
        ensures
            is_canonical(final(self)@.0, final(self)@.1),
            same_ratio(final(self)@.0, final(self)@.1, src.numer_value(), src.denom_value()),
    {
        self.inner = MiniRational::from(src);
    }
}

impl Assign<&StackRational> for StackRational {
    open spec fn accepts(src: &&StackRational) -> bool {
        true
    }

    fn assign(&mut self, other: &StackRational)
        ensures
            final(self)@ == other@,
    {
        self.inner = other.inner;
    }
}

impl Assign for StackRational {
    open spec fn accepts(src: &StackRational) -> bool {
        true
    }

    fn assign(&mut self, other: StackRational)
        ensures
            final(self)@ == other@,
    {
        *self = other;
    }
}

/// Two nonzero-denominator fractions put in canonical form give the same
/// numerator and denominator exactly when they stand for the same rational:
/// `MiniRational::from((a, b))` and `MiniRational::from((c, e))` are equal
/// if and only if `a / b == c / e`.
pub proof fn lemma_canonical_forms_equal_iff_same_ratio(
    n1: int,
    d1: int,
    a: int,
    b: int,
    n2: int,
    d2: int,
    c: int,
    e: int,
)
    requires
        b != 0,
        e != 0,
        is_canonical(n1, d1),
        same_ratio(n1, d1, a, b),
        is_canonical(n2, d2),
        same_ratio(n2, d2, c, e),
    ensures
        (n1 == n2 && d1 == d2) <==> same_ratio(a, b, c, e),
{
    if same_ratio(a, b, c, e) {
        let be = b * e;
        assert(n1 * d2 * be == a * d1 * d2 * e) by (nonlinear_arith)
            requires
                n1 * b == a * d1,
                be == b * e,
        ;
        assert(n2 * d1 * be == c * b * d1 * d2) by (nonlinear_arith)
            requires
                n2 * e == c * d2,
                be == b * e,
        ;
        assert(a * d1 * d2 * e == c * b * d1 * d2) by (nonlinear_arith)
            requires
                a * e == c * b,
        ;
        assert((n1 * d2 - n2 * d1) * be == 0) by (nonlinear_arith)
            requires
                n1 * d2 * be == n2 * d1 * be,
        ;
        assert(be != 0) by (nonlinear_arith)
            requires
                be == b * e,
                b != 0,
                e != 0,
        ;
        assert(n1 * d2 - n2 * d1 == 0) by (nonlinear_arith)
            requires
                (n1 * d2 - n2 * d1) * be == 0,
                be != 0,
        ;
        lemma_canonical_unique(n1, d1, n2, d2);
    }
    if n1 == n2 && d1 == d2 {
        assert(same_ratio(a, b, c, e)) by (nonlinear_arith)
            requires
                n1 * b == a * d1,
                n1 * e == c * d1,
                d1 > 0,
        {
            assert(a * d1 * e == n1 * b * e);
            assert(c * d1 * b == n1 * e * b);
            assert((a * e - c * b) * d1 == 0);
        }
    }
}

} // verus!
