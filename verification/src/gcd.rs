//! Greatest common divisors, the ground of the canonical form of rationals.

use vstd::arithmetic::div_mod::{
    lemma_fundamental_div_mod, lemma_fundamental_div_mod_converse, lemma_mod_multiples_basic,
};
use vstd::prelude::*;

verus! {

/// The greatest common divisor, by Euclid's algorithm; `gcd(0, 0) == 0`.
pub open spec fn gcd(a: nat, b: nat) -> nat
    decreases b,
{
    if b == 0 {
        a
    } else {
        gcd(b, a % b)
    }
}

proof fn lemma_multiple(n: int, d: int)
    requires
        d > 0,
        n % d == 0,
    ensures
        n == d * (n / d),
{
    lemma_fundamental_div_mod(n, d);
}

proof fn lemma_mod_of_multiple(k: int, d: int)
    requires
        d > 0,
    ensures
        (d * k) % d == 0,
{
    lemma_mod_multiples_basic(k, d);
    assert(k * d == d * k) by (nonlinear_arith);
}

proof fn lemma_divisible_combination(d: int, x: int, y: int, q: int)
    requires
        d > 0,
        x % d == 0,
        y % d == 0,
    ensures
        (x * q + y) % d == 0,
        (y - x * q) % d == 0,
{
    lemma_multiple(x, d);
    lemma_multiple(y, d);
    let xk = x / d;
    let yk = y / d;
    assert(x * q + y == d * (xk * q + yk)) by (nonlinear_arith)
        requires
            x == d * xk,
            y == d * yk,
    ;
    assert(y - x * q == d * (yk - xk * q)) by (nonlinear_arith)
        requires
            x == d * xk,
            y == d * yk,
    ;
    lemma_mod_of_multiple(xk * q + yk, d);
    lemma_mod_of_multiple(yk - xk * q, d);
}

/// A positive multiple of `d` is at least `d`.
proof fn lemma_divisor_le(d: nat, g: nat)
    requires
        d > 0,
        g > 0,
        g % d == 0,
    ensures
        d <= g,
{
    lemma_multiple(g as int, d as int);
    let k = g as int / d as int;
    assert(d <= g) by (nonlinear_arith)
        requires
            g == d * k,
            d > 0,
            g > 0,
    ;
}

/// The gcd of two numbers that are not both zero is positive and divides
/// both.
pub proof fn lemma_gcd_divides(a: nat, b: nat)
    requires
        a > 0 || b > 0,
    ensures
        gcd(a, b) > 0,
        a % gcd(a, b) == 0,
        b % gcd(a, b) == 0,
    decreases b,
{
    if b == 0 {
        lemma_mod_of_multiple(1, a as int);
        lemma_mod_of_multiple(0, a as int);
    } else {
        let r = a % b;
        lemma_gcd_divides(b, r);
        let g = gcd(b, r);
        lemma_fundamental_div_mod(a as int, b as int);
        lemma_divisible_combination(g as int, b as int, r as int, a as int / b as int);
        assert(a as int == b * (a as int / b as int) + r);
        assert(b * (a as int / b as int) == b as int * (a as int / b as int));
    }
}

/// Every common divisor divides the gcd.
pub proof fn lemma_gcd_greatest(a: nat, b: nat, d: nat)
    requires
        d > 0,
        a % d == 0,
        b % d == 0,
    ensures
        gcd(a, b) % d == 0,
    decreases b,
{
    if b != 0 {
        let r = a % b;
        lemma_fundamental_div_mod(a as int, b as int);
        lemma_divisible_combination(d as int, b as int, a as int, a as int / b as int);
        assert(r as int == a as int - b as int * (a as int / b as int));
        lemma_gcd_greatest(b, r, d);
    }
}

/// The gcd does not depend on the order of its arguments.
pub proof fn lemma_gcd_commutes(a: nat, b: nat)
    ensures
        gcd(a, b) == gcd(b, a),
{
    if a > 0 || b > 0 {
        lemma_gcd_divides(a, b);
        lemma_gcd_divides(b, a);
        lemma_gcd_greatest(b, a, gcd(a, b));
        lemma_gcd_greatest(a, b, gcd(b, a));
        lemma_divisor_le(gcd(a, b), gcd(b, a));
        lemma_divisor_le(gcd(b, a), gcd(a, b));
    } else {
        assert(gcd(0, 0) == 0);
    }
}

/// Dividing two numbers by their gcd leaves numbers whose gcd is one.
pub proof fn lemma_gcd_quotients_coprime(a: nat, b: nat)
    requires
        b > 0,
    ensures
        gcd(a, b) > 0,
        gcd(a / gcd(a, b), b / gcd(a, b)) == 1,
{
    lemma_gcd_divides(a, b);
    let g = gcd(a, b);
    let a1 = a / g;
    let b1 = b / g;
    lemma_multiple(a as int, g as int);
    lemma_multiple(b as int, g as int);
    assert(b1 > 0) by (nonlinear_arith)
        requires
            b == g * b1,
            b > 0,
            g > 0,
    ;
    lemma_gcd_divides(a1, b1);
    let h = gcd(a1, b1);
    lemma_multiple(a1 as int, h as int);
    lemma_multiple(b1 as int, h as int);
    let ka = a1 as int / h as int;
    let kb = b1 as int / h as int;
    assert(a as int == (g * h) * ka) by (nonlinear_arith)
        requires
            a == g * a1,
            a1 == h * ka,
    ;
    assert(b as int == (g * h) * kb) by (nonlinear_arith)
        requires
            b == g * b1,
            b1 == h * kb,
    ;
    assert(g * h > 0) by (nonlinear_arith)
        requires
            g > 0,
            h > 0,
    ;
    lemma_mod_of_multiple(ka, (g * h) as int);
    lemma_mod_of_multiple(kb, (g * h) as int);
    lemma_gcd_greatest(a, b, (g * h) as nat);
    lemma_divisor_le((g * h) as nat, g);
    assert(h <= 1) by (nonlinear_arith)
        requires
            g * h <= g,
            g > 0,
            h > 0,
    ;
}

/// Scaling both arguments scales the gcd.
pub proof fn lemma_gcd_scale(a: nat, b: nat, c: nat)
    requires
        c > 0,
    ensures
        gcd(a * c, b * c) == gcd(a, b) * c,
    decreases b,
{
    if b == 0 {
        assert(b * c == 0);
    } else {
        let q = a as int / b as int;
        let r = a % b;
        lemma_fundamental_div_mod(a as int, b as int);
        assert(a * c == q * (b * c) + r * c && 0 <= r * c < b * c) by (nonlinear_arith)
            requires
                a == b * q + r,
                0 <= r < b,
                c > 0,
        ;
        lemma_fundamental_div_mod_converse((a * c) as int, (b * c) as int, q, (r * c) as int);
        assert((a * c) % (b * c) == r * c);
        assert(b * c != 0);
        lemma_gcd_scale(b, r, c);
    }
}

/// Euclid's lemma: a number that divides a product and has no common factor
/// with one factor divides the other.
pub proof fn lemma_euclid(a: nat, b: nat, c: nat)
    requires
        a > 0,
        gcd(a, b) == 1,
        (b * c) % a == 0,
    ensures
        c % a == 0,
{
    if c == 0 {
        lemma_mod_of_multiple(0, a as int);
    } else {
        lemma_mod_of_multiple(c as int, a as int);
        lemma_gcd_greatest(a * c, b * c, a);
        lemma_gcd_scale(a, b, c);
    }
}

} // verus!
