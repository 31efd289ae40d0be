//! Facts about leading zeros and shifts, stated over powers of two.

use vstd::arithmetic::div_mod::lemma_fundamental_div_mod;
use vstd::arithmetic::power2::{
    lemma2_to64, lemma2_to64_rest, lemma_pow2_adds, lemma_pow2_pos, lemma_pow2_strictly_increases,
    pow2,
};
use vstd::bits::{lemma_u16_shr_is_div, lemma_u32_shr_is_div, lemma_u64_shr_is_div, lemma_u8_shr_is_div};
use vstd::prelude::*;
use vstd::std_specs::bits::{
    axiom_u16_leading_zeros, axiom_u32_leading_zeros, axiom_u64_leading_zeros,
    axiom_u8_leading_zeros, u16_leading_zeros, u32_leading_zeros, u64_leading_zeros,
    u8_leading_zeros,
};

verus! {

/// What the documentation of `u128::leading_zeros` states: the number of
/// leading zeros in the binary representation, so 128 for zero, and for any
/// other value the position of the highest set bit counted from the top.
pub assume_specification[ u128::leading_zeros ](x: u128) -> (r: u32)
    ensures
        x == 0 <==> r == 128,
        x != 0 ==> r < 128 && pow2((127 - r) as nat) <= x < pow2((128 - r) as nat),
;

/// 2^128.
pub proof fn lemma_pow2_128()
    ensures
        pow2(128) == 0x1_0000_0000_0000_0000_0000_0000_0000_0000nat,
        pow2(127) == 0x8000_0000_0000_0000_0000_0000_0000_0000nat,
        pow2(64) == 0x1_0000_0000_0000_0000nat,
        pow2(63) == 0x8000_0000_0000_0000nat,
{
    lemma2_to64();
    lemma2_to64_rest();
    lemma_pow2_adds(64, 64);
    lemma_pow2_adds(63, 64);
}

proof fn lemma_quotient_at_least_one(x: nat, k: nat)
    requires
        x / pow2(k) >= 1,
    ensures
        pow2(k) <= x,
{
    lemma_pow2_pos(k);
    lemma_fundamental_div_mod(x as int, pow2(k) as int);
    let q = x as int / pow2(k) as int;
    let r = x as int % pow2(k) as int;
    assert(pow2(k) <= x) by (nonlinear_arith)
        requires
            x == pow2(k) * q + r,
            q >= 1,
            r >= 0,
            pow2(k) > 0,
    ;
}

proof fn lemma_quotient_zero(x: nat, k: nat)
    requires
        x / pow2(k) == 0,
    ensures
        x < pow2(k),
{
    lemma_pow2_pos(k);
    lemma_fundamental_div_mod(x as int, pow2(k) as int);
    assert(x as int == x as int % pow2(k) as int);
}

/// A nonzero `u8` with `lz` leading zeros lies in `[2^(7 - lz), 2^(8 - lz))`.
pub proof fn lemma_u8_leading_zeros(x: u8)
    requires
        x != 0,
    ensures
        u8_leading_zeros(x) < 8,
        pow2((7 - u8_leading_zeros(x)) as nat) <= x < pow2((8 - u8_leading_zeros(x)) as nat),
{
    axiom_u8_leading_zeros(x);
    let lz = u8_leading_zeros(x);
    let k = (7 - lz) as u8;
    assert((x >> k) & 1u8 != 0u8 ==> (x >> k) >= 1u8) by (bit_vector);
    lemma_u8_shr_is_div(x, k);
    lemma_quotient_at_least_one(x as nat, k as nat);
    if lz == 0 {
        lemma2_to64();
    } else {
        lemma_u8_shr_is_div(x, (8 - lz) as u8);
        lemma_quotient_zero(x as nat, (8 - lz) as nat);
    }
}

/// A nonzero `u16` with `lz` leading zeros lies in `[2^(15 - lz), 2^(16 - lz))`.
pub proof fn lemma_u16_leading_zeros(x: u16)
    requires
        x != 0,
    ensures
        u16_leading_zeros(x) < 16,
        pow2((15 - u16_leading_zeros(x)) as nat) <= x < pow2((16 - u16_leading_zeros(x)) as nat),
{
    axiom_u16_leading_zeros(x);
    let lz = u16_leading_zeros(x);
    let k = (15 - lz) as u16;
    assert((x >> k) & 1u16 != 0u16 ==> (x >> k) >= 1u16) by (bit_vector);
    lemma_u16_shr_is_div(x, k);
    lemma_quotient_at_least_one(x as nat, k as nat);
    if lz == 0 {
        lemma2_to64();
    } else {
        lemma_u16_shr_is_div(x, (16 - lz) as u16);
        lemma_quotient_zero(x as nat, (16 - lz) as nat);
    }
}

/// A nonzero `u32` with `lz` leading zeros lies in `[2^(31 - lz), 2^(32 - lz))`.
pub proof fn lemma_u32_leading_zeros(x: u32)
    requires
        x != 0,
    ensures
        u32_leading_zeros(x) < 32,
        pow2((31 - u32_leading_zeros(x)) as nat) <= x < pow2((32 - u32_leading_zeros(x)) as nat),
{
    axiom_u32_leading_zeros(x);
    let lz = u32_leading_zeros(x);
    let k = (31 - lz) as u32;
    assert((x >> k) & 1u32 != 0u32 ==> (x >> k) >= 1u32) by (bit_vector);
    lemma_u32_shr_is_div(x, k);
    lemma_quotient_at_least_one(x as nat, k as nat);
    if lz == 0 {
        lemma2_to64();
    } else {
        lemma_u32_shr_is_div(x, (32 - lz) as u32);
        lemma_quotient_zero(x as nat, (32 - lz) as nat);
    }
}

/// A nonzero `u64` with `lz` leading zeros lies in `[2^(63 - lz), 2^(64 - lz))`.
pub proof fn lemma_u64_leading_zeros(x: u64)
    requires
        x != 0,
    ensures
        0 <= u64_leading_zeros(x) < 64,
        pow2((63 - u64_leading_zeros(x)) as nat) <= x < pow2((64 - u64_leading_zeros(x)) as nat),
{
    axiom_u64_leading_zeros(x);
    let lz = u64_leading_zeros(x);
    let k = (63 - lz) as u64;
    assert((x >> k) & 1u64 != 0u64 ==> (x >> k) >= 1u64) by (bit_vector);
    lemma_u64_shr_is_div(x, k);
    lemma_quotient_at_least_one(x as nat, k as nat);
    if lz == 0 {
        lemma2_to64();
    } else {
        lemma_u64_shr_is_div(x, (64 - lz) as u64);
        lemma_quotient_zero(x as nat, (64 - lz) as nat);
    }
}

/// Shifting a `u128` left multiplies it by a power of two when nothing is
/// shifted out.
pub proof fn lemma_u128_shl_is_mul(x: u128, k: u128)
    requires
        k < 128,
        x * pow2(k as nat) < pow2(128),
    ensures
        x << k == x * pow2(k as nat),
    decreases k,
{
    lemma_pow2_128();
    if k == 0 {
        lemma2_to64();
        assert(x << 0u128 == x) by (bit_vector);
        assert(x << k == x);
        assert(pow2(k as nat) == pow2(0));
        assert(x * pow2(k as nat) == x * 1);
    } else {
        let j = (k - 1) as u128;
        lemma_pow2_adds(j as nat, 1);
        lemma2_to64();
        assert(x * pow2(j as nat) * 2 == x * pow2(k as nat)) by (nonlinear_arith)
            requires
                pow2(k as nat) == pow2(j as nat) * 2,
        ;
        lemma_u128_shl_is_mul(x, j);
        let y = x << j;
        assert(y < 0x8000_0000_0000_0000_0000_0000_0000_0000u128);
        assert(x << k == (x << j) << 1u128) by (bit_vector)
            requires
                j < 127,
                k == j + 1,
        ;
        assert(y < 0x8000_0000_0000_0000_0000_0000_0000_0000u128 ==> (y << 1u128) == y * 2)
            by (bit_vector);
        assert(x << k == x * pow2(j as nat) * 2);
    }
}

/// A value of `width - lz` significant bits, shifted left so that its top bit
/// lands on bit 127, fills a 128-bit significand: it is at least 2^127, it
/// keeps the value once scaled by `2^(width - lz)`, and its lowest
/// `128 - width` bits are zero.
pub proof fn lemma_normalize(x: nat, width: nat, lz: nat)
    requires
        lz < width <= 128,
        pow2((width - lz - 1) as nat) <= x < pow2((width - lz) as nat),
    ensures
        x * pow2((lz + 128 - width) as nat) < pow2(128),
        x * pow2((lz + 128 - width) as nat) >= pow2(127),
        x * pow2((lz + 128 - width) as nat) * pow2((width - lz) as nat) == x * pow2(128),
        (x * pow2((lz + 128 - width) as nat)) % pow2((128 - width) as nat) == 0,
{
    let s = (lz + 128 - width) as nat;
    let e = (width - lz) as nat;
    let p = pow2(s);
    lemma_pow2_pos(s);
    lemma_pow2_adds(s, e);
    assert(s + e == 128);
    lemma_pow2_adds(s, (e - 1) as nat);
    assert(s + (e - 1) == 127);
    assert(x * p < pow2(e) * p) by (nonlinear_arith)
        requires
            x < pow2(e),
            p > 0,
    ;
    assert(x * p >= pow2((e - 1) as nat) * p) by (nonlinear_arith)
        requires
            x >= pow2((e - 1) as nat),
            p > 0,
    ;
    assert(x * p * pow2(e) == x * (p * pow2(e))) by (nonlinear_arith);
    lemma_pow2_adds(lz, (128 - width) as nat);
    let q = pow2((128 - width) as nat);
    lemma_pow2_pos((128 - width) as nat);
    assert(x * p == (x * pow2(lz)) * q) by (nonlinear_arith)
        requires
            p == pow2(lz) * q,
    ;
    vstd::arithmetic::div_mod::lemma_mod_multiples_basic((x * pow2(lz)) as int, q as int);
}

} // verus!
