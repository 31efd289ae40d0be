use rug::float::{MiniFloat, Special};
use rug::Assign;

fn f32_mini(x: f32) -> MiniFloat {
    MiniFloat::from_f32_bits(x.to_bits())
}

fn f64_mini(x: f64) -> MiniFloat {
    MiniFloat::from_f64_bits(x.to_bits())
}

#[test]
fn float_mini_check_assign() {
    let mut f = MiniFloat::from(f32_mini(-1.0f32));
    assert_eq!(f.to_integer(), Some((true, 1)));
    f.assign(f64_mini(-2.0f64));
    assert_eq!(f.to_integer(), Some((true, 2)));
    let other = MiniFloat::from(4u8);
    f.assign(&other);
    assert_eq!(f.to_integer(), Some((false, 4)));
    f.assign(5i8);
    assert_eq!(f.to_integer(), Some((false, 5)));
    f.assign(other);
    assert_eq!(f.to_integer(), Some((false, 4)));
    f.assign(6u16);
    assert_eq!(f.to_integer(), Some((false, 6)));
    f.assign(-6i16);
    assert_eq!(f.to_integer(), Some((true, 6)));
    f.assign(6u32);
    assert_eq!(f.to_integer(), Some((false, 6)));
    f.assign(-6i32);
    assert_eq!(f.to_integer(), Some((true, 6)));
    f.assign(6u64);
    assert_eq!(f.to_integer(), Some((false, 6)));
    f.assign(-6i64);
    assert_eq!(f.to_integer(), Some((true, 6)));
    f.assign(6u128);
    assert_eq!(f.to_integer(), Some((false, 6)));
    f.assign(-6i128);
    assert_eq!(f.to_integer(), Some((true, 6)));
    f.assign(6usize);
    assert_eq!(f.to_integer(), Some((false, 6)));
    f.assign(-6isize);
    assert_eq!(f.to_integer(), Some((true, 6)));
    f.assign(0u32);
    assert_eq!(f.to_integer(), Some((false, 0)));
    assert!(f.is_zero());
    f.assign(Special::Infinity);
    assert!(f.is_infinite() && f.is_sign_positive());
    f.assign(Special::NegZero);
    assert!(f.is_zero() && f.is_sign_negative());
    f.assign(Special::NegInfinity);
    assert!(f.is_infinite() && f.is_sign_negative());
    f.assign(Special::Zero);
    assert!(f.is_zero() && f.is_sign_positive());
    f.assign(Special::Nan);
    assert!(f.is_nan() && f.is_sign_positive());
}

#[test]
fn float_precision_follows_type() {
    assert_eq!(MiniFloat::from(3u8).prec(), 8);
    assert_eq!(MiniFloat::from(-3i16).prec(), 16);
    assert_eq!(MiniFloat::from(3u32).prec(), 32);
    assert_eq!(MiniFloat::from(3i64).prec(), 64);
    assert_eq!(MiniFloat::from(3u128).prec(), 128);
    assert_eq!(MiniFloat::from(3usize).prec(), usize::BITS as i64);
    assert_eq!(MiniFloat::from(-3isize).prec(), isize::BITS as i64);
    assert_eq!(f32_mini(3.5).prec(), 24);
    assert_eq!(f64_mini(3.5).prec(), 53);
    assert_eq!(MiniFloat::from(Special::Nan).prec(), 1);
    assert_eq!(MiniFloat::new().prec(), 1);
    assert!(MiniFloat::default().is_zero());
}

#[test]
fn float_normalized_layout() {
    let f = MiniFloat::from(6u8);
    assert_eq!(f.raw().exp, 3);
    assert_eq!(f.raw().sign, 1);
    assert_eq!(f.limbs()[0], 0xc000_0000_0000_0000);
    let f = MiniFloat::from(-1i64);
    assert_eq!((f.raw().exp, f.raw().sign), (1, -1));
    assert_eq!(f.limbs()[0], 1u64 << 63);
    let f = MiniFloat::from(u128::MAX);
    assert_eq!(f.raw().exp, 128);
    assert_eq!(f.limbs(), [u64::MAX, u64::MAX]);
    let f = MiniFloat::from(1u128 << 64 | 1);
    assert_eq!(f.raw().exp, 65);
    assert_eq!(f.limbs(), [1u64 << 63, 1u64 << 63]);
}

#[test]
fn float_unshifted_reads_top_bits() {
    let f = MiniFloat::from(6u8);
    assert_eq!(rug::float::unchecked_get_unshifted_u8(&f), 0xc0);
    let f = MiniFloat::from(0x1234u16);
    assert_eq!(rug::float::unchecked_get_unshifted_u16(&f), 0x1234 << 3);
    let f = MiniFloat::from(0x8000_0001u32);
    assert_eq!(rug::float::unchecked_get_unshifted_u32(&f), 0x8000_0001);
    let f = MiniFloat::from(5u64);
    assert_eq!(rug::float::unchecked_get_unshifted_u64(&f), 5u64 << 61);
    let f = MiniFloat::from(3u128 << 100);
    assert_eq!(rug::float::unchecked_get_unshifted_u128(&f), 3u128 << 126);
}

#[test]
fn float_from_bits_values() {
    assert_eq!(f64_mini(0.0).to_integer(), Some((false, 0)));
    let z = f64_mini(-0.0);
    assert!(z.is_zero() && z.is_sign_negative());
    assert!(f64_mini(f64::INFINITY).is_infinite());
    assert!(f64_mini(f64::NEG_INFINITY).is_sign_negative());
    assert!(f64_mini(f64::NAN).is_nan());
    assert!(f32_mini(-f32::NAN).is_nan() && f32_mini(-f32::NAN).is_sign_negative());
    assert_eq!(f64_mini(1e15).to_integer(), Some((false, 1_000_000_000_000_000)));
    assert_eq!(f64_mini(0.5).to_integer(), None);
    assert_eq!(f64_mini(0.5).raw().exp, 0);
    assert_eq!(f64_mini(0.5).limbs()[0], 1u64 << 63);
    let tiny = f64_mini(f64::from_bits(1));
    assert_eq!(tiny.raw().exp, -1073);
    assert_eq!(tiny.limbs()[0], 1u64 << 63);
    let tiny32 = f32_mini(f32::from_bits(1));
    assert_eq!(tiny32.raw().exp, -148);
    assert_eq!(f32_mini(-1.5).limbs()[0], 3u64 << 62);
    assert_eq!(f32_mini(-1.5).raw().exp, 1);
}
