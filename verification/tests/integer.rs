use rug::integer::StackInteger;
use rug::Assign;

#[test]
fn stack_check_assign() {
    let mut i = StackInteger::from(-1i32);
    assert_eq!(i.sign_magnitude(), (true, 1));
    let other = StackInteger::from(2i32);
    i.assign(&other);
    assert_eq!(i.sign_magnitude(), (false, 2));
    i.assign(6u8);
    assert_eq!(i.sign_magnitude(), (false, 6));
    i.assign(-6i8);
    assert_eq!(i.sign_magnitude(), (true, 6));
    i.assign(other);
    assert_eq!(i.sign_magnitude(), (false, 2));
    i.assign(6u16);
    assert_eq!(i.sign_magnitude(), (false, 6));
    i.assign(-6i16);
    assert_eq!(i.sign_magnitude(), (true, 6));
    i.assign(6u32);
    assert_eq!(i.sign_magnitude(), (false, 6));
    i.assign(-6i32);
    assert_eq!(i.sign_magnitude(), (true, 6));
    i.assign(0xf_0000_0006u64);
    assert_eq!(i.sign_magnitude(), (false, 0xf_0000_0006u128));
    i.assign(-0xf_0000_0006i64);
    assert_eq!(i.sign_magnitude(), (true, 0xf_0000_0006u128));
    i.assign(6u128 << 64 | 7u128);
    assert_eq!(i.sign_magnitude(), (false, 6u128 << 64 | 7u128));
    i.assign(-6i128 << 64 | 7i128);
    assert_eq!(i.sign_magnitude(), (true, (-(-6i128 << 64 | 7i128)) as u128));
    i.assign(6usize);
    assert_eq!(i.sign_magnitude(), (false, 6));
    i.assign(-6isize);
    assert_eq!(i.sign_magnitude(), (true, 6));
    i.assign(0u32);
    assert_eq!(i.sign_magnitude(), (false, 0));
}

#[test]
fn stack_integer_limb_layout() {
    let i = StackInteger::new();
    assert_eq!(i.size(), 0);
    let i = StackInteger::from(true);
    assert_eq!((i.size(), i.limbs()[0]), (1, 1));
    let i = StackInteger::from(false);
    assert_eq!(i.size(), 0);
    let i = StackInteger::from(u64::MAX);
    assert_eq!((i.size(), i.limbs()), (1, [u64::MAX, 0]));
    let i = StackInteger::from(u128::MAX);
    assert_eq!((i.size(), i.limbs()), (2, [u64::MAX, u64::MAX]));
    let i = StackInteger::from(1u128 << 64);
    assert_eq!((i.size(), i.limbs()), (2, [0, 1]));
    let i = StackInteger::from(i128::MIN);
    assert_eq!((i.size(), i.limbs()), (-2, [0, 1u64 << 63]));
    assert_eq!(i.sign_magnitude(), (true, 1u128 << 127));
    let i = StackInteger::from(i8::MIN);
    assert_eq!((i.size(), i.limbs()[0]), (-1, 128));
    let i = StackInteger::from(-1i64);
    assert_eq!((i.size(), i.limbs()[0]), (-1, 1));
}

#[test]
fn stack_integer_clone_and_default() {
    let i = StackInteger::from(-77i16);
    let j = i.clone();
    assert_eq!(j.sign_magnitude(), (true, 77));
    let d = StackInteger::default();
    assert_eq!(d.sign_magnitude(), (false, 0));
}
