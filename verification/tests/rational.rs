use rug::rational::{MiniRational, StackRational};
use rug::Assign;

fn mini_parts(r: &MiniRational) -> ((bool, u128), (bool, u128)) {
    (r.numer().sign_magnitude(), r.denom().sign_magnitude())
}

fn stack_parts(r: &StackRational) -> ((bool, u128), (bool, u128)) {
    (r.numer().sign_magnitude(), r.denom().sign_magnitude())
}

#[test]
fn mini_check_assign() {
    let mut r = MiniRational::from((1, 2));
    assert_eq!(mini_parts(&r), mini_parts(&MiniRational::from((1, 2))));
    r.assign(3);
    assert_eq!(mini_parts(&r), ((false, 3), (false, 1)));
    let other = MiniRational::from((4, 5));
    r.assign(&other);
    assert_eq!(mini_parts(&r), mini_parts(&MiniRational::from((4, 5))));
    r.assign((6, 7));
    assert_eq!(mini_parts(&r), mini_parts(&MiniRational::from((6, 7))));
    r.assign(other);
    assert_eq!(mini_parts(&r), mini_parts(&MiniRational::from((4, 5))));
}

#[test]
fn mini_check_swapped_parts() {
    let mut r = MiniRational::from((2, 3));
    assert_eq!(mini_parts(&r), ((false, 2), (false, 3)));
    assert_eq!(mini_parts(&r.clone()), mini_parts(&r));
    r.assign_canonical(5, 7);
    assert_eq!(mini_parts(&r), mini_parts(&MiniRational::from((5, 7))));
    assert_eq!(mini_parts(&r.clone()), mini_parts(&r));
    r.assign(2);
    assert_eq!(mini_parts(&r), ((false, 2), (false, 1)));
    assert_eq!(mini_parts(&r.clone()), mini_parts(&r));
    r.assign((3, -5));
    assert_eq!(mini_parts(&r), mini_parts(&MiniRational::from((-3, 5))));
    assert_eq!(mini_parts(&r), ((true, 3), (false, 5)));
    assert_eq!(mini_parts(&r.clone()), mini_parts(&r));
}

#[test]
fn rational_stack_check_assign() {
    let mut r = StackRational::from((1, 2));
    assert_eq!(stack_parts(&r), stack_parts(&StackRational::from((1, 2))));
    r.assign(3);
    assert_eq!(stack_parts(&r), ((false, 3), (false, 1)));
    let other = StackRational::from((4, 5));
    r.assign(&other);
    assert_eq!(stack_parts(&r), stack_parts(&StackRational::from((4, 5))));
    r.assign((6, 7));
    assert_eq!(stack_parts(&r), stack_parts(&StackRational::from((6, 7))));
    r.assign(other);
    assert_eq!(stack_parts(&r), stack_parts(&StackRational::from((4, 5))));
}

#[test]
fn stack_check_swapped_parts() {
    let mut r = StackRational::from((2, 3));
    assert_eq!(stack_parts(&r), stack_parts(&StackRational::from((2, 3))));
    assert_eq!(stack_parts(&r.clone()), stack_parts(&r));
    r.assign_canonical(5, 7);
    assert_eq!(stack_parts(&r), stack_parts(&StackRational::from((5, 7))));
    assert_eq!(stack_parts(&r.clone()), stack_parts(&r));
    r.assign(2);
    assert_eq!(stack_parts(&r), ((false, 2), (false, 1)));
    assert_eq!(stack_parts(&r.clone()), stack_parts(&r));
    r.assign((3, -5));
    assert_eq!(stack_parts(&r), stack_parts(&StackRational::from((-3, 5))));
    assert_eq!(stack_parts(&r.clone()), stack_parts(&r));
}

#[test]
fn rational_canonical_form() {
    let r = MiniRational::from((-100, 21));
    assert_eq!(mini_parts(&r), ((true, 100), (false, 21)));
    let r = MiniRational::from((12u8, 18u8));
    assert_eq!(mini_parts(&r), ((false, 2), (false, 3)));
    let r = MiniRational::from((0, -7));
    assert_eq!(mini_parts(&r), ((false, 0), (false, 1)));
    let r = MiniRational::from((6i64, -4i64));
    assert_eq!(mini_parts(&r), ((true, 3), (false, 2)));
    let r = MiniRational::from((u128::MAX, u128::MAX));
    assert_eq!(mini_parts(&r), ((false, 1), (false, 1)));
    let r = MiniRational::from((i128::MIN, 2i8));
    assert_eq!(mini_parts(&r), ((true, 1u128 << 126), (false, 1)));
    let r = MiniRational::from((1u128 << 100, 1u128 << 70));
    assert_eq!(mini_parts(&r), ((false, 1u128 << 30), (false, 1)));
    let r = MiniRational::from((true, 3u8));
    assert_eq!(mini_parts(&r), ((false, 1), (false, 3)));
    let r = MiniRational::new();
    assert_eq!(mini_parts(&r), ((false, 0), (false, 1)));
    let r = StackRational::default();
    assert_eq!(stack_parts(&r), ((false, 0), (false, 1)));
}

#[test]
fn rational_equal_ratios_same_parts() {
    let a = MiniRational::from((-15i32, 47i32));
    let b = MiniRational::from((30i64, -94i64));
    let c = MiniRational::from((-45i16, 141u8));
    assert_eq!(mini_parts(&a), mini_parts(&b));
    assert_eq!(mini_parts(&a), mini_parts(&c));
}

#[test]
fn rational_from_canonical_keeps_parts() {
    let r = MiniRational::from_canonical(-5i32, 7u32);
    assert_eq!(mini_parts(&r), ((true, 5), (false, 7)));
    let r = StackRational::from_canonical(9u64, 10u64);
    assert_eq!(stack_parts(&r), ((false, 9), (false, 10)));
}
