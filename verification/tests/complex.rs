use rug::complex::MiniComplex;
use rug::float::MiniFloat;
use rug::Assign;

fn fl(x: f64) -> MiniFloat {
    MiniFloat::from_f64_bits(x.to_bits())
}

fn values(c: &MiniComplex) -> (Option<(bool, u128)>, Option<(bool, u128)>) {
    (c.real_part().to_integer(), c.imag_part().to_integer())
}

#[test]
fn complex_mini_check_assign() {
    let mut c = MiniComplex::from((fl(1.0), fl(2.0)));
    assert_eq!(values(&c), (Some((false, 1)), Some((false, 2))));
    c.assign(fl(3.0));
    assert_eq!(values(&c), (Some((false, 3)), Some((false, 0))));
    let other = MiniComplex::from((fl(4.0), fl(5.0)));
    c.assign(&other);
    assert_eq!(values(&c), (Some((false, 4)), Some((false, 5))));
    c.assign((fl(6.0), fl(7.0)));
    assert_eq!(values(&c), (Some((false, 6)), Some((false, 7))));
    c.assign(other);
    assert_eq!(values(&c), (Some((false, 4)), Some((false, 5))));
}

#[test]
fn mini_complex_swapped_parts_values() {
    let mut c = MiniComplex::from((1, 2));
    assert_eq!(values(&c), (Some((false, 1)), Some((false, 2))));
    assert_eq!(values(&c.clone()), values(&c));
    c.assign(12);
    assert_eq!(values(&c), (Some((false, 12)), Some((false, 0))));
    assert_eq!(c.imag_part().prec(), c.real_part().prec());
    c.assign((4, 5));
    assert_eq!(values(&c), (Some((false, 4)), Some((false, 5))));
    c.assign((-5i8, 4u128));
    assert_eq!(values(&c), (Some((true, 5)), Some((false, 4))));
    assert_eq!((c.real_part().prec(), c.imag_part().prec()), (8, 128));
    let d = MiniComplex::default();
    assert!(d.real_part().is_zero() && d.imag_part().is_zero());
}
