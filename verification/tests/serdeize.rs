use rug::serdeize::{check_range, Data, PrecVal};

#[test]
fn serdeize_check_range() {
    assert_eq!(check_range("radix", 10, 2, 36), Ok(()));
    assert_eq!(check_range("radix", 2, 2, 36), Ok(()));
    assert_eq!(check_range("radix", 36, 2, 36), Ok(()));
    assert_eq!(
        check_range("radix", 1, 2, 36),
        Err(String::from("radix 1 less than minimum 2"))
    );
    assert_eq!(
        check_range("radix", 37, 2, 36),
        Err(String::from("radix 37 greater than maximum 36"))
    );
    assert_eq!(
        check_range("precision", -5, 1, 100),
        Err(String::from("precision -5 less than minimum 1"))
    );
}

#[test]
fn serdeize_radix_choice() {
    assert_eq!(Data::integer_radix(32), 10);
    assert_eq!(Data::integer_radix(33), 16);
    assert_eq!(Data::rational_radix(32, 32), 10);
    assert_eq!(Data::rational_radix(32, 33), 16);
    assert_eq!(Data::float_radix(53, true), 16);
    assert_eq!(Data::float_radix(53, false), 10);
    assert_eq!(Data::float_radix(24, true), 10);
    assert_eq!(Data::complex_radix((53, 24), (false, true)), 10);
    assert_eq!(Data::complex_radix((53, 24), (true, true)), 16);
}

#[test]
fn serdeize_checks() {
    let d = Data { prec: PrecVal::Zero, radix: 16, value: String::from("ff") };
    assert_eq!(d.check_no_prec(), Ok(()));
    let d = Data { prec: PrecVal::Zero, radix: 40, value: String::from("1") };
    assert_eq!(d.check_no_prec(), Err(String::from("radix 40 greater than maximum 36")));
    let d = Data { prec: PrecVal::One(0), radix: 40, value: String::from("1") };
    assert_eq!(d.check_one_prec(), Err(String::from("precision 0 less than minimum 1")));
    let d = Data { prec: PrecVal::One(53), radix: 1, value: String::from("1") };
    assert_eq!(d.check_one_prec(), Err(String::from("radix 1 less than minimum 2")));
    let d = Data { prec: PrecVal::One(53), radix: 10, value: String::from("1.5") };
    assert_eq!(d.check_one_prec(), Ok(()));
    let d = Data { prec: PrecVal::Two((53, 0)), radix: 10, value: String::from("(1 2)") };
    assert_eq!(
        d.check_two_prec(),
        Err(String::from("imaginary precision 0 less than minimum 1"))
    );
    let d = Data { prec: PrecVal::Two((0, 0)), radix: 10, value: String::from("(1 2)") };
    assert_eq!(d.check_two_prec(), Err(String::from("real precision 0 less than minimum 1")));
    let d = Data { prec: PrecVal::Two((53, 53)), radix: 10, value: String::from("(1 2)") };
    assert_eq!(d.check_two_prec(), Ok(()));
}
