//! The plain data that numbers are serialized as, and its checks.

use vstd::prelude::*;

verus! {

/// The character of a decimal digit.
pub open spec fn digit_char(d: nat) -> char {
    (48 + d) as char
}

/// The decimal digits of a natural number, most significant first.
pub open spec fn decimal_digits(n: nat) -> Seq<char>
    decreases n,
{
    if n < 10 {
        seq![digit_char(n)]
    } else {
        decimal_digits(n / 10).push(digit_char(n % 10))
    }
}

/// The decimal form of an integer, as `Display` writes it.
pub open spec fn decimal(v: int) -> Seq<char> {
    if v < 0 {
        seq!['-'] + decimal_digits((-v) as nat)
    } else {
        decimal_digits(v as nat)
    }
}

/// The message for a value below its minimum.
pub open spec fn below_minimum_text(name: Seq<char>, val: int, min: int) -> Seq<char> {
    name + seq![' '] + decimal(val) + " less than minimum "@ + decimal(min)
}

/// The message for a value above its maximum.
pub open spec fn above_maximum_text(name: Seq<char>, val: int, max: int) -> Seq<char> {
    name + seq![' '] + decimal(val) + " greater than maximum "@ + decimal(max)
}

/// `r` is an error whose message is `text`.
pub open spec fn fails_with(r: Result<(), String>, text: Seq<char>) -> bool {
    r matches Err(m) && m@ == text
}

/// `format!("{name} {val} less than minimum {min}")`.
#[verifier::external_body]
fn below_minimum_message(name: &str, val: i64, min: i64) -> (r: String)
    ensures
        r@ == below_minimum_text(name@, val as int, min as int),
{
    format!("{name} {val} less than minimum {min}")
}

/// `format!("{name} {val} greater than maximum {max}")`.
#[verifier::external_body]
fn above_maximum_message(name: &str, val: i64, max: i64) -> (r: String)
    ensures
        r@ == above_maximum_text(name@, val as int, max as int),
{
    format!("{name} {val} greater than maximum {max}")
}

/// Checks that `val` lies in `[min, max]`; the error names the value and
/// the bound that it passes.
pub fn check_range(name: &str, val: i64, min: i64, max: i64) -> (r: Result<(), String>)
    ensures
        val < min ==> fails_with(r, below_minimum_text(name@, val as int, min as int)),
        min <= val && max < val ==> fails_with(r, above_maximum_text(name@, val as int, max as int)),
        min <= val <= max ==> r is Ok,
{
    if val < min {
        Err(below_minimum_message(name, val, min))
    } else if val > max {
        Err(above_maximum_message(name, val, max))
    } else {
        Ok(())
    }
}

/// The minimum precision of a float, `1`.
pub const PREC_MIN: u32 = 1;

/// The maximum precision of a float that a `u32` holds: MPFR allows more
/// than `u32::MAX`.
pub const PREC_MAX: u32 = 0xffff_ffff;

/// Which precision a kind of number carries: none, one, or one per part.
pub enum PrecReq {
    Zero,
    One,
    Two,
}

/// The precision that serialized data carries.
pub enum PrecVal {
    /// Integers and rationals have no precision.
    Zero,
    /// The precision of a float.
    One(u32),
    /// The precisions of the real and the imaginary part of a complex number.
    Two((u32, u32)),
}

/// A number serialized as its precision, the radix of its digits and the
/// digits themselves.
pub struct Data {
    pub prec: PrecVal,
    pub radix: i32,
    pub value: String,
}

/// The outcome of checking that a radix lies in `[2, 36]`.
pub open spec fn check_radix_result(r: Result<(), String>, radix: i32) -> bool {
    &&& radix < 2 ==> fails_with(r, below_minimum_text("radix"@, radix as int, 2))
    &&& 36 < radix ==> fails_with(r, above_maximum_text("radix"@, radix as int, 36))
    &&& 2 <= radix <= 36 ==> r is Ok
}

/// The outcome of checking a precision, when it is below the minimum: the
/// maximum is `u32::MAX`, which no `u32` passes.
pub open spec fn check_prec_result(r: Result<(), String>, name: Seq<char>, prec: u32) -> bool {
    prec < PREC_MIN ==> fails_with(r, below_minimum_text(name, prec as int, PREC_MIN as int))
}

/// The radix that small numbers are written in.
pub open spec fn radix_for(small: bool) -> i32 {
    if small {
        10
    } else {
        16
    }
}

impl Data {
    /// The radix for an integer of `significant_bits` bits: decimal up to 32
    /// bits, else hexadecimal.
    pub fn integer_radix(significant_bits: u32) -> (r: i32)
        ensures
            r == radix_for(significant_bits <= 32),
    {
        if significant_bits <= 32 {
            10
        } else {
            16
        }
    }

    /// The radix for a rational: decimal when both numerator and denominator
    /// have at most 32 significant bits, else hexadecimal.
    pub fn rational_radix(numer_bits: u32, denom_bits: u32) -> (r: i32)
        ensures
            r == radix_for(numer_bits <= 32 && denom_bits <= 32),
    {
        if numer_bits <= 32 && denom_bits <= 32 {
            10
        } else {
            16
        }
    }

    /// The radix for a float: decimal when the precision is at most 32 or the
    /// number is not normal, else hexadecimal.
    pub fn float_radix(prec: u32, is_normal: bool) -> (r: i32)
        ensures
            r == radix_for(prec <= 32 || !is_normal),
    {
        if prec <= 32 || !is_normal {
            10
        } else {
            16
        }
    }

    /// The radix for a complex number: decimal when each part has a
    /// precision of at most 32 or is not normal, else hexadecimal.
    pub fn complex_radix(prec: (u32, u32), normal: (bool, bool)) -> (r: i32)
        ensures
            r == radix_for((prec.0 <= 32 || !normal.0) && (prec.1 <= 32 || !normal.1)),
    {
        if (prec.0 <= 32 || !normal.0) && (prec.1 <= 32 || !normal.1) {
            10
        } else {
            16
        }
    }

    /// Checks the data of an integer or a rational before its digits are
    /// parsed: the radix lies in `[2, 36]`.
    pub fn check_no_prec(&self) -> (r: Result<(), String>)
        requires
            self.prec is Zero,
        ensures
            check_radix_result(r, self.radix),
    {
        check_range("radix", self.radix as i64, 2, 36)
    }

    /// Checks the data of a float before its digits are parsed: the
    /// precision lies in `[PREC_MIN, PREC_MAX]`, then the radix in `[2, 36]`.
    pub fn check_one_prec(&self) -> (r: Result<(), String>)
        requires
            self.prec is One,
        ensures
            check_prec_result(r, "precision"@, self.prec->One_0) && (PREC_MIN <= self.prec->One_0 ==> check_radix_result(r, self.radix)),
    {
        let prec = match &self.prec {
            PrecVal::One(p) => *p,
            _ => 0,
        };
        let checked = check_range("precision", prec as i64, PREC_MIN as i64, PREC_MAX as i64);
        if checked.is_err() {
            return checked;
        }
        check_range("radix", self.radix as i64, 2, 36)
    }

    /// Checks the data of a complex number before its digits are parsed: the
    /// real precision, then the imaginary precision lie in
    /// `[PREC_MIN, PREC_MAX]`, then the radix in `[2, 36]`.
    pub fn check_two_prec(&self) -> (r: Result<(), String>)
        requires
            self.prec is Two,
        ensures
            ({
                let (re, im) = self.prec->Two_0;
                &&& check_prec_result(r, "real precision"@, re)
                &&& PREC_MIN <= re ==> check_prec_result(r, "imaginary precision"@, im)
                &&& PREC_MIN <= re && PREC_MIN <= im ==> check_radix_result(r, self.radix)
            }),
    {
        let prec = match &self.prec {
            PrecVal::Two(p) => *p,
            _ => (0, 0),
        };
        let checked = check_range("real precision", prec.0 as i64, PREC_MIN as i64, PREC_MAX as i64);
        if checked.is_err() {
            return checked;
        }
        let checked = check_range("imaginary precision", prec.1 as i64, PREC_MIN as i64, PREC_MAX as i64);
        if checked.is_err() {
            return checked;
        }
        check_range("radix", self.radix as i64, 2, 36)
    }
}

} // verus!
