use rug::misc::{
    find_outside_brackets, find_space_outside_brackets, lcase, matched_brackets,
    skip_lcase_match, trim_end, trim_start, trunc_f64_bits_for_f32, NegAbs, StringLike,
};

#[test]
fn misc_lcase() {
    assert_eq!(lcase(b'A'), b'a');
    assert_eq!(lcase(b'Z'), b'z');
    assert_eq!(lcase(b'a'), b'a');
    assert_eq!(lcase(b'@'), b'@');
    assert_eq!(lcase(b'['), b'[');
}

#[test]
fn misc_trim() {
    assert_eq!(trim_start(b" \t\n\x0b\x0c\rab c "), b"ab c ");
    assert_eq!(trim_start(b"   "), b"");
    assert_eq!(trim_start(b""), b"");
    assert_eq!(trim_end(b" ab c \t\n\x0b\x0c\r"), b" ab c");
    assert_eq!(trim_end(b"\n\n"), b"");
    assert_eq!(trim_end(b"x"), b"x");
}

#[test]
fn misc_skip_lcase_match() {
    let patterns: &[&[u8]] = &[b"inf", b"infinity", b"nan"];
    assert_eq!(skip_lcase_match(b"INFinity", patterns), Some(&b"inity"[..]));
    assert_eq!(skip_lcase_match(b"NaN(x)", patterns), Some(&b"(x)"[..]));
    assert_eq!(skip_lcase_match(b"in", patterns), None);
    assert_eq!(skip_lcase_match(b"12", patterns), None);
    let upper: &[&[u8]] = &[b"NAN"];
    assert_eq!(skip_lcase_match(b"NAN", upper), None);
}

#[test]
fn misc_matched_brackets() {
    assert_eq!(matched_brackets(b"(a(b)c)d"), Some((&b"a(b)c"[..], &b"d"[..])));
    assert_eq!(matched_brackets(b"()"), Some((&b""[..], &b""[..])));
    assert_eq!(matched_brackets(b"(a(b)"), None);
    assert_eq!(matched_brackets(b"a(b)"), None);
    assert_eq!(matched_brackets(b""), None);
}

#[test]
fn misc_find_outside_brackets() {
    assert_eq!(find_outside_brackets(b"(1,2),3", b','), Some(5));
    assert_eq!(find_outside_brackets(b"(1,2)", b','), None);
    assert_eq!(find_outside_brackets(b"))x", b'x'), Some(2));
    assert_eq!(find_outside_brackets(b"a)", b')'), Some(1));
    assert_eq!(find_outside_brackets(b"(", b'('), None);
    assert_eq!(find_space_outside_brackets(b"(1 2) 3"), Some(5));
    assert_eq!(find_space_outside_brackets(b"(1 2)"), None);
    assert_eq!(find_space_outside_brackets(b"x\ty"), Some(1));
}

#[test]
fn misc_neg_abs() {
    assert_eq!((-5i8).neg_abs(), (true, 5u8));
    assert_eq!(i8::MIN.neg_abs(), (true, 128u8));
    assert_eq!(i128::MIN.neg_abs(), (true, 1u128 << 127));
    assert_eq!(7i64.neg_abs(), (false, 7u64));
    assert_eq!(0isize.neg_abs(), (false, 0usize));
    assert_eq!(9u16.neg_abs(), (false, 9u16));
}

#[test]
fn misc_string_like() {
    let mut s = StringLike::new_string();
    s.push_str("ab");
    s.push_str("ç1");
    assert_eq!(s.as_str(), "abç1");
    assert_eq!(s.unwrap_string(), String::from("abç1"));
    let mut m = StringLike::new_malloc();
    m.reserve(3);
    m.push_str("xyz");
    m.push_str("");
    m.push_str("w");
    assert_eq!(m.as_str(), "xyzw");
}

#[test]
fn misc_trunc_f64_bits_for_f32() {
    let one = 1.0f64.to_bits();
    assert_eq!(trunc_f64_bits_for_f32(one), one);
    let above_one = (1.0f64 + f64::EPSILON).to_bits();
    assert_eq!(trunc_f64_bits_for_f32(above_one), one);
    assert_eq!(trunc_f64_bits_for_f32(1e-50f64.to_bits()), 0);
    assert_eq!(trunc_f64_bits_for_f32((-1e-50f64).to_bits()), 0);
    let nan = f64::NAN.to_bits() | 1;
    assert_eq!(trunc_f64_bits_for_f32(nan), nan);
    let inf = f64::INFINITY.to_bits();
    assert_eq!(trunc_f64_bits_for_f32(inf), inf);
    // 2^-140 lies 14 binades below the smallest normal single: 29 + 14 low bits go.
    let sub = 2.0f64.powi(-140).to_bits() | 0xff_ffff_ffff;
    assert_eq!(trunc_f64_bits_for_f32(sub), sub & !((1u64 << 43) - 1));
}

#[test]
fn misc_string_like_malloc_capacity() {
    let mut m = StringLike::new_malloc();
    m.push_str("abc");
    m.reserve(10);
    m.push_str("de");
    assert_eq!(m.as_str(), "abcde");
}
