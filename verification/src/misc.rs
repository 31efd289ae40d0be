//! Byte-string helpers used when parsing numbers.

use az::WrappingCast;
use vstd::multiset::Multiset;
use vstd::prelude::*;
use vstd::string::StringExecFns;
use vstd::utf8::encode_utf8;

verus! {

/// The ASCII white-space bytes: space, tab, newline, vertical tab, form feed
/// and carriage return.
pub open spec fn is_space(b: u8) -> bool {
    b == 0x20u8 || b == 0x09u8 || b == 0x0au8 || b == 0x0bu8 || b == 0x0cu8 || b == 0x0du8
}

/// ASCII lower-casing of one byte.
pub open spec fn lcase_spec(b: u8) -> u8 {
    if 0x41u8 <= b && b <= 0x5au8 {
        (b + 0x20) as u8
    } else {
        b
    }
}

/// The white-space bytes are the space and the five control bytes from tab
/// to carriage return; no other byte counts as white space.
pub proof fn lemma_white_space_bytes(b: u8)
    ensures
        is_space(b) <==> (b == 0x20u8 || (0x09u8 <= b && b <= 0x0du8)),
{
}

/// Lower-casing changes upper-case letters only, moving each by 0x20 to its
/// lower-case letter, and never leaves an upper-case letter behind.
pub proof fn lemma_lcase_byte(b: u8)
    ensures
        !(0x41u8 <= lcase_spec(b) && lcase_spec(b) <= 0x5au8),
        lcase_spec(b) != b ==> 0x41u8 <= b && b <= 0x5au8 && lcase_spec(b) == b + 0x20,
        0x61u8 <= b && b <= 0x7au8 ==> lcase_spec((b - 0x20) as u8) == b,
{
}

fn is_space_byte(b: u8) -> (r: bool)
    ensures
        r == is_space(b),
{
    b == 0x20 || b == 0x09 || b == 0x0a || b == 0x0b || b == 0x0c || b == 0x0d
}

/// Converts an upper-case ASCII letter to lower case; other bytes are kept.
pub fn lcase(byte: u8) -> (r: u8)
    ensures
        r == lcase_spec(byte),
        !(0x41u8 <= r && r <= 0x5au8),
        0x41u8 <= byte && byte <= 0x5au8 ==> r == byte + 0x20,
        !(0x41u8 <= byte && byte <= 0x5au8) ==> r == byte,
{
    if 0x41 <= byte && byte <= 0x5a {
        byte - 0x41 + 0x61
    } else {
        byte
    }
}

/// Removes the leading white space.
pub fn trim_start(bytes: &[u8]) -> (r: &[u8])
    ensures
        r@.len() <= bytes@.len(),
        r@ == bytes@.subrange(bytes@.len() - r@.len(), bytes@.len() as int),
        forall|j: int| 0 <= j < bytes@.len() - r@.len() ==> is_space(#[trigger] bytes@[j]),
        r@.len() > 0 ==> !is_space(r@[0]),
        forall|j: int|
            0 <= j < bytes@.len() - r@.len() ==> #[trigger] bytes@[j] == 0x20u8 || (0x09u8
                <= bytes@[j] && bytes@[j] <= 0x0du8),
        r@.len() > 0 ==> !(r@[0] == 0x20u8 || (0x09u8 <= r@[0] && r@[0] <= 0x0du8)),
{
    let mut start: usize = 0;
    while start < bytes.len()
        invariant
            start <= bytes@.len(),
            forall|j: int| 0 <= j < start ==> is_space(#[trigger] bytes@[j]),
        decreases bytes@.len() - start,
    {
        if !is_space_byte(bytes[start]) {
            return &bytes[start..bytes.len()];
        }
        start = start + 1;
    }
    &bytes[bytes.len()..bytes.len()]
}

/// Removes the trailing white space.
pub fn trim_end(bytes: &[u8]) -> (r: &[u8])
    ensures
        r@.len() <= bytes@.len(),
        r@ == bytes@.subrange(0, r@.len() as int),
        forall|j: int| r@.len() <= j < bytes@.len() ==> is_space(#[trigger] bytes@[j]),
        r@.len() > 0 ==> !is_space(r@[r@.len() - 1]),
        forall|j: int|
            r@.len() <= j < bytes@.len() ==> #[trigger] bytes@[j] == 0x20u8 || (0x09u8
                <= bytes@[j] && bytes@[j] <= 0x0du8),
        r@.len() > 0 ==> !(r@[r@.len() - 1] == 0x20u8 || (0x09u8 <= r@[r@.len() - 1]
            && r@[r@.len() - 1] <= 0x0du8)),
{
    let mut end: usize = bytes.len();
    while end > 0
        invariant
            end <= bytes@.len(),
            forall|j: int| end <= j < bytes@.len() ==> is_space(#[trigger] bytes@[j]),
        decreases end,
    {
        if !is_space_byte(bytes[end - 1]) {
            return &bytes[0..end];
        }
        end = end - 1;
    }
    &bytes[0..0]
}

/// Whether `bytes`, lower-cased, starts with `pattern`.
pub open spec fn lcase_prefix(bytes: Seq<u8>, pattern: Seq<u8>) -> bool {
    &&& pattern.len() <= bytes.len()
    &&& forall|j: int| 0 <= j < pattern.len() ==> lcase_spec(#[trigger] bytes[j]) == pattern[j]
}

/// A pattern without upper-case letters matches, lower-cased, exactly the
/// byte strings that agree with it up to the case of its letters: each byte
/// is the pattern's byte, or the upper-case form of the pattern's letter.
pub proof fn lemma_lcase_prefix_ignores_case(bytes: Seq<u8>, pattern: Seq<u8>)
    requires
        forall|i: int| 0 <= i < pattern.len() ==> !(0x41u8 <= #[trigger] pattern[i] && pattern[i] <= 0x5au8),
    ensures
        lcase_prefix(bytes, pattern) <==> (pattern.len() <= bytes.len() && forall|i: int|
            0 <= i < pattern.len() ==> #[trigger] bytes[i] == pattern[i] || (0x61u8 <= pattern[i]
                && pattern[i] <= 0x7au8 && bytes[i] + 0x20 == pattern[i])),
{
    if pattern.len() <= bytes.len() {
        assert forall|i: int| 0 <= i < pattern.len() implies (lcase_spec(#[trigger] bytes[i]) == pattern[i]
            <==> (bytes[i] == pattern[i] || (0x61u8 <= pattern[i] && pattern[i] <= 0x7au8 && bytes[i]
            + 0x20 == pattern[i]))) by {
            lemma_lcase_byte(bytes[i]);
        }
    }
}

/// What remains of `bytes` after the first of `patterns[i..]` that it starts
/// with (bytes lower-cased), if any does.
pub open spec fn skip_first_match(bytes: Seq<u8>, patterns: Seq<Seq<u8>>, i: int) -> Option<Seq<u8>>
    decreases patterns.len() - i,
{
    if i < 0 || i >= patterns.len() {
        None
    } else if lcase_prefix(bytes, patterns[i]) {
        Some(bytes.subrange(patterns[i].len() as int, bytes.len() as int))
    } else {
        skip_first_match(bytes, patterns, i + 1)
    }
}

/// The skip takes the first pattern in the list that `bytes` starts with,
/// lower-cased: `Some` exactly when some pattern at or after `i` matches,
/// and then what follows the match of the least such pattern.
pub proof fn lemma_skip_first_match_is_first(bytes: Seq<u8>, patterns: Seq<Seq<u8>>, i: int)
    requires
        0 <= i,
    ensures
        skip_first_match(bytes, patterns, i) is None <==> forall|k: int|
            i <= k < patterns.len() ==> !lcase_prefix(bytes, #[trigger] patterns[k]),
        skip_first_match(bytes, patterns, i) is Some ==> exists|k: int|
            i <= k < patterns.len() && lcase_prefix(bytes, #[trigger] patterns[k]) && (forall|m: int|
                i <= m < k ==> !lcase_prefix(bytes, #[trigger] patterns[m])) && skip_first_match(
                bytes,
                patterns,
                i,
            ) == Some(bytes.subrange(patterns[k].len() as int, bytes.len() as int)),
    decreases patterns.len() - i,
{
    if i < patterns.len() {
        lemma_skip_first_match_is_first(bytes, patterns, i + 1);
        if !lcase_prefix(bytes, patterns[i]) && skip_first_match(bytes, patterns, i + 1) is Some {
            let k = choose|k: int|
                i + 1 <= k < patterns.len() && lcase_prefix(bytes, #[trigger] patterns[k]) && (forall|
                    m: int,
                | i + 1 <= m < k ==> !lcase_prefix(bytes, #[trigger] patterns[m]))
                    && skip_first_match(bytes, patterns, i + 1) == Some(
                    bytes.subrange(patterns[k].len() as int, bytes.len() as int),
                );
            assert forall|m: int| i <= m < k implies !lcase_prefix(bytes, #[trigger] patterns[m]) by {
                if m > i {
                }
            }
        }
        if !lcase_prefix(bytes, patterns[i]) && skip_first_match(bytes, patterns, i + 1) is None {
            assert forall|k: int| i <= k < patterns.len() implies !lcase_prefix(
                bytes,
                #[trigger] patterns[k],
            ) by {
                if k > i {
                }
            }
        }
    }
}

/// The views of a slice of byte slices.
pub open spec fn views_of(patterns: Seq<&[u8]>) -> Seq<Seq<u8>> {
    patterns.map_values(|p: &[u8]| p@)
}

/// If `bytes` starts with one of `patterns`, returns `bytes` with the first
/// such match skipped. Only `bytes` is converted to lower case.
pub fn skip_lcase_match<'a>(bytes: &'a [u8], patterns: &[&[u8]]) -> (r: Option<&'a [u8]>)
    ensures
        match (r, skip_first_match(bytes@, views_of(patterns@), 0)) {
            (None, None) => true,
            (Some(rest), Some(expected)) => rest@ == expected,
            _ => false,
        },
{
    let ghost pats = views_of(patterns@);
    let mut k: usize = 0;
    while k < patterns.len()
        invariant
            k <= patterns@.len(),
            pats == views_of(patterns@),
            skip_first_match(bytes@, pats, 0) == skip_first_match(bytes@, pats, k as int),
        decreases patterns@.len() - k,
    {
        let pattern = patterns[k];
        assert(pats[k as int] == pattern@);
        if bytes.len() >= pattern.len() {
            let mut j: usize = 0;
            let mut all_match = true;
            while j < pattern.len()
                invariant
                    j <= pattern@.len(),
                    pattern@.len() <= bytes@.len(),
                    all_match ==> forall|m: int|
                        0 <= m < j ==> lcase_spec(#[trigger] bytes@[m]) == pattern@[m],
                    !all_match ==> !lcase_prefix(bytes@, pattern@),
                decreases pattern@.len() - j,
            {
                if all_match && lcase(bytes[j]) != pattern[j] {
                    all_match = false;
                }
                j = j + 1;
            }
            if all_match {
                return Some(&bytes[pattern.len()..bytes.len()]);
            }
        }
        k = k + 1;
    }
    None
}

/// The change of bracket depth that a byte makes.
pub open spec fn bracket_delta(b: u8) -> int {
    if b == 0x28u8 {
        1
    } else if b == 0x29u8 {
        -1
    } else {
        0
    }
}

/// The number of opening brackets in `s` minus the number of closing ones.
pub open spec fn bracket_depth(s: Seq<u8>) -> int
    decreases s.len(),
{
    if s.len() == 0 {
        0
    } else {
        bracket_depth(s.drop_last()) + bracket_delta(s.last())
    }
}

/// The bracket depth of a byte string is the number of opening brackets in
/// it minus the number of closing ones: no other byte changes it.
pub proof fn lemma_bracket_depth_counts(s: Seq<u8>)
    ensures
        bracket_depth(s) == s.to_multiset().count(0x28u8) - s.to_multiset().count(0x29u8),
    decreases s.len(),
{
    broadcast use vstd::seq_lib::group_to_multiset_ensures;
    broadcast use vstd::multiset::group_multiset_axioms;

    if s.len() == 0 {
        assert(s.to_multiset().len() == 0);
        assert(s.to_multiset() =~= Multiset::empty());
    } else {
        let t = s.drop_last();
        lemma_bracket_depth_counts(t);
        assert(s =~= t.push(s.last()));
        assert(s.to_multiset() =~= t.to_multiset().insert(s.last()));
    }
}

proof fn lemma_bracket_depth_step(s: Seq<u8>, i: int)
    requires
        0 <= i < s.len(),
    ensures
        bracket_depth(s.take(i + 1)) == bracket_depth(s.take(i)) + bracket_delta(s[i]),
{
    assert(s.take(i + 1).drop_last() =~= s.take(i));
}

/// If `bytes` starts with an opening bracket that has a matching closing
/// bracket, returns what stands between the two and what follows the closing
/// one.
pub fn matched_brackets(bytes: &[u8]) -> (r: Option<(&[u8], &[u8])>)
    ensures
        r is Some <==> (bytes@.len() > 0 && bytes@[0] == 0x28u8 && exists|i: int|
            1 <= i < bytes@.len() && #[trigger] bracket_depth(bytes@.take(i + 1)) == 0),
        r matches Some((inner, rest)) ==> {
            let close = inner@.len() + 1int;
            &&& close < bytes@.len()
            &&& bracket_depth(bytes@.take(close + 1)) == 0
            &&& forall|j: int| 1 <= j < close ==> #[trigger] bracket_depth(bytes@.take(j + 1)) > 0
            &&& inner@ == bytes@.subrange(1, close)
            &&& rest@ == bytes@.subrange(close + 1, bytes@.len() as int)
            &&& bytes@[close] == 0x29u8
        },
{
    if bytes.len() == 0 || bytes[0] != 0x28 {
        return None;
    }
    proof {
        lemma_bracket_depth_step(bytes@, 0);
        assert(bytes@.take(0) =~= Seq::<u8>::empty());
    }
    let mut level: usize = 1;
    let mut i: usize = 1;
    while i < bytes.len()
        invariant
            1 <= i <= bytes@.len(),
            bytes@[0] == 0x28u8,
            level as int == bracket_depth(bytes@.take(i as int)),
            level > 0,
            level <= i,
            forall|j: int| 1 <= j < i ==> #[trigger] bracket_depth(bytes@.take(j + 1)) > 0,
        decreases bytes@.len() - i,
    {
        proof {
            lemma_bracket_depth_step(bytes@, i as int);
        }
        let b = bytes[i];
        if b == 0x28 {
            level = level + 1;
        } else if b == 0x29 {
            level = level - 1;
            if level == 0 {
                return Some((&bytes[1..i], &bytes[i + 1..bytes.len()]));
            }
        }
        i = i + 1;
    }
    None
}

/// The bracket depth that the scans outside brackets keep: a closing bracket
/// at depth zero leaves the depth at zero.
pub open spec fn clamped_depth(s: Seq<u8>) -> nat
    decreases s.len(),
{
    if s.len() == 0 {
        0
    } else {
        let d = clamped_depth(s.drop_last());
        let b = s.last();
        if b == 0x28u8 {
            d + 1
        } else if b == 0x29u8 && d > 0 {
            (d - 1) as nat
        } else {
            d
        }
    }
}

/// The least bracket depth that any prefix of `s`, the empty one included,
/// reaches.
pub open spec fn min_prefix_depth(s: Seq<u8>) -> int
    decreases s.len(),
{
    if s.len() == 0 {
        0
    } else {
        let m = min_prefix_depth(s.drop_last());
        let d = bracket_depth(s);
        if d < m {
            d
        } else {
            m
        }
    }
}

/// The depth that the scans outside brackets keep is the bracket depth, the
/// number of opening brackets minus the number of closing ones, raised by
/// the closing brackets that had no opening one: the bracket depth less the
/// least depth that a prefix reaches.
pub proof fn lemma_clamped_depth_counts(s: Seq<u8>)
    ensures
        clamped_depth(s) == bracket_depth(s) - min_prefix_depth(s),
        min_prefix_depth(s) <= 0,
        min_prefix_depth(s) <= bracket_depth(s),
    decreases s.len(),
{
    if s.len() > 0 {
        lemma_clamped_depth_counts(s.drop_last());
    }
}

proof fn lemma_clamped_depth_step(s: Seq<u8>, i: int)
    requires
        0 <= i < s.len(),
    ensures
        clamped_depth(s.take(i + 1)) == (if s[i] == 0x28u8 {
            clamped_depth(s.take(i)) + 1
        } else if s[i] == 0x29u8 && clamped_depth(s.take(i)) > 0 {
            (clamped_depth(s.take(i)) - 1) as nat
        } else {
            clamped_depth(s.take(i))
        }),
{
    assert(s.take(i + 1).drop_last() =~= s.take(i));
}

/// Whether the byte at `i` is found by the scan for `pattern` outside
/// brackets.
pub open spec fn found_outside_brackets(s: Seq<u8>, i: int, pattern: u8) -> bool {
    clamped_depth(s.take(i)) == 0 && s[i] == pattern && s[i] != 0x28u8
}

/// Finds the first `pattern` that stands outside brackets. An opening
/// bracket is never found, as it opens a bracket.
pub fn find_outside_brackets(bytes: &[u8], pattern: u8) -> (r: Option<usize>)
    ensures
        match r {
            Some(i) => i < bytes@.len() && found_outside_brackets(bytes@, i as int, pattern)
                && forall|j: int|
                0 <= j < i ==> !#[trigger] found_outside_brackets(bytes@, j, pattern),
            None => forall|j: int|
                0 <= j < bytes@.len() ==> !#[trigger] found_outside_brackets(bytes@, j, pattern),
        },
{
    let mut level: usize = 0;
    let mut i: usize = 0;
    proof {
        assert(bytes@.take(0) =~= Seq::<u8>::empty());
    }
    while i < bytes.len()
        invariant
            i <= bytes@.len(),
            level == clamped_depth(bytes@.take(i as int)),
            level <= i,
            forall|j: int| 0 <= j < i ==> !#[trigger] found_outside_brackets(bytes@, j, pattern),
        decreases bytes@.len() - i,
    {
        proof {
            lemma_clamped_depth_step(bytes@, i as int);
        }
        let b = bytes[i];
        if b == 0x28 {
            level = level + 1;
        } else if b == 0x29 && level > 0 {
            level = level - 1;
        } else if level == 0 && b == pattern {
            return Some(i);
        }
        i = i + 1;
    }
    None
}

/// Whether the byte at `i` is white space outside brackets.
pub open spec fn space_outside_brackets(s: Seq<u8>, i: int) -> bool {
    clamped_depth(s.take(i)) == 0 && is_space(s[i])
}

/// Finds the first white space that stands outside brackets.
pub fn find_space_outside_brackets(bytes: &[u8]) -> (r: Option<usize>)
    ensures
        match r {
            Some(i) => i < bytes@.len() && space_outside_brackets(bytes@, i as int) && forall|j: int|
                0 <= j < i ==> !#[trigger] space_outside_brackets(bytes@, j),
            None => forall|j: int|
                0 <= j < bytes@.len() ==> !#[trigger] space_outside_brackets(bytes@, j),
        },
{
    let mut level: usize = 0;
    let mut i: usize = 0;
    proof {
        assert(bytes@.take(0) =~= Seq::<u8>::empty());
    }
    while i < bytes.len()
        invariant
            i <= bytes@.len(),
            level == clamped_depth(bytes@.take(i as int)),
            level <= i,
            forall|j: int| 0 <= j < i ==> !#[trigger] space_outside_brackets(bytes@, j),
        decreases bytes@.len() - i,
    {
        proof {
            lemma_clamped_depth_step(bytes@, i as int);
        }
        let b = bytes[i];
        if b == 0x28 {
            level = level + 1;
        } else if b == 0x29 && level > 0 {
            level = level - 1;
        } else if level == 0 && is_space_byte(b) {
            return Some(i);
        }
        i = i + 1;
    }
    None
}

/// The absolute value of an integer.
pub open spec fn abs_int(x: int) -> nat {
    if x < 0 {
        (-x) as nat
    } else {
        x as nat
    }
}

/// The absolute value is `x` or `-x`, whichever is not negative.
pub proof fn lemma_abs_int(x: int)
    ensures
        abs_int(x) >= 0,
        abs_int(x) == x || abs_int(x) == -x,
        abs_int(x) * abs_int(x) == x * x,
{
    assert(abs_int(x) * abs_int(x) == x * x) by (nonlinear_arith)
        requires
            abs_int(x) == x || abs_int(x) == -x,
    ;
}

/// Splits an integer into its sign and its absolute value.
pub trait NegAbs {
    type Abs;

    fn neg_abs(self) -> (bool, Self::Abs);
}

/// `az::WrappingCast` from `i8` to `u8`: the two's-complement
/// reinterpretation, so a negative value gains 2^8.
#[verifier::external_body]
fn wrapping_cast_i8_u8(x: i8) -> (r: u8)
    ensures
        r as int == if x >= 0 { x as int } else { x as int + 0x100 },
{
    x.wrapping_cast()
}

/// `az::WrappingCast` from `i16` to `u16`: the two's-complement
/// reinterpretation, so a negative value gains 2^16.
#[verifier::external_body]
fn wrapping_cast_i16_u16(x: i16) -> (r: u16)
    ensures
        r as int == if x >= 0 { x as int } else { x as int + 0x1_0000 },
{
    x.wrapping_cast()
}

/// `az::WrappingCast` from `i32` to `u32`: the two's-complement
/// reinterpretation, so a negative value gains 2^32.
#[verifier::external_body]
fn wrapping_cast_i32_u32(x: i32) -> (r: u32)
    ensures
        r as int == if x >= 0 { x as int } else { x as int + 0x1_0000_0000 },
{
    x.wrapping_cast()
}

/// `az::WrappingCast` from `i64` to `u64`: the two's-complement
/// reinterpretation, so a negative value gains 2^64.
#[verifier::external_body]
fn wrapping_cast_i64_u64(x: i64) -> (r: u64)
    ensures
        r as int == if x >= 0 { x as int } else { x as int + 0x1_0000_0000_0000_0000 },
{
    x.wrapping_cast()
}

/// `az::WrappingCast` from `i128` to `u128`: the two's-complement
/// reinterpretation, so a negative value gains 2^128.
#[verifier::external_body]
fn wrapping_cast_i128_u128(x: i128) -> (r: u128)
    ensures
        r as int == if x >= 0 { x as int } else { x as int + 0x1_0000_0000_0000_0000_0000_0000_0000_0000 },
{
    x.wrapping_cast()
}

/// `az::WrappingCast` from `isize` to `usize`: the two's-complement
/// reinterpretation, so a negative value gains `usize::MAX + 1`.
#[verifier::external_body]
fn wrapping_cast_isize_usize(x: isize) -> (r: usize)
    ensures
        r as int == if x >= 0 { x as int } else { x as int + usize::MAX + 1 },
{
    x.wrapping_cast()
}

impl NegAbs for i8 {
    type Abs = u8;

    fn neg_abs(self) -> (r: (bool, u8))
        ensures
            r.0 == (self < 0),
            r.1 as int == abs_int(self as int),
    {
        if self < 0 {
            (true, wrapping_cast_i8_u8(0i8.wrapping_sub(self)))
        } else {
            (false, wrapping_cast_i8_u8(self))
        }
    }
}

impl NegAbs for u8 {
    type Abs = u8;

    fn neg_abs(self) -> (r: (bool, u8))
        ensures
            r.0 == false,
            r.1 == self,
    {
        (false, self)
    }
}

impl NegAbs for i16 {
    type Abs = u16;

    fn neg_abs(self) -> (r: (bool, u16))
        ensures
            r.0 == (self < 0),
            r.1 as int == abs_int(self as int),
    {
        if self < 0 {
            (true, wrapping_cast_i16_u16(0i16.wrapping_sub(self)))
        } else {
            (false, wrapping_cast_i16_u16(self))
        }
    }
}

impl NegAbs for u16 {
    type Abs = u16;

    fn neg_abs(self) -> (r: (bool, u16))
        ensures
            r.0 == false,
            r.1 == self,
    {
        (false, self)
    }
}

impl NegAbs for i32 {
    type Abs = u32;

    fn neg_abs(self) -> (r: (bool, u32))
        ensures
            r.0 == (self < 0),
            r.1 as int == abs_int(self as int),
    {
        if self < 0 {
            (true, wrapping_cast_i32_u32(0i32.wrapping_sub(self)))
        } else {
            (false, wrapping_cast_i32_u32(self))
        }
    }
}

impl NegAbs for u32 {
    type Abs = u32;

    fn neg_abs(self) -> (r: (bool, u32))
        ensures
            r.0 == false,
            r.1 == self,
    {
        (false, self)
    }
}

impl NegAbs for i64 {
    type Abs = u64;

    fn neg_abs(self) -> (r: (bool, u64))
        ensures
            r.0 == (self < 0),
            r.1 as int == abs_int(self as int),
    {
        if self < 0 {
            (true, wrapping_cast_i64_u64(0i64.wrapping_sub(self)))
        } else {
            (false, wrapping_cast_i64_u64(self))
        }
    }
}

impl NegAbs for u64 {
    type Abs = u64;

    fn neg_abs(self) -> (r: (bool, u64))
        ensures
            r.0 == false,
            r.1 == self,
    {
        (false, self)
    }
}

impl NegAbs for i128 {
    type Abs = u128;

    fn neg_abs(self) -> (r: (bool, u128))
        ensures
            r.0 == (self < 0),
            r.1 as int == abs_int(self as int),
    {
        if self < 0 {
            (true, wrapping_cast_i128_u128(0i128.wrapping_sub(self)))
        } else {
            (false, wrapping_cast_i128_u128(self))
        }
    }
}

impl NegAbs for u128 {
    type Abs = u128;

    fn neg_abs(self) -> (r: (bool, u128))
        ensures
            r.0 == false,
            r.1 == self,
    {
        (false, self)
    }
}

impl NegAbs for isize {
    type Abs = usize;

    fn neg_abs(self) -> (r: (bool, usize))
        ensures
            r.0 == (self < 0),
            r.1 as int == abs_int(self as int),
    {
        if self < 0 {
            (true, wrapping_cast_isize_usize(0isize.wrapping_sub(self)))
        } else {
            (false, wrapping_cast_isize_usize(self))
        }
    }
}

impl NegAbs for usize {
    type Abs = usize;

    fn neg_abs(self) -> (r: (bool, usize))
        ensures
            r.0 == false,
            r.1 == self,
    {
        (false, self)
    }
}

/// What the documentation of `String::reserve` states: the contents stay
/// as they are, only the capacity grows. It panics when the new capacity
/// passes `isize::MAX` bytes, which `requires` leaves out.
pub assume_specification[ std::string::String::reserve ](s: &mut std::string::String, additional: usize)
    requires
        encode_utf8(old(s)@).len() + additional <= isize::MAX,
    ensures
        final(s)@ == old(s)@,
;

/// The number of bytes that characters take in UTF-8.
pub open spec fn byte_len(chars: Seq<char>) -> nat {
    encode_utf8(chars).len()
}

proof fn lemma_encode_utf8_concat(a: Seq<char>, b: Seq<char>)
    ensures
        encode_utf8(a + b) == encode_utf8(a) + encode_utf8(b),
    decreases a.len(),
{
    if a.len() == 0 {
        assert(a + b =~= b);
        assert(encode_utf8(a) =~= Seq::<u8>::empty());
        assert(encode_utf8(a) + encode_utf8(b) =~= encode_utf8(b));
    } else {
        assert((a + b).drop_first() =~= a.drop_first() + b);
        assert((a + b)[0] == a[0]);
        lemma_encode_utf8_concat(a.drop_first(), b);
        assert(encode_utf8(a + b) =~= encode_utf8(a) + encode_utf8(b));
    }
}

enum StringRepr {
    Owned(String),
    Malloc { buf: String, cap: usize },
}

/// A string that is either a Rust `String` or a buffer of a given capacity,
/// as written by C functions that allocate with `malloc`.
pub struct StringLike {
    repr: StringRepr,
}

impl View for StringLike {
    /// The characters held.
    type V = Seq<char>;

    closed spec fn view(&self) -> Seq<char> {
        match self.repr {
            StringRepr::Owned(s) => s@,
            StringRepr::Malloc { buf, cap: _ } => buf@,
        }
    }
}

impl StringLike {
    /// A buffer of the `malloc` kind holds no more bytes than its capacity.
    pub closed spec fn wf(self) -> bool {
        match self.repr {
            StringRepr::Owned(_) => true,
            StringRepr::Malloc { buf, cap } => byte_len(buf@) <= cap,
        }
    }

    /// Whether the string is a buffer of the `malloc` kind.
    pub closed spec fn is_malloc(self) -> bool {
        self.repr is Malloc
    }

    /// The capacity of a buffer of the `malloc` kind, in bytes.
    pub closed spec fn malloc_capacity(self) -> nat {
        match self.repr {
            StringRepr::Owned(_) => 0,
            StringRepr::Malloc { buf: _, cap } => cap as nat,
        }
    }

    /// An empty Rust `String`.
    pub fn new_string() -> (r: Self)
        ensures
            r.wf(),
            r@ == Seq::<char>::empty(),
            !r.is_malloc(),
    {
        StringLike { repr: StringRepr::Owned(String::new()) }
    }

    /// Takes the Rust `String`; there must be one.
    pub fn unwrap_string(self) -> (r: String)
        requires
            !self.is_malloc(),
        ensures
            r@ == self@,
    {
        match self.repr {
            StringRepr::Owned(s) => s,
            StringRepr::Malloc { buf, cap: _ } => buf,
        }
    }

    /// An empty buffer of the `malloc` kind, with nothing allocated.
    pub fn new_malloc() -> (r: Self)
        ensures
            r.wf(),
            r@ == Seq::<char>::empty(),
            r.is_malloc(),
            r.malloc_capacity() == 0,
    {
        let buf = String::new();
        proof {
            assert(encode_utf8(buf@) =~= Seq::<u8>::empty());
        }
        StringLike { repr: StringRepr::Malloc { buf, cap: 0 } }
    }

    /// Appends `s`.
    pub fn push_str(&mut self, s: &str)
        requires
            old(self).wf(),
            old(self).is_malloc() ==> byte_len(old(self)@) + byte_len(s@) <= usize::MAX,
            !old(self).is_malloc() ==> byte_len(old(self)@) + byte_len(s@) <= isize::MAX,
        ensures
            final(self).wf(),
            final(self)@ == old(self)@ + s@,
            final(self).is_malloc() == old(self).is_malloc(),
            final(self).is_malloc() ==> final(self).malloc_capacity() == if old(
                self,
            ).malloc_capacity() < byte_len(old(self)@) + byte_len(s@) {
                byte_len(old(self)@) + byte_len(s@)
            } else {
                old(self).malloc_capacity()
            },
    {
        self.reserve(s.len());
        let StringLike { repr } = self;
        match repr {
            StringRepr::Owned(st) => {
                st.append(s);
            },
            StringRepr::Malloc { buf, cap } => {
                proof {
                    lemma_encode_utf8_concat(buf@, s@);
                }
                buf.append(s);
            },
        }
    }

    /// The characters held.
    pub fn as_str(&self) -> (r: &str)
        ensures
            r@ == self@,
    {
        match &self.repr {
            StringRepr::Owned(s) => s.as_str(),
            StringRepr::Malloc { buf, cap: _ } => buf.as_str(),
        }
    }

    /// Makes room for `additional` more bytes; a buffer of the `malloc` kind
    /// grows to exactly the length it then needs, if it is smaller.
    pub fn reserve(&mut self, additional: usize)
        requires
            old(self).wf(),
            old(self).is_malloc() ==> byte_len(old(self)@) + additional <= usize::MAX,
            !old(self).is_malloc() ==> byte_len(old(self)@) + additional <= isize::MAX,
        ensures
            final(self).wf(),
            final(self)@ == old(self)@,
            final(self).is_malloc() == old(self).is_malloc(),
            final(self).is_malloc() ==> final(self).malloc_capacity() == if old(
                self,
            ).malloc_capacity() < byte_len(old(self)@) + additional {
                byte_len(old(self)@) + additional
            } else {
                old(self).malloc_capacity() as int
            },
    {
        let StringLike { repr } = self;
        match repr {
            StringRepr::Owned(s) => {
                s.reserve(additional);
            },
            StringRepr::Malloc { buf, cap } => {
                let new_cap = buf.as_str().len() + additional;
                if new_cap > *cap {
                    *cap = new_cap;
                }
            },
        }
    }
}

/// The bits of an IEEE 754 double that is NaN: all exponent bits set and a
/// nonzero fraction.
pub open spec fn is_nan_bits(u: u64) -> bool {
    (u >> 52u64) & 0x7ff == 0x7ff && u & 0xf_ffff_ffff_ffff != 0
}

/// How many low bits of a double with this biased exponent lie below the
/// precision of a single: 29 for a double that is normal as a single, more
/// for one that becomes subnormal.
pub open spec fn f32_trunc_count(biased_exp: u64) -> u64 {
    if biased_exp >= 1023 - 126 {
        29
    } else {
        (29 + 1023 - 126 - biased_exp) as u64
    }
}

/// Of a double that is not a NaN and not too small for the smallest single,
/// the truncation keeps exactly the bits that a single can hold: bit `j`
/// stays when it is one of the 24 top bits of the significand (`j >= 29`)
/// and its place value `2^(biased_exp - 1075 + j)` is at least `2^-149`,
/// the least subnormal single (that is, `j + biased_exp >= 926`); every
/// other bit is cleared.
pub proof fn lemma_f32_trunc_bits(u: u64, j: u64)
    requires
        !is_nan_bits(u),
        (u >> 52u64) & 0x7ff > 1023 - 126 - 24,
        j < 64,
    ensures
        ({
            let e = (u >> 52u64) & 0x7ff;
            let k = f32_trunc_count(e);
            (((u >> k) << k) >> j) & 1 == (if j >= 29 && j + e >= 926 {
                (u >> j) & 1
            } else {
                0
            })
        }),
{
    let e = (u >> 52u64) & 0x7ff;
    assert(e <= 0x7ffu64) by (bit_vector)
        requires
            e == (u >> 52u64) & 0x7ff,
    ;
    let k = f32_trunc_count(e);
    assert(k < 64);
    assert((((u >> k) << k) >> j) & 1 == (if j >= k {
        (u >> j) & 1
    } else {
        0
    })) by (bit_vector)
        requires
            k < 64,
            j < 64,
    ;
    assert((j >= k) == (j >= 29 && j + e >= 926));
}

/// A double that a single holds exactly, with an exponent in the range of
/// normal singles, comes out of the truncation unchanged.
pub proof fn lemma_f32_trunc_exact(u: u64)
    requires
        !is_nan_bits(u),
        (u >> 52u64) & 0x7ff >= 1023 - 126,
        u & 0x1fff_ffff == 0,
    ensures
        ({
            let k = f32_trunc_count((u >> 52u64) & 0x7ff);
            (u >> k) << k == u
        }),
{
    let k = f32_trunc_count((u >> 52u64) & 0x7ff);
    assert(k == 29);
    assert((u >> 29u64) << 29u64 == u) by (bit_vector)
        requires
            u & 0x1fff_ffff == 0,
    ;
}

/// The NaNs are the doubles whose bits, with the sign cleared, lie above
/// those of infinity.
pub proof fn lemma_nan_bits(u: u64)
    ensures
        is_nan_bits(u) <==> (u & 0x7fff_ffff_ffff_ffff) > 0x7ff0_0000_0000_0000,
{
    assert(((u >> 52u64) & 0x7ff == 0x7ff && u & 0xf_ffff_ffff_ffff != 0) <==> (u
        & 0x7fff_ffff_ffff_ffff) > 0x7ff0_0000_0000_0000) by (bit_vector);
}

/// The bits of a double that, converted to a single, cannot round away from
/// zero: a NaN is kept as it is; a double too small for the smallest single
/// gives the bits of positive zero; otherwise the fraction bits that a
/// single cannot hold are cleared. `trunc_f64_to_f32` converts the double
/// with these bits.
pub fn trunc_f64_bits_for_f32(u: u64) -> (r: u64)
    ensures
        is_nan_bits(u) ==> r == u,
        !is_nan_bits(u) && (u >> 52u64) & 0x7ff <= 1023 - 126 - 24 ==> r == 0,
        !is_nan_bits(u) && (u >> 52u64) & 0x7ff > 1023 - 126 - 24 ==> r == (u >> f32_trunc_count(
            (u >> 52u64) & 0x7ff,
        )) << f32_trunc_count((u >> 52u64) & 0x7ff),
        !is_nan_bits(u) && (u >> 52u64) & 0x7ff > 1023 - 126 - 24 ==> forall|j: u64|
            j < 64 ==> #[trigger] ((r >> j) & 1) == (if j >= 29 && j + ((u >> 52u64) & 0x7ff) >= 926 {
                (u >> j) & 1
            } else {
                0
            }),
        !is_nan_bits(u) && (u >> 52u64) & 0x7ff >= 1023 - 126 && u & 0x1fff_ffff == 0 ==> r == u,
{
    let biased_exp = (u >> 52u64) & 0x7ff;
    if biased_exp == 0x7ff && u & 0xf_ffff_ffff_ffff != 0 {
        return u;
    }
    proof {
        assert(biased_exp <= 0x7ffu64) by (bit_vector)
            requires
                biased_exp == (u >> 52u64) & 0x7ff,
        ;
    }
    let trunc_count: u64 = if biased_exp >= 1023 - 126 {
        29
    } else if biased_exp <= 1023 - 126 - 24 {
        return 0;
    } else {
        29 + 1023 - 126 - biased_exp
    };
    proof {
        assert(trunc_count < 64);
        assert(u & (!0u64 << trunc_count) == (u >> trunc_count) << trunc_count) by (bit_vector)
            requires
                trunc_count < 64,
        ;
    }
    let r = u & (!0u64 << trunc_count);
    proof {
        assert forall|j: u64| j < 64 implies #[trigger] ((r >> j) & 1) == (if j >= 29 && j + ((u
            >> 52u64) & 0x7ff) >= 926 {
            (u >> j) & 1
        } else {
            0
        }) by {
            lemma_f32_trunc_bits(u, j);
        }
        if biased_exp >= 1023 - 126 && u & 0x1fff_ffff == 0 {
            lemma_f32_trunc_exact(u);
        }
    }
    r
}

} // verus!
