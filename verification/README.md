# rug (small numbers)

Allocation-free numbers in the memory layout of GMP, MPFR and MPC, with the
byte-string helpers used when parsing numbers, verified with Verus.

- `src/integer.rs`: `StackInteger`, a GMP size and two limbs, and `ToStack`,
  which writes a primitive integer in that form.
- `src/rational.rs`: `MiniRational` and `StackRational`, kept in canonical
  form; `src/gcd.rs` holds the gcd facts that canonical forms rest on.
- `src/float.rs`: `MiniFloat`, MPFR fields and two limbs, and `ToMini`;
  doubles and singles are read from their bits. `src/bits.rs` holds the
  facts about shifts and leading zeros.
- `src/complex.rs`: `MiniComplex`, two small floats.
- `src/misc.rs`: trimming, bracket matching and pattern skipping on bytes,
  `NegAbs`, and `StringLike`.
- `src/serdeize.rs`: the plain data that numbers are serialized as, and its
  range checks.
- `app/`: the floating-point edges, which take and give `f32` and `f64`.
