//! Double-precision complex values, carried as IEEE-754 bit patterns.
//!
//! The arithmetic on them is performed by the `num` crate behind trusted
//! wrappers.  Each wrapper's result is pinned to an uninterpreted name: every
//! basic double-precision operation is a pure function of the operand bits,
//! so the same bits always give the same result, which is all the engine's
//! contracts need.

use vstd::prelude::*;
use num::complex::Complex64;
use num::traits::FromBytes;

verus! {

/// A double-precision complex number, held as the IEEE-754 bit patterns of
/// its real and imaginary parts.
#[derive(Clone, Copy, PartialEq, Eq, Debug)]
pub struct Complex {
    /// Bit pattern of the real part.
    pub re: u64,
    /// Bit pattern of the imaginary part.
    pub im: u64,
}

/// Bit pattern of the double 1.0.
pub const ONE_BITS: u64 = 0x3FF0_0000_0000_0000;

/// Bit pattern of the double 0.0.
pub const ZERO_BITS: u64 = 0;

/// Bit pattern of the squared-norm threshold for "too close to a pole" and
/// for a degenerate derivative: ten to the minus three hundred, the square
/// of the base epsilon.
pub const EPS_POLE_SQR_BITS: u64 = 0x01A5_6E1F_C2F8_F359;

/// Bit pattern of the squared-norm threshold for value convergence: ten to
/// the minus one hundred fifty, the base epsilon itself, unsquared.
pub const EPS_VALUE_BITS: u64 = 0x20CA_2FE7_6A3F_9475;

/// The complex value one (the empty product).
pub open spec fn c_one() -> Complex {
    Complex { re: ONE_BITS, im: ZERO_BITS }
}

/// The complex value zero (the empty sum).
pub open spec fn c_zero() -> Complex {
    Complex { re: ZERO_BITS, im: ZERO_BITS }
}

/// Result bits of complex addition on the operand bits.
pub uninterp spec fn add_bits(ar: u64, ai: u64, br: u64, bi: u64) -> (u64, u64);

/// Result bits of complex subtraction on the operand bits.
pub uninterp spec fn sub_bits(ar: u64, ai: u64, br: u64, bi: u64) -> (u64, u64);

/// Result bits of complex multiplication on the operand bits.
pub uninterp spec fn mul_bits(ar: u64, ai: u64, br: u64, bi: u64) -> (u64, u64);

/// Result bits of complex division on the operand bits.
pub uninterp spec fn div_bits(ar: u64, ai: u64, br: u64, bi: u64) -> (u64, u64);

/// Result bits of complex negation on the operand bits.
pub uninterp spec fn neg_bits(ar: u64, ai: u64) -> (u64, u64);

/// Result bits of the squared norm (re*re + im*im) on the operand bits.
pub uninterp spec fn norm_sqr_bits(ar: u64, ai: u64) -> u64;

/// Whether the double with bit pattern `a` is strictly less than the double
/// with bit pattern `b`.
pub uninterp spec fn double_lt(a: u64, b: u64) -> bool;

/// Whether the double with bit pattern `a` is less than or equal to the
/// double with bit pattern `b`.
pub uninterp spec fn double_le(a: u64, b: u64) -> bool;

/// The sum of two complex values.
pub open spec fn spec_add(a: Complex, b: Complex) -> Complex {
    Complex { re: add_bits(a.re, a.im, b.re, b.im).0, im: add_bits(a.re, a.im, b.re, b.im).1 }
}

/// The difference of two complex values.
pub open spec fn spec_sub(a: Complex, b: Complex) -> Complex {
    Complex { re: sub_bits(a.re, a.im, b.re, b.im).0, im: sub_bits(a.re, a.im, b.re, b.im).1 }
}

/// The product of two complex values.
pub open spec fn spec_mul(a: Complex, b: Complex) -> Complex {
    Complex { re: mul_bits(a.re, a.im, b.re, b.im).0, im: mul_bits(a.re, a.im, b.re, b.im).1 }
}

/// The quotient of two complex values.
pub open spec fn spec_div(a: Complex, b: Complex) -> Complex {
    Complex { re: div_bits(a.re, a.im, b.re, b.im).0, im: div_bits(a.re, a.im, b.re, b.im).1 }
}

/// The negation of a complex value.
pub open spec fn spec_neg(a: Complex) -> Complex {
    Complex { re: neg_bits(a.re, a.im).0, im: neg_bits(a.re, a.im).1 }
}

/// The squared norm of a complex value, as the bit pattern of a double.
pub open spec fn spec_norm_sqr(a: Complex) -> u64 {
    norm_sqr_bits(a.re, a.im)
}

/// Relies on `Add for num::complex::Complex64`: componentwise double
/// addition, a pure function of the operand bits.
#[verifier::external_body]
pub fn c_add(a: Complex, b: Complex) -> (r: Complex)
    ensures
        (r.re, r.im) == add_bits(a.re, a.im, b.re, b.im),
{
    let x = Complex64 {
        re: FromBytes::from_ne_bytes(&a.re.to_ne_bytes()),
        im: FromBytes::from_ne_bytes(&a.im.to_ne_bytes()),
    };
    let y = Complex64 {
        re: FromBytes::from_ne_bytes(&b.re.to_ne_bytes()),
        im: FromBytes::from_ne_bytes(&b.im.to_ne_bytes()),
    };
    let s = x + y;
    Complex { re: s.re.to_bits(), im: s.im.to_bits() }
}

/// Relies on `Sub for num::complex::Complex64`: componentwise double
/// subtraction, a pure function of the operand bits.
#[verifier::external_body]
pub fn c_sub(a: Complex, b: Complex) -> (r: Complex)
    ensures
        (r.re, r.im) == sub_bits(a.re, a.im, b.re, b.im),
{
    let x = Complex64 {
        re: FromBytes::from_ne_bytes(&a.re.to_ne_bytes()),
        im: FromBytes::from_ne_bytes(&a.im.to_ne_bytes()),
    };
    let y = Complex64 {
        re: FromBytes::from_ne_bytes(&b.re.to_ne_bytes()),
        im: FromBytes::from_ne_bytes(&b.im.to_ne_bytes()),
    };
    let s = x - y;
    Complex { re: s.re.to_bits(), im: s.im.to_bits() }
}

/// Relies on `Mul for num::complex::Complex64`: the usual complex product in
/// double arithmetic, a pure function of the operand bits.
#[verifier::external_body]
pub fn c_mul(a: Complex, b: Complex) -> (r: Complex)
    ensures
        (r.re, r.im) == mul_bits(a.re, a.im, b.re, b.im),
{
    let x = Complex64 {
        re: FromBytes::from_ne_bytes(&a.re.to_ne_bytes()),
        im: FromBytes::from_ne_bytes(&a.im.to_ne_bytes()),
    };
    let y = Complex64 {
        re: FromBytes::from_ne_bytes(&b.re.to_ne_bytes()),
        im: FromBytes::from_ne_bytes(&b.im.to_ne_bytes()),
    };
    let s = x * y;
    Complex { re: s.re.to_bits(), im: s.im.to_bits() }
}

/// Relies on `Div for num::complex::Complex64`: the usual complex quotient in
/// double arithmetic, a pure function of the operand bits.
#[verifier::external_body]
pub fn c_div(a: Complex, b: Complex) -> (r: Complex)
    ensures
        (r.re, r.im) == div_bits(a.re, a.im, b.re, b.im),
{
    let x = Complex64 {
        re: FromBytes::from_ne_bytes(&a.re.to_ne_bytes()),
        im: FromBytes::from_ne_bytes(&a.im.to_ne_bytes()),
    };
    let y = Complex64 {
        re: FromBytes::from_ne_bytes(&b.re.to_ne_bytes()),
        im: FromBytes::from_ne_bytes(&b.im.to_ne_bytes()),
    };
    let s = x / y;
    Complex { re: s.re.to_bits(), im: s.im.to_bits() }
}

/// Relies on `Neg for num::complex::Complex64`: componentwise double
/// negation, a pure function of the operand bits.
#[verifier::external_body]
pub fn c_neg(a: Complex) -> (r: Complex)
    ensures
        (r.re, r.im) == neg_bits(a.re, a.im),
{
    let x = Complex64 {
        re: FromBytes::from_ne_bytes(&a.re.to_ne_bytes()),
        im: FromBytes::from_ne_bytes(&a.im.to_ne_bytes()),
    };
    let s = -x;
    Complex { re: s.re.to_bits(), im: s.im.to_bits() }
}

/// Relies on `num::complex::Complex64::norm_sqr`: re*re + im*im in double
/// arithmetic, a pure function of the operand bits.
#[verifier::external_body]
pub fn c_norm_sqr(a: Complex) -> (r: u64)
    ensures
        r == norm_sqr_bits(a.re, a.im),
{
    let x = Complex64 {
        re: FromBytes::from_ne_bytes(&a.re.to_ne_bytes()),
        im: FromBytes::from_ne_bytes(&a.im.to_ne_bytes()),
    };
    x.norm_sqr().to_bits()
}

/// Relies on the standard `<` on double-precision values (IEEE-754
/// less-than, a pure function of the operand bits); `Complex64` only carries
/// the two bit patterns into doubles.
#[verifier::external_body]
pub fn c_lt(a: u64, b: u64) -> (r: bool)
    ensures
        r == double_lt(a, b),
{
    let x = Complex64 {
        re: FromBytes::from_ne_bytes(&a.to_ne_bytes()),
        im: FromBytes::from_ne_bytes(&b.to_ne_bytes()),
    };
    x.re < x.im
}

/// Relies on the standard `<=` on double-precision values (IEEE-754
/// less-than-or-equal, a pure function of the operand bits); `Complex64`
/// only carries the two bit patterns into doubles.
#[verifier::external_body]
pub fn c_le(a: u64, b: u64) -> (r: bool)
    ensures
        r == double_le(a, b),
{
    let x = Complex64 {
        re: FromBytes::from_ne_bytes(&a.to_ne_bytes()),
        im: FromBytes::from_ne_bytes(&b.to_ne_bytes()),
    };
    x.re <= x.im
}

} // verus!
