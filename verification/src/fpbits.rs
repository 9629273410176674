use vstd::prelude::*;
use rustc_apfloat::Float;
use rustc_apfloat::ieee::Single;

verus! {

// IEEE-754 binary32 arithmetic on raw bit patterns.
//
// The tensor engine stores Float32 elements as `u32` bit patterns and never
// touches native floats. Arithmetic on those patterns is delegated to
// rustc_apfloat's software implementation of IEEE binary32, with
// round-to-nearest-even, through the trusted wrappers below. Each operation
// is a pure function of the operand bits, which the uninterpreted spec
// functions name; negation and absolute value are exact sign-bit operations
// and are implemented directly in verified code.

/// The bits of the IEEE binary32 sum of the two operands.
pub uninterp spec fn f32_add(a: u32, b: u32) -> u32;

/// The bits of the IEEE binary32 difference of the two operands.
pub uninterp spec fn f32_sub(a: u32, b: u32) -> u32;

/// The bits of the IEEE binary32 product of the two operands.
pub uninterp spec fn f32_mul(a: u32, b: u32) -> u32;

/// The bits of the IEEE binary32 quotient of the two operands.
pub uninterp spec fn f32_div(a: u32, b: u32) -> u32;

/// The bits of the IEEE maxNum of the two operands: the larger operand,
/// unless one is a NaN, in which case the other.
pub uninterp spec fn f32_max(a: u32, b: u32) -> u32;

/// The bits of the IEEE binary32 value nearest to the given integer.
pub uninterp spec fn f32_of_uint(n: u64) -> u32;

/// Relies on rustc_apfloat's `Single` addition (round to nearest even):
/// the result depends on the operand bits alone.
#[verifier::external_body]
pub fn f32_add_bits(a: u32, b: u32) -> (r: u32)
    ensures
        r == f32_add(a, b),
{
    ((Single::from_bits(a as u128) + Single::from_bits(b as u128)).value.to_bits()) as u32
}

/// Relies on rustc_apfloat's `Single` subtraction (round to nearest even):
/// the result depends on the operand bits alone.
#[verifier::external_body]
pub fn f32_sub_bits(a: u32, b: u32) -> (r: u32)
    ensures
        r == f32_sub(a, b),
{
    ((Single::from_bits(a as u128) - Single::from_bits(b as u128)).value.to_bits()) as u32
}

/// Relies on rustc_apfloat's `Single` multiplication (round to nearest
/// even): the result depends on the operand bits alone.
#[verifier::external_body]
pub fn f32_mul_bits(a: u32, b: u32) -> (r: u32)
    ensures
        r == f32_mul(a, b),
{
    ((Single::from_bits(a as u128) * Single::from_bits(b as u128)).value.to_bits()) as u32
}

/// Relies on rustc_apfloat's `Single` division (round to nearest even):
/// the result depends on the operand bits alone.
#[verifier::external_body]
pub fn f32_div_bits(a: u32, b: u32) -> (r: u32)
    ensures
        r == f32_div(a, b),
{
    ((Single::from_bits(a as u128) / Single::from_bits(b as u128)).value.to_bits()) as u32
}

/// Relies on rustc_apfloat's `Float::max` (IEEE maxNum semantics): the
/// result depends on the operand bits alone.
#[verifier::external_body]
pub fn f32_max_bits(a: u32, b: u32) -> (r: u32)
    ensures
        r == f32_max(a, b),
{
    (Single::from_bits(a as u128).max(Single::from_bits(b as u128)).to_bits()) as u32
}

/// Relies on rustc_apfloat's `Float::from_u128` (round to nearest even):
/// the result depends on the integer alone.
#[verifier::external_body]
pub fn f32_of_uint_bits(n: u64) -> (r: u32)
    ensures
        r == f32_of_uint(n),
{
    (Single::from_u128(n as u128).value.to_bits()) as u32
}

/// Whether the bits encode positive or negative zero — the only values an
/// IEEE binary32 equality against 0.0 accepts.
pub open spec fn spec_f32_is_zero(a: u32) -> bool {
    a == 0u32 || a == 0x8000_0000u32
}

pub fn f32_is_zero(a: u32) -> (r: bool)
    ensures
        r == spec_f32_is_zero(a),
{
    a == 0 || a == 0x8000_0000
}

/// IEEE binary32 negation is exactly a sign-bit flip, for every operand
/// including NaNs and infinities.
pub open spec fn f32_neg(a: u32) -> u32 {
    a ^ 0x8000_0000u32
}

pub fn f32_neg_bits(a: u32) -> (r: u32)
    ensures
        r == f32_neg(a),
{
    a ^ 0x8000_0000
}

/// IEEE binary32 absolute value is exactly a cleared sign bit, for every
/// operand including NaNs and infinities.
pub open spec fn f32_abs(a: u32) -> u32 {
    a & 0x7fff_ffffu32
}

pub fn f32_abs_bits(a: u32) -> (r: u32)
    ensures
        r == f32_abs(a),
{
    a & 0x7fff_ffff
}

/// The bits of the left-to-right IEEE binary32 running sum of a sequence,
/// starting from +0.0.
pub open spec fn f32_sum(s: Seq<u32>) -> u32
    decreases s.len(),
{
    if s.len() == 0 {
        0u32
    } else {
        f32_add(f32_sum(s.drop_last()), s.last())
    }
}

/// The bit pattern of 1.0f32.
pub const F32_ONE_BITS: u32 = 0x3f80_0000;

/// The bit pattern of 0.0f32.
pub const F32_ZERO_BITS: u32 = 0;

/// The bit pattern of f32::NEG_INFINITY.
pub const F32_NEG_INFINITY_BITS: u32 = 0xff80_0000;

} // verus!
