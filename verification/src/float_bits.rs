use vstd::prelude::*;

verus! {

/// Whether the IEEE 754 double with these bits is finite: its exponent field
/// is not all ones.
pub open spec fn f64_bits_finite(bits: u64) -> bool {
    (bits >> 52u64) & 0x7ffu64 != 0x7ffu64
}

/// Whether the double with these bits is a NaN: exponent all ones and a
/// mantissa other than zero.
pub open spec fn f64_bits_nan(bits: u64) -> bool {
    !f64_bits_finite(bits) && bits & 0xf_ffff_ffff_ffffu64 != 0
}

/// Whether the double with these bits is a zero of either sign.
pub open spec fn f64_bits_zero(bits: u64) -> bool {
    bits & 0x7fff_ffff_ffff_ffffu64 == 0
}

/// What `==` on two doubles answers, from their bits: the same value that is
/// not a NaN, or two zeros whatever their signs.
pub open spec fn f64_bits_equal(a: u64, b: u64) -> bool {
    (a == b && !f64_bits_nan(a)) || (f64_bits_zero(a) && f64_bits_zero(b))
}

/// Whether the IEEE 754 single with these bits is a finite value in
/// `0.0..=1.0`: a non-negative value up to the bits of `1.0`, or minus zero.
pub open spec fn f32_bits_in_unit_interval(bits: u32) -> bool {
    bits <= 0x3f80_0000u32 || bits == 0x8000_0000u32
}

/// Tests `f64_bits_finite`.
pub fn f64_is_finite(bits: u64) -> (finite: bool)
    ensures
        finite == f64_bits_finite(bits),
{
    (bits >> 52u64) & 0x7ffu64 != 0x7ffu64
}

/// Tests `f64_bits_equal`.
pub fn f64_equal(a: u64, b: u64) -> (equal: bool)
    ensures
        equal == f64_bits_equal(a, b),
{
    let a_nan = (a >> 52u64) & 0x7ffu64 == 0x7ffu64 && a & 0xf_ffff_ffff_ffffu64 != 0;
    let a_zero = a & 0x7fff_ffff_ffff_ffffu64 == 0;
    let b_zero = b & 0x7fff_ffff_ffff_ffffu64 == 0;
    (a == b && !a_nan) || (a_zero && b_zero)
}

/// Tests `f32_bits_in_unit_interval`.
pub fn f32_in_unit_interval(bits: u32) -> (inside: bool)
    ensures
        inside == f32_bits_in_unit_interval(bits),
{
    bits <= 0x3f80_0000u32 || bits == 0x8000_0000u32
}

/// Whether the IEEE 754 single with these bits is a NaN.
pub open spec fn f32_bits_nan(bits: u32) -> bool {
    (bits >> 23u32) & 0xffu32 == 0xffu32 && bits & 0x7f_ffffu32 != 0
}

/// Whether the single with these bits is a zero of either sign.
pub open spec fn f32_bits_zero(bits: u32) -> bool {
    bits & 0x7fff_ffffu32 == 0
}

/// Whether the single with these bits has its sign bit set.
pub open spec fn f32_bits_negative(bits: u32) -> bool {
    bits & 0x8000_0000u32 != 0
}

/// What `==` on two singles answers, from their bits.
pub open spec fn f32_bits_equal(a: u32, b: u32) -> bool {
    (a == b && !f32_bits_nan(a)) || (f32_bits_zero(a) && f32_bits_zero(b))
}

/// What `f32::clamp(value, 0.0, max)` returns, from the bits, for a bound
/// `max` that is a finite non-negative value: a NaN stays, a value below
/// zero becomes `0.0`, one above the bound becomes the bound, and any other
/// value (minus zero among them) is kept.
pub open spec fn f32_bits_clamp_zero_to(bits: u32, max: u32) -> u32 {
    if f32_bits_nan(bits) {
        bits
    } else if f32_bits_negative(bits) && !f32_bits_zero(bits) {
        0
    } else if !f32_bits_negative(bits) && bits > max {
        max
    } else {
        bits
    }
}

/// What `f32::clamp(value, 0.0, 1.0)` returns, from the bits.
pub open spec fn f32_bits_clamp_unit(bits: u32) -> u32 {
    f32_bits_clamp_zero_to(bits, 0x3f80_0000u32)
}

/// Tests `f32_bits_equal`.
pub fn f32_equal(a: u32, b: u32) -> (equal: bool)
    ensures
        equal == f32_bits_equal(a, b),
{
    let a_nan = (a >> 23u32) & 0xffu32 == 0xffu32 && a & 0x7f_ffffu32 != 0;
    let a_zero = a & 0x7fff_ffffu32 == 0;
    let b_zero = b & 0x7fff_ffffu32 == 0;
    (a == b && !a_nan) || (a_zero && b_zero)
}

/// Computes `f32_bits_clamp_zero_to`.
pub fn f32_clamp_zero_to(bits: u32, max: u32) -> (clamped: u32)
    ensures
        clamped == f32_bits_clamp_zero_to(bits, max),
{
    let nan = (bits >> 23u32) & 0xffu32 == 0xffu32 && bits & 0x7f_ffffu32 != 0;
    let negative = bits & 0x8000_0000u32 != 0;
    let zero = bits & 0x7fff_ffffu32 == 0;
    if nan {
        bits
    } else if negative && !zero {
        0
    } else if !negative && bits > max {
        max
    } else {
        bits
    }
}

/// Computes `f32_bits_clamp_unit`.
pub fn f32_clamp_unit(bits: u32) -> (clamped: u32)
    ensures
        clamped == f32_bits_clamp_unit(bits),
{
    f32_clamp_zero_to(bits, 0x3f80_0000u32)
}

/// Whether the single with these bits is finite.
pub open spec fn f32_bits_finite(bits: u32) -> bool {
    (bits >> 23u32) & 0xffu32 != 0xffu32
}

/// A number that orders the singles that are not NaN as `<=` does: the
/// magnitude bits, negated for a set sign bit (both zeros map to 0).
pub open spec fn f32_bits_order_key(bits: u32) -> int {
    if bits & 0x8000_0000u32 != 0 {
        -((bits & 0x7fff_ffffu32) as int)
    } else {
        (bits & 0x7fff_ffffu32) as int
    }
}

/// Whether the single is finite and within `min..=max`, for finite bounds.
pub open spec fn f32_bits_within(bits: u32, min: u32, max: u32) -> bool {
    f32_bits_finite(bits) && f32_bits_order_key(min) <= f32_bits_order_key(bits)
        <= f32_bits_order_key(max)
}

/// Tests `f32_bits_within`.
pub fn f32_within(bits: u32, min: u32, max: u32) -> (within: bool)
    ensures
        within == f32_bits_within(bits, min, max),
{
    let finite = (bits >> 23u32) & 0xffu32 != 0xffu32;
    let key = f32_order_key(bits);
    finite && f32_order_key(min) <= key && key <= f32_order_key(max)
}

fn f32_order_key(bits: u32) -> (key: i64)
    ensures
        key == f32_bits_order_key(bits),
{
    let magnitude = bits & 0x7fff_ffffu32;
    if bits & 0x8000_0000u32 != 0 {
        -(magnitude as i64)
    } else {
        magnitude as i64
    }
}

/// Whether the double with these bits has its sign bit set.
pub open spec fn f64_bits_negative(bits: u64) -> bool {
    bits & 0x8000_0000_0000_0000u64 != 0
}

/// Whether the double is finite and not below zero (minus zero included).
pub open spec fn f64_bits_finite_non_negative(bits: u64) -> bool {
    f64_bits_finite(bits) && (f64_bits_zero(bits) || !f64_bits_negative(bits))
}

/// Whether the double is finite and above zero.
pub open spec fn f64_bits_finite_positive(bits: u64) -> bool {
    f64_bits_finite(bits) && !f64_bits_zero(bits) && !f64_bits_negative(bits)
}

/// Tests `f64_bits_finite_non_negative`.
pub fn f64_is_finite_non_negative(bits: u64) -> (ok: bool)
    ensures
        ok == f64_bits_finite_non_negative(bits),
{
    let finite = (bits >> 52u64) & 0x7ffu64 != 0x7ffu64;
    let zero = bits & 0x7fff_ffff_ffff_ffffu64 == 0;
    let negative = bits & 0x8000_0000_0000_0000u64 != 0;
    finite && (zero || !negative)
}

/// Tests `f64_bits_finite_positive`.
pub fn f64_is_finite_positive(bits: u64) -> (ok: bool)
    ensures
        ok == f64_bits_finite_positive(bits),
{
    let finite = (bits >> 52u64) & 0x7ffu64 != 0x7ffu64;
    let zero = bits & 0x7fff_ffff_ffff_ffffu64 == 0;
    let negative = bits & 0x8000_0000_0000_0000u64 != 0;
    finite && !zero && !negative
}

} // verus!
