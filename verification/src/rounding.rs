//! Rounding of exact values to binary32 magnitudes.
//!
//! A binary32 number is a sign and a 31-bit *magnitude*: eight exponent bits
//! above twenty-three fraction bits. Every finite magnitude is a whole number
//! of units of 2^-149, the smallest subnormal, so exact results can be written
//! as integers and rounding becomes a statement about integers.

use vstd::prelude::*;
use vstd::arithmetic::power2::*;
use vstd::arithmetic::mul::*;
use vstd::arithmetic::div_mod::*;
use vstd::bits::*;

verus! {

/// The magnitude of the two infinities. Smaller magnitudes are finite, larger
/// ones are not numbers.
pub const INFINITE_MAGNITUDE: u32 = 0x7f80_0000;

/// The value of a magnitude in units of 2^-149.
///
/// The formula is continued past the largest finite number: there the infinite
/// magnitude stands for 2^128, which is what overflow is decided against.
pub open spec fn magnitude_units(magnitude: nat) -> nat {
    let exponent = magnitude / 0x80_0000;
    let fraction = magnitude % 0x80_0000;
    if exponent == 0 {
        fraction
    } else {
        (0x80_0000 + fraction) * pow2((exponent - 1) as nat)
    }
}

/// `magnitude` is what `n / 2^shift` units round to: the nearest one, and of
/// two that are equally near the one with the even bit pattern.
///
/// Said with midpoints: the value is not below the midpoint to the previous
/// magnitude nor above the midpoint to the next one, and it is on a midpoint
/// only if the magnitude is even. Nothing lies above the infinite magnitude.
pub open spec fn rounds_to(magnitude: nat, n: nat, shift: nat) -> bool {
    &&& magnitude <= INFINITE_MAGNITUDE
    &&& magnitude > 0 ==> {
        let midpoint = (magnitude_units((magnitude - 1) as nat) + magnitude_units(magnitude))
            * pow2(shift);
        midpoint < 2 * n || (midpoint == 2 * n && magnitude % 2 == 0)
    }
    &&& magnitude < INFINITE_MAGNITUDE ==> {
        let midpoint = (magnitude_units(magnitude) + magnitude_units(magnitude + 1)) * pow2(shift);
        2 * n < midpoint || (2 * n == midpoint && magnitude % 2 == 0)
    }
}

/// The magnitude that `n / 2^shift` units round to.
pub open spec fn nearest_magnitude(n: nat, shift: nat) -> nat {
    choose|magnitude: nat| rounds_to(magnitude, n, shift)
}

/// A significand `m` at exponent `q` has the bit pattern `q * 2^23 + m`, also
/// where `m` has just carried out of its twenty-four bits.
proof fn lemma_pattern_units(q: nat, m: nat)
    requires
        m <= 0x100_0000,
        q > 0 ==> m >= 0x80_0000,
    ensures
        magnitude_units(q * 0x80_0000 + m) == m * pow2(q),
{
    let pattern = q * 0x80_0000 + m;
    lemma2_to64();
    if m < 0x80_0000 {
        assert(pattern == m);
        assert(m * pow2(0) == m);
    } else if m < 0x100_0000 {
        assert(pattern == (q + 1) * 0x80_0000 + (m - 0x80_0000));
        assert(pattern / 0x80_0000 == q + 1);
        assert(pattern % 0x80_0000 == m - 0x80_0000);
    } else {
        assert(pattern == (q + 2) * 0x80_0000);
        assert(pattern / 0x80_0000 == q + 2);
        assert(pattern % 0x80_0000 == 0);
        lemma_pow2_unfold(q + 1);
        assert(0x80_0000 * (2 * pow2(q)) == 0x100_0000 * pow2(q));
    }
}

/// Each magnitude stands for a larger value than the one before it.
pub proof fn lemma_units_step(magnitude: nat)
    ensures
        magnitude_units(magnitude) < magnitude_units(magnitude + 1),
{
    let exponent = magnitude / 0x80_0000;
    let fraction = magnitude % 0x80_0000;
    lemma_pow2_pos((exponent - 1) as nat);
    if exponent == 0 {
        lemma_pattern_units(0, fraction);
        lemma_pattern_units(0, fraction + 1);
        lemma2_to64();
    } else {
        let q = (exponent - 1) as nat;
        assert(magnitude == q * 0x80_0000 + (0x80_0000 + fraction));
        lemma_pattern_units(q, 0x80_0000 + fraction);
        lemma_pattern_units(q, 0x80_0000 + fraction + 1);
        lemma_mul_strict_inequality(
            (0x80_0000 + fraction) as int,
            (0x80_0000 + fraction + 1) as int,
            pow2(q) as int,
        );
    }
}

/// Larger magnitudes stand for larger values.
pub proof fn lemma_units_monotone(a: nat, b: nat)
    requires
        a <= b,
    ensures
        magnitude_units(a) <= magnitude_units(b),
        a < b ==> magnitude_units(a) < magnitude_units(b),
    decreases b - a,
{
    if a < b {
        lemma_units_step((b - 1) as nat);
        lemma_units_monotone(a, (b - 1) as nat);
    }
}

/// Rounding keeps the order of the values it is applied to.
pub proof fn lemma_rounding_monotone(a: nat, b: nat, m: nat, n: nat, shift: nat)
    requires
        m <= n,
        rounds_to(a, m, shift),
        rounds_to(b, n, shift),
    ensures
        a <= b,
{
    if a > b {
        lemma_pow2_pos(shift);
        let below_a = magnitude_units((a - 1) as nat) + magnitude_units(a);
        let above_b = magnitude_units(b) + magnitude_units(b + 1);
        lemma_units_monotone(b, (a - 1) as nat);
        lemma_units_monotone(b + 1, a);
        lemma_mul_inequality(above_b as int, below_a as int, pow2(shift) as int);
        if b + 1 < a {
            lemma_mul_strict_inequality(above_b as int, below_a as int, pow2(shift) as int);
        }
    }
}

/// A value rounds to one magnitude only.
pub proof fn lemma_rounding_unique(magnitude: nat, n: nat, shift: nat)
    requires
        rounds_to(magnitude, n, shift),
    ensures
        nearest_magnitude(n, shift) == magnitude,
{
    let chosen = nearest_magnitude(n, shift);
    lemma_rounding_monotone(magnitude, chosen, n, n, shift);
    lemma_rounding_monotone(chosen, magnitude, n, n, shift);
}

/// Scaling a value and its unit together does not change what it rounds to.
pub proof fn lemma_rounding_scales(magnitude: nat, n: nat, shift: nat, by: nat)
    requires
        rounds_to(magnitude, n, shift),
    ensures
        rounds_to(magnitude, n * pow2(by), shift + by),
{
    lemma_pow2_adds(shift, by);
    lemma_pow2_pos(by);
    let scale = pow2(by) as int;
    if magnitude > 0 {
        let sum = magnitude_units((magnitude - 1) as nat) + magnitude_units(magnitude);
        lemma_scaled_order(sum as int * pow2(shift), 2 * n as int, scale);
        lemma_mul_is_associative(sum as int, pow2(shift) as int, scale);
        lemma_mul_is_associative(2, n as int, scale);
    }
    if magnitude < INFINITE_MAGNITUDE {
        let sum = magnitude_units(magnitude) + magnitude_units(magnitude + 1);
        lemma_scaled_order(2 * n as int, sum as int * pow2(shift), scale);
        lemma_mul_is_associative(sum as int, pow2(shift) as int, scale);
        lemma_mul_is_associative(2, n as int, scale);
    }
}

proof fn lemma_scaled_order(a: int, b: int, scale: int)
    requires
        scale > 0,
    ensures
        a < b ==> a * scale < b * scale,
        a == b ==> a * scale == b * scale,
{
    if a < b {
        lemma_mul_strict_inequality(a, b, scale);
    }
}

/// A value that is a magnitude's own rounds to that magnitude.
pub proof fn lemma_exact_rounds_to_itself(magnitude: nat, shift: nat)
    requires
        magnitude <= INFINITE_MAGNITUDE,
    ensures
        rounds_to(magnitude, magnitude_units(magnitude) * pow2(shift), shift),
{
    let units = magnitude_units(magnitude);
    lemma_pow2_pos(shift);
    lemma_mul_is_associative(2, units as int, pow2(shift) as int);
    if magnitude > 0 {
        let below = magnitude_units((magnitude - 1) as nat);
        lemma_units_step((magnitude - 1) as nat);
        lemma_mul_strict_inequality((below + units) as int, 2 * units as int, pow2(shift) as int);
    }
    lemma_units_step(magnitude);
    let above = magnitude_units(magnitude + 1);
    lemma_mul_strict_inequality(2 * units as int, (units + above) as int, pow2(shift) as int);
}

/// `magnitude` is what `significand * 2^exponent` units round to.
pub open spec fn rounds_scaled(magnitude: nat, significand: nat, exponent: int) -> bool {
    if exponent >= 0 {
        rounds_to(magnitude, significand * pow2(exponent as nat), 0)
    } else {
        rounds_to(magnitude, significand, (-exponent) as nat)
    }
}

/// A significand `m` at exponent `q` is where a value rounds to if the value is
/// within half a step of it, and on the half step only if `m` is even.
///
/// `n / 2^shift` is the value; `step` is 2^q in the same scale. A value below
/// the smallest normal significand of a positive exponent is not looked at:
/// there the steps are finer.
proof fn lemma_half_step(q: nat, m: nat, n: nat, shift: nat, step: nat)
    requires
        m <= 0x100_0000,
        q > 0 ==> m >= 0x80_0000,
        q > 0 && m == 0x80_0000 ==> m * step <= n,
        step == pow2(q) * pow2(shift),
        (2 * m - 1) * step <= 2 * n <= (2 * m + 1) * step,
        2 * n == (2 * m - 1) * step || 2 * n == (2 * m + 1) * step ==> m % 2 == 0,
    ensures
        rounds_to(packed(q, m), n, shift),
{
    let raw = q * 0x80_0000 + m;
    let unit = pow2(q);
    let scale = pow2(shift);
    lemma_pow2_pos(q);
    lemma_pow2_pos(shift);
    lemma_mul_strictly_positive(unit as int, scale as int);
    assert(raw % 2 == m % 2) by {
        assert(raw == 2 * (q * 0x40_0000) + m);
    }
    lemma_pattern_units(q, m);
    // The midpoint above, when the magnitude is the pattern itself.
    let above = magnitude_units(raw + 1);
    assert(above >= (m + 1) * unit) by {
        if m < 0x100_0000 {
            lemma_pattern_units(q, m + 1);
        } else {
            assert(raw + 1 == (q + 1) * 0x80_0000 + 0x80_0001);
            lemma_pattern_units(q + 1, 0x80_0001);
            lemma_pow2_unfold(q + 1);
            assert(0x80_0001 * (2 * unit) >= 0x100_0001 * unit) by (nonlinear_arith);
        }
    }
    assert((m * unit + above) * scale >= (2 * m + 1) * step) by {
        assert(m * unit + (m + 1) * unit == (2 * m + 1) * unit) by (nonlinear_arith);
        lemma_mul_inequality(((2 * m + 1) * unit) as int, (m * unit + above) as int, scale as int);
        lemma_mul_is_associative((2 * m + 1) as int, unit as int, scale as int);
    }
    // The midpoint below.
    if raw > 0 {
        let below = magnitude_units((raw - 1) as nat);
        lemma_units_step((raw - 1) as nat);
        if q > 0 && m == 0x80_0000 {
            lemma_mul_is_associative(m as int, unit as int, scale as int);
            assert((below + m * unit) * scale < 2 * (m * step)) by {
                lemma_mul_strict_inequality(
                    (below + m * unit) as int,
                    2 * (m * unit) as int,
                    scale as int,
                );
                lemma_mul_is_associative(2, (m * unit) as int, scale as int);
            }
        } else {
            lemma_pattern_units(q, (m - 1) as nat);
            assert((below + m * unit) * scale == (2 * m - 1) * step) by {
                assert((m - 1) * unit + m * unit == (2 * m - 1) * unit) by (nonlinear_arith);
                lemma_mul_is_associative(2 * m - 1, unit as int, scale as int);
            }
        }
        if raw > INFINITE_MAGNITUDE {
            let limit = INFINITE_MAGNITUDE as nat;
            lemma_units_monotone((limit - 1) as nat, (raw - 1) as nat);
            lemma_units_monotone(limit, raw);
            lemma_mul_inequality(
                (magnitude_units((limit - 1) as nat) + magnitude_units(limit)) as int,
                (below + m * unit) as int,
                scale as int,
            );
        }
    }
}

/// A change by less than a quarter of the step at a normal number is rounded
/// away. (Below a power of two the steps are half as long.)
pub proof fn lemma_small_change(q: nat, m: nat, n: nat)
    requires
        q > 0,
        0x80_0000 <= m < 0x100_0000,
        q * 0x80_0000 + m <= INFINITE_MAGNITUDE,
        4 * (n - m * pow2(q)) < pow2(q),
        4 * (m * pow2(q) - n) < pow2(q),
    ensures
        rounds_to(q * 0x80_0000 + m, n, 0),
{
    let magnitude = q * 0x80_0000 + m;
    let below = (q - 1) as nat;
    lemma2_to64();
    lemma_pow2_unfold(q);
    lemma_pattern_units(q, m);
    lemma_pattern_units(q, m + 1);
    lemma_mul_is_distributive_add_other_way(pow2(q) as int, m as int, 1);
    if m > 0x80_0000 {
        lemma_pattern_units(q, (m - 1) as nat);
        lemma_mul_is_distributive_sub_other_way(pow2(q) as int, m as int, 1);
    } else {
        assert(magnitude - 1 == below * 0x80_0000 + 0xff_ffff);
        lemma_pattern_units(below, 0xff_ffff);
    }
}

/// Where no smaller magnitude is what a value rounds to, some other one is.
proof fn lemma_rounding_exists_from(magnitude: nat, n: nat, shift: nat)
    requires
        magnitude <= INFINITE_MAGNITUDE,
        magnitude > 0 ==> {
            let midpoint = (magnitude_units((magnitude - 1) as nat) + magnitude_units(magnitude))
                * pow2(shift);
            midpoint < 2 * n || (midpoint == 2 * n && magnitude % 2 == 0)
        },
    ensures
        exists|result: nat| rounds_to(result, n, shift),
    decreases INFINITE_MAGNITUDE - magnitude,
{
    if !rounds_to(magnitude, n, shift) {
        lemma_rounding_exists_from(magnitude + 1, n, shift);
    }
}

/// Every value rounds to some magnitude.
pub proof fn lemma_nearest(n: nat, shift: nat)
    ensures
        rounds_to(nearest_magnitude(n, shift), n, shift),
{
    lemma_rounding_exists_from(0, n, shift);
}

/// Larger values round to larger magnitudes.
pub proof fn lemma_nearest_monotone(m: nat, n: nat, shift: nat)
    requires
        m <= n,
    ensures
        nearest_magnitude(m, shift) <= nearest_magnitude(n, shift) <= INFINITE_MAGNITUDE,
{
    lemma_nearest(m, shift);
    lemma_nearest(n, shift);
    lemma_rounding_monotone(nearest_magnitude(m, shift), nearest_magnitude(n, shift), m, n, shift);
}

/// A magnitude's own value, scaled, rounds to that magnitude.
pub proof fn lemma_nearest_exact(magnitude: nat, shift: nat)
    requires
        magnitude <= INFINITE_MAGNITUDE,
    ensures
        nearest_magnitude(magnitude_units(magnitude) * pow2(shift), shift) == magnitude,
{
    lemma_exact_rounds_to_itself(magnitude, shift);
    lemma_rounding_unique(magnitude, magnitude_units(magnitude) * pow2(shift), shift);
}

/// The two ways to write a scaled value agree on what it rounds to.
pub proof fn lemma_scaled_rounding(magnitude: nat, significand: nat, exponent: nat, shift: nat)
    requires
        rounds_scaled(magnitude, significand, exponent - shift),
    ensures
        rounds_to(magnitude, significand * pow2(exponent), shift),
{
    if exponent >= shift {
        let difference = (exponent - shift) as nat;
        lemma_rounding_scales(magnitude, significand * pow2(difference), 0, shift);
        lemma_pow2_adds(difference, shift);
        lemma_mul_is_associative(significand as int, pow2(difference) as int, pow2(shift) as int);
    } else {
        lemma_rounding_scales(magnitude, significand, (shift - exponent) as nat, exponent);
    }
}

/// How many bits `value` takes.
fn bit_length(value: u64) -> (length: u32)
    ensures
        length <= 64,
        value < pow2(length as nat),
        value > 0 ==> length > 0 && pow2((length - 1) as nat) <= value,
{
    let mut rest: u64 = value;
    let mut length: u32 = 0;
    proof {
        lemma2_to64();
        lemma2_to64_rest();
    }
    while rest > 0
        invariant
            length <= 64,
            rest < pow2((64 - length) as nat),
            rest as nat * pow2(length as nat) <= value < (rest + 1) * pow2(length as nat),
            value > 0 && rest == 0 ==> length > 0 && pow2((length - 1) as nat) <= value,
        decreases rest,
    {
        let ghost scale = pow2(length as nat);
        let ghost half = rest / 2;
        proof {
            lemma2_to64();
            lemma_pow2_unfold(length as nat + 1);
            lemma_pow2_unfold((64 - length) as nat);
            assert(half as nat * (2 * scale) == (2 * half) as nat * scale) by (nonlinear_arith);
            assert((half + 1) * (2 * scale) == (2 * half + 2) * scale) by (nonlinear_arith);
            lemma_mul_inequality(2 * half as int, rest as int, scale as int);
            lemma_mul_inequality(rest + 1, 2 * half + 2, scale as int);
            lemma_mul_inequality(1, rest as int, scale as int);
        }
        rest = rest / 2;
        length = length + 1;
    }
    proof {
        lemma_mul_basics(pow2(length as nat) as int);
    }
    length
}

/// The magnitude for a significand `m` at exponent `q`, infinite on overflow.
spec fn packed(q: nat, m: nat) -> nat {
    if q * 0x80_0000 + m < INFINITE_MAGNITUDE {
        q * 0x80_0000 + m
    } else {
        INFINITE_MAGNITUDE as nat
    }
}

/// A significand that fits needs no rounding.
proof fn lemma_exact_significand(significand: nat, q: nat, left: nat)
    requires
        significand * pow2(left) < 0x100_0000,
        q > 0 ==> significand * pow2(left) >= 0x80_0000,
    ensures
        rounds_scaled(packed(q, significand * pow2(left)), significand, (q + left) as int),
{
    let m = significand * pow2(left);
    let n = significand * pow2(q + left);
    let step = pow2(q) * pow2(0);
    lemma2_to64();
    lemma_pow2_pos(q);
    lemma_pow2_adds(left, q);
    lemma_mul_is_associative(significand as int, pow2(left) as int, pow2(q) as int);
    assert(n == m * step);
    assert((2 * m - 1) * step < 2 * (m * step) < (2 * m + 1) * step) by (nonlinear_arith)
        requires
            step > 0,
    ;
    lemma_half_step(q, m, n, 0, step);
}

/// A significand of fewer bits than are dropped is less than half a unit.
proof fn lemma_negligible_significand(significand: nat, length: nat, drop: nat)
    requires
        significand < pow2(length),
        length < drop,
    ensures
        rounds_scaled(0, significand, -drop),
{
    lemma2_to64();
    lemma_pow2_pos(drop);
    lemma_pow2_unfold(length + 1);
    if length + 1 < drop {
        lemma_pow2_strictly_increases(length + 1, drop);
    }
    let step = pow2(drop);
    lemma_mul_basics(step as int);
    assert((2 * 0nat - 1) * step == -step) by (nonlinear_arith);
    assert((2 * 0nat + 1) * step == step) by (nonlinear_arith);
    lemma_half_step(0, 0, significand, drop, step);
}

/// Dropping low bits and rounding half to even is rounding to nearest.
proof fn lemma_dropped_bits(significand: nat, exponent: int, q: nat, drop: nat, m: nat)
    requires
        q == exponent + drop,
        m <= 0x100_0000,
        q > 0 ==> m >= 0x80_0000,
        q > 0 && m == 0x80_0000 ==> m * pow2(drop) <= significand,
        (2 * m - 1) * pow2(drop) <= 2 * significand <= (2 * m + 1) * pow2(drop),
        2 * significand == (2 * m - 1) * pow2(drop) || 2 * significand == (2 * m + 1) * pow2(drop)
            ==> m % 2 == 0,
    ensures
        rounds_scaled(packed(q, m), significand, exponent),
{
    let d = pow2(drop);
    let scale: nat = if exponent >= 0 { pow2(exponent as nat) } else { 1 };
    let shift: nat = if exponent >= 0 { 0 } else { (-exponent) as nat };
    let n = significand * scale;
    let step = d * scale;
    lemma2_to64();
    lemma_pow2_pos(drop);
    lemma_pow2_pos(exponent as nat);
    if exponent >= 0 {
        lemma_pow2_adds(drop, exponent as nat);
    } else {
        lemma_pow2_adds(q, shift);
    }
    lemma_mul_basics(d as int);
    lemma_mul_basics(pow2(q) as int);
    lemma_mul_basics(significand as int);
    assert(step == pow2(q) * pow2(shift));
    lemma_mul_is_associative(2 * m - 1, d as int, scale as int);
    lemma_mul_is_associative((2 * m + 1) as int, d as int, scale as int);
    lemma_mul_is_associative(2, significand as int, scale as int);
    lemma_mul_is_associative(m as int, d as int, scale as int);
    lemma_mul_inequality((2 * m - 1) * d, 2 * significand as int, scale as int);
    lemma_mul_inequality(2 * significand as int, ((2 * m + 1) * d) as int, scale as int);
    if m * d <= significand {
        lemma_mul_inequality((m * d) as int, significand as int, scale as int);
    }
    if (2 * m - 1) * d != 2 * significand {
        lemma_mul_strict_inequality((2 * m - 1) * d, 2 * significand as int, scale as int);
    }
    if (2 * m + 1) * d != 2 * significand {
        lemma_mul_strict_inequality(2 * significand as int, ((2 * m + 1) * d) as int, scale as int);
    }
    lemma_half_step(q, m, n, shift, step);
}

/// Dropping `drop` of `length` bits leaves `length - drop` of them.
proof fn lemma_quotient_bounds(significand: nat, length: nat, drop: nat)
    requires
        drop <= length,
        significand < pow2(length),
    ensures
        significand / pow2(drop) < pow2((length - drop) as nat),
        drop < length && pow2((length - 1) as nat) <= significand ==> pow2(
            (length - drop - 1) as nat,
        ) <= significand / pow2(drop),
{
    let d = pow2(drop);
    lemma_pow2_pos(drop);
    lemma_pow2_adds((length - drop) as nat, drop);
    lemma_fundamental_div_mod(significand as int, d as int);
    lemma_mod_bound(significand as int, d as int);
    let quotient = significand / d;
    let bound = pow2((length - drop) as nat);
    if quotient >= bound {
        lemma_mul_inequality(bound as int, quotient as int, d as int);
    }
    if drop < length && pow2((length - 1) as nat) <= significand {
        let least = pow2((length - drop - 1) as nat);
        lemma_pow2_adds((length - drop - 1) as nat, drop);
        if quotient < least {
            lemma_mul_inequality((quotient + 1) as int, least as int, d as int);
            assert((quotient + 1) * d == d * quotient + d) by (nonlinear_arith);
            }
    }
}

/// Rounds `significand * 2^exponent` units to a magnitude.
pub fn round_significand(significand: u64, exponent: i32) -> (magnitude: u32)
    requires
        significand < 0x8000_0000_0000_0000,
        -2000 <= exponent <= 2000,
    ensures
        magnitude <= INFINITE_MAGNITUDE,
        rounds_scaled(magnitude as nat, significand as nat, exponent as int),
{
    if significand == 0 {
        proof {
            let shift: nat = if exponent >= 0 { 0 } else { (-exponent) as nat };
            lemma_exact_rounds_to_itself(0, shift);
            lemma_mul_basics(pow2(shift) as int);
            lemma_mul_basics(pow2(exponent as nat) as int);
        }
        return 0;
    }
    let length: i32 = bit_length(significand) as i32;
    proof {
        lemma2_to64();
        lemma2_to64_rest();
        if length > 63 {
            assert(length == 64);
            assert(pow2(63) <= significand);
        }
    }
    // The exponent of the result's last bit.
    let q: i32 = if exponent + length > 24 { exponent + length - 24 } else { 0 };
    let drop: i32 = q - exponent;
    let m: u64;
    if drop <= 0 {
        let left: u64 = (-drop) as u64;
        proof {
            let scale = pow2(left as nat);
            lemma_pow2_pos(left as nat);
            lemma_pow2_adds(length as nat, left as nat);
            if length + left < 24 {
                lemma_pow2_strictly_increases((length + left) as nat, 24);
            }
            lemma_mul_strict_inequality(
                significand as int,
                pow2(length as nat) as int,
                scale as int,
            );
            if q > 0 {
                lemma_pow2_adds((length - 1) as nat, left as nat);
                lemma_mul_inequality(
                    pow2((length - 1) as nat) as int,
                    significand as int,
                    scale as int,
                );
            }
            lemma_u64_shl_is_mul(significand, left);
            lemma_exact_significand(significand as nat, q as nat, left as nat);
        }
        m = significand << left;
    } else if drop > length {
        m = 0;
        proof {
            lemma_negligible_significand(significand as nat, length as nat, drop as nat);
        }
    } else {
        let right: u64 = drop as u64;
        proof {
            lemma_pow2_pos(right as nat);
            lemma_pow2_unfold(right as nat);
            if right < 63 {
                lemma_pow2_strictly_increases(right as nat, 63);
            }
            lemma_u64_shr_is_div(significand, right);
            lemma_u64_shl_is_mul(1, right);
            lemma_fundamental_div_mod(significand as int, pow2(right as nat) as int);
            lemma_mod_bound(significand as int, pow2(right as nat) as int);
            lemma_quotient_bounds(significand as nat, length as nat, right as nat);
            if length - right < 24 {
                lemma_pow2_strictly_increases((length - right) as nat, 24);
            }
        }
        let whole: u64 = 1u64 << right;
        let half: u64 = whole / 2;
        let quotient: u64 = significand >> right;
        proof {
            lemma_mul_is_commutative(quotient as int, whole as int);
        }
        let rest: u64 = significand - quotient * whole;
        m = if rest > half || (rest == half && quotient % 2 == 1) { quotient + 1 } else { quotient };
        proof {
            let d = pow2(right as nat);
            let k = quotient as int;
            assert((2 * k - 1) * d == 2 * (k * d) - d) by (nonlinear_arith);
            assert((2 * k + 1) * d == 2 * (k * d) + d) by (nonlinear_arith);
            assert((2 * k + 3) * d == 2 * (k * d) + 3 * d) by (nonlinear_arith);
            lemma_dropped_bits(
                significand as nat,
                exponent as int,
                q as nat,
                right as nat,
                m as nat,
            );
        }
    }
    let raw: u64 = (q as u64) * 0x80_0000 + m;
    if raw < INFINITE_MAGNITUDE as u64 {
        raw as u32
    } else {
        INFINITE_MAGNITUDE
    }
}

/// Small magnitudes are their own value, and eight bits further up each step of
/// the exponent doubles the value.
pub proof fn lemma_units_double(magnitude: nat)
    ensures
        magnitude <= 0x100_0000 ==> magnitude_units(magnitude) == magnitude,
        magnitude >= 0x80_0000 ==> magnitude_units(magnitude + 0x80_0000) == 2 * magnitude_units(
            magnitude,
        ),
{
    lemma2_to64();
    if magnitude < 0x80_0000 {
        lemma_pattern_units(0, magnitude);
    } else {
        let exponent = magnitude / 0x80_0000;
        let fraction = magnitude % 0x80_0000;
        assert((magnitude + 0x80_0000) / 0x80_0000 == exponent + 1);
        assert((magnitude + 0x80_0000) % 0x80_0000 == fraction);
        lemma_pow2_unfold(exponent);
        lemma_mul_is_associative(
            (0x80_0000 + fraction) as int,
            2,
            pow2((exponent - 1) as nat) as int,
        );
        lemma_mul_is_associative(
            2,
            (0x80_0000 + fraction) as int,
            pow2((exponent - 1) as nat) as int,
        );
        if magnitude <= 0x100_0000 {
            lemma_pattern_units(0, magnitude);
        }
    }
}

/// How far apart two values are.
pub open spec fn distance(a: int, b: int) -> int {
    if a <= b {
        b - a
    } else {
        a - b
    }
}

/// No magnitude is nearer to a value than the one that it rounds to, and one
/// that is equally near is odd.
pub proof fn lemma_nothing_is_nearer(n: nat, shift: nat, other: nat)
    requires
        other <= INFINITE_MAGNITUDE,
    ensures
        ({
            let result = nearest_magnitude(n, shift);
            let away = distance((magnitude_units(result) * pow2(shift)) as int, n as int);
            let other_away = distance((magnitude_units(other) * pow2(shift)) as int, n as int);
            &&& result <= INFINITE_MAGNITUDE
            &&& away <= other_away
            &&& away == other_away && other != result ==> result % 2 == 0
        }),
{
    let result = nearest_magnitude(n, shift);
    let p = pow2(shift);
    let (u, v) = (magnitude_units(result), magnitude_units(other));
    lemma_nearest(n, shift);
    lemma_pow2_pos(shift);
    if other > result {
        let next = magnitude_units(result + 1);
        lemma_units_monotone(result + 1, other);
        lemma_units_monotone(result, other);
        lemma_mul_strict_inequality(u as int, v as int, p as int);
        lemma_mul_is_distributive_add_other_way(p as int, u as int, next as int);
        if next < v {
            lemma_mul_strict_inequality(next as int, v as int, p as int);
        }
    } else if other < result {
        let last = magnitude_units((result - 1) as nat);
        lemma_units_monotone(other, (result - 1) as nat);
        lemma_units_monotone(other, result);
        lemma_mul_strict_inequality(v as int, u as int, p as int);
        lemma_mul_is_distributive_add_other_way(p as int, last as int, u as int);
        if v < last {
            lemma_mul_strict_inequality(v as int, last as int, p as int);
        }
    }
}

/// Below two, neighbouring magnitudes are at most 2^-23 apart.
proof fn lemma_short_steps(magnitude: nat)
    requires
        magnitude < 0x4000_0000,
    ensures
        magnitude_units(magnitude + 1) - magnitude_units(magnitude) <= pow2(126),
{
    lemma2_to64();
    lemma_pow2_pos(126);
    if magnitude < 0x80_0000 {
        lemma_pattern_units(0, magnitude);
        lemma_pattern_units(0, magnitude + 1);
        lemma_pow2_strictly_increases(0, 126);
    } else {
        let q = (magnitude / 0x80_0000 - 1) as nat;
        let m = (0x80_0000 + magnitude % 0x80_0000) as nat;
        lemma_pattern_units(q, m);
        lemma_pattern_units(q, m + 1);
        assert(magnitude == q * 0x80_0000 + m);
        lemma_mul_is_distributive_add_other_way(pow2(q) as int, m as int, 1);
        if q < 126 {
            lemma_pow2_strictly_increases(q, 126);
        }
    }
}

/// A value of at most two is rounded by at most 2^-24.
pub proof fn lemma_rounding_error(n: nat, shift: nat)
    requires
        n <= pow2(150) * pow2(shift),
    ensures
        distance(
            (magnitude_units(nearest_magnitude(n, shift)) * pow2(shift)) as int,
            n as int,
        ) <= pow2(125) * pow2(shift),
{
    let result = nearest_magnitude(n, shift);
    let p = pow2(shift);
    let u = magnitude_units(result);
    lemma_nearest(n, shift);
    lemma_pow2_pos(shift);
    lemma_pow2_unfold(126);
    lemma2_to64();
    lemma_pow2_adds(23, 127);
    assert(magnitude_units(0x4000_0000) == pow2(150));
    lemma_nearest_monotone(n, pow2(150) * p, shift);
    lemma_nearest_exact(0x4000_0000, shift);
    assert(2 * (pow2(125) * p) == pow2(126) * p) by (nonlinear_arith)
        requires
            pow2(126) == 2 * pow2(125),
    ;
    if result > 0 {
        let last = magnitude_units((result - 1) as nat);
        lemma_short_steps((result - 1) as nat);
        lemma_mul_is_distributive_add_other_way(p as int, last as int, u as int);
        lemma_mul_inequality(u - last, pow2(126) as int, p as int);
        lemma_mul_is_distributive_sub_other_way(p as int, u as int, last as int);
    }
    if result < 0x4000_0000 {
        let next = magnitude_units(result + 1);
        lemma_short_steps(result);
        lemma_mul_is_distributive_add_other_way(p as int, u as int, next as int);
        lemma_mul_inequality(next - u, pow2(126) as int, p as int);
        lemma_mul_is_distributive_sub_other_way(p as int, next as int, u as int);
    }
}

} // verus!
