//! IEEE 754 numbers as bit patterns.
//!
//! Audio values arrive, are stored and are mixed in single precision. Here a
//! number is its bit pattern, and comparison, clamping, addition and
//! multiplication are integer operations on it, each with the result that the
//! standard prescribes: the exact result rounded to nearest, ties to even.

use vstd::prelude::*;
use vstd::arithmetic::power2::*;
use vstd::arithmetic::mul::*;
use vstd::bits::*;

use crate::rounding::{round_significand, INFINITE_MAGNITUDE};

verus! {

/// The pattern that a result has which is not a number.
pub const NAN_BITS: u32 = 0x7fc0_0000;

/// The pattern of one.
pub const ONE_BITS: u32 = 0x3f80_0000;

/// The bit that makes a number negative.
const SIGN_BIT: u32 = 0x8000_0000;

/// The magnitude of the infinities in double precision.
const DOUBLE_INFINITE_MAGNITUDE: u64 = 0x7ff0_0000_0000_0000;

/// The bit that makes a double-precision number negative.
const DOUBLE_SIGN_BIT: u64 = 0x8000_0000_0000_0000;

/// A single-precision number.
#[derive(Clone, Copy, Debug)]
pub struct Single {
    /// The bit pattern.
    pub bits: u32,
}

/// A double-precision number.
#[derive(Clone, Copy, Debug)]
pub struct Double {
    /// The bit pattern.
    pub bits: u64,
}

/// The number with this sign and this magnitude.
pub open spec fn signed(negative: bool, magnitude: nat) -> Single {
    Single { bits: (if negative { magnitude + 0x8000_0000 } else { magnitude }) as u32 }
}

/// The value of a finite double-precision magnitude in units of 2^-1074.
pub open spec fn double_magnitude_units(magnitude: nat) -> nat {
    let exponent = magnitude / 0x10_0000_0000_0000;
    let fraction = magnitude % 0x10_0000_0000_0000;
    if exponent == 0 {
        fraction
    } else {
        (0x10_0000_0000_0000 + fraction) * pow2((exponent - 1) as nat)
    }
}

impl Double {
    /// Whether the sign bit is set.
    pub open spec fn negative(self) -> bool {
        self.bits >= 0x8000_0000_0000_0000
    }

    /// The pattern without its sign bit.
    pub open spec fn magnitude(self) -> nat {
        self.bits as nat % 0x8000_0000_0000_0000
    }

    /// Whether this is a number and not an infinity.
    pub open spec fn finite(self) -> bool {
        self.magnitude() < 0x7ff0_0000_0000_0000
    }

    /// Whether this is not a number.
    pub open spec fn not_a_number(self) -> bool {
        self.magnitude() > 0x7ff0_0000_0000_0000
    }

    /// Whether this is at least zero. Both zeros are.
    pub open spec fn at_least_zero(self) -> bool {
        !self.not_a_number() && (!self.negative() || self.magnitude() == 0)
    }

    /// The nearest single-precision number.
    pub open spec fn narrowed(self) -> Single {
        if self.not_a_number() {
            Single { bits: NAN_BITS }
        } else if !self.finite() {
            signed(self.negative(), INFINITE_MAGNITUDE as nat)
        } else {
            signed(
                self.negative(),
                crate::rounding::nearest_magnitude(double_magnitude_units(self.magnitude()), 925),
            )
        }
    }

    /// Whether this is finite and at least zero.
    pub fn is_finite_and_at_least_zero(self) -> (result: bool)
        ensures
            result == (self.finite() && self.at_least_zero()),
    {
        let magnitude: u64 = self.bits % DOUBLE_SIGN_BIT;
        magnitude < DOUBLE_INFINITE_MAGNITUDE && (self.bits < DOUBLE_SIGN_BIT || magnitude == 0)
    }

    /// Rounds to single precision.
    pub fn narrow(self) -> (result: Single)
        ensures
            result == self.narrowed(),
    {
        let magnitude: u64 = self.bits % DOUBLE_SIGN_BIT;
        let sign: u32 = if self.bits >= DOUBLE_SIGN_BIT { SIGN_BIT } else { 0 };
        if magnitude > DOUBLE_INFINITE_MAGNITUDE {
            Single { bits: NAN_BITS }
        } else if magnitude == DOUBLE_INFINITE_MAGNITUDE {
            Single { bits: sign + INFINITE_MAGNITUDE }
        } else {
            let exponent: u64 = magnitude / 0x10_0000_0000_0000;
            let fraction: u64 = magnitude % 0x10_0000_0000_0000;
            let significand: u64 = if exponent == 0 {
                fraction
            } else {
                0x10_0000_0000_0000 + fraction
            };
            let scale: i32 = if exponent == 0 { 0 } else { exponent as i32 - 1 };
            let rounded: u32 = round_significand(significand, scale - 925);
            proof {
                let units = double_magnitude_units(magnitude as nat);
                lemma2_to64();
                lemma_mul_basics(significand as int);
                crate::rounding::lemma_scaled_rounding(
                    rounded as nat,
                    significand as nat,
                    scale as nat,
                    925,
                );
                crate::rounding::lemma_rounding_unique(rounded as nat, units, 925);
            }
            Single { bits: sign + rounded }
        }
    }
}

impl Single {
    /// Whether the sign bit is set.
    pub open spec fn negative(self) -> bool {
        self.bits >= 0x8000_0000
    }

    /// The pattern without its sign bit.
    pub open spec fn magnitude(self) -> nat {
        self.bits as nat % 0x8000_0000
    }

    /// Whether this is not a number.
    pub open spec fn not_a_number(self) -> bool {
        self.magnitude() > INFINITE_MAGNITUDE
    }

    /// Whether this is one of the two infinities.
    pub open spec fn infinite(self) -> bool {
        self.magnitude() == INFINITE_MAGNITUDE
    }

    /// Whether this is a number and not an infinity.
    pub open spec fn finite(self) -> bool {
        self.magnitude() < INFINITE_MAGNITUDE
    }

    /// The place in the order of the numbers; both zeros have the same.
    pub open spec fn rank(self) -> int {
        if self.negative() {
            -self.magnitude()
        } else {
            self.magnitude() as int
        }
    }

    /// The value of a finite number in units of 2^-149.
    pub open spec fn units(self) -> int {
        let units = crate::rounding::magnitude_units(self.magnitude());
        if self.negative() {
            -units
        } else {
            units as int
        }
    }

    /// Whether this is a number smaller than the number `other`.
    pub open spec fn below(self, other: Single) -> bool {
        !self.not_a_number() && !other.not_a_number() && self.rank() < other.rank()
    }

    /// The nearest number between `low` and `high`. What is not a number stays.
    pub open spec fn clamped(self, low: Single, high: Single) -> Single {
        if self.below(low) {
            low
        } else if high.below(self) {
            high
        } else {
            self
        }
    }

    /// Whether this is a number from `low` to `high`.
    pub open spec fn within(self, low: Single, high: Single) -> bool {
        !self.not_a_number() && low.rank() <= self.rank() <= high.rank()
    }

    /// The rounded product.
    pub open spec fn product(self, other: Single) -> Single {
        let negative = self.negative() != other.negative();
        if self.not_a_number() || other.not_a_number() {
            Single { bits: NAN_BITS }
        } else if self.infinite() || other.infinite() {
            if self.magnitude() == 0 || other.magnitude() == 0 {
                Single { bits: NAN_BITS }
            } else {
                signed(negative, INFINITE_MAGNITUDE as nat)
            }
        } else {
            signed(
                negative,
                crate::rounding::nearest_magnitude(
                    crate::rounding::magnitude_units(self.magnitude())
                        * crate::rounding::magnitude_units(other.magnitude()),
                    149,
                ),
            )
        }
    }

    /// The rounded sum. A sum of exactly zero is negative only if both
    /// summands are.
    pub open spec fn sum(self, other: Single) -> Single {
        if self.not_a_number() || other.not_a_number() {
            Single { bits: NAN_BITS }
        } else if self.infinite() && other.infinite() && self.negative() != other.negative() {
            Single { bits: NAN_BITS }
        } else if self.infinite() {
            self
        } else if other.infinite() {
            other
        } else {
            let total = self.units() + other.units();
            if total == 0 {
                signed(self.negative() && other.negative(), 0)
            } else if total < 0 {
                signed(true, crate::rounding::nearest_magnitude((-total) as nat, 0))
            } else {
                signed(false, crate::rounding::nearest_magnitude(total as nat, 0))
            }
        }
    }

    /// The single-precision number nearest to an integer.
    pub open spec fn of_integer(value: int) -> Single {
        if value < 0 {
            signed(true, crate::rounding::nearest_magnitude((-value * pow2(149)) as nat, 0))
        } else {
            signed(false, crate::rounding::nearest_magnitude((value * pow2(149)) as nat, 0))
        }
    }

    /// Whether this is not a number.
    pub fn is_nan(self) -> (result: bool)
        ensures
            result == self.not_a_number(),
    {
        self.bits % SIGN_BIT > INFINITE_MAGNITUDE
    }

    /// The place in the order of the numbers.
    fn order(self) -> (result: i64)
        ensures
            result == self.rank(),
    {
        let magnitude: i64 = (self.bits % SIGN_BIT) as i64;
        if self.bits >= SIGN_BIT {
            -magnitude
        } else {
            magnitude
        }
    }

    /// Whether this is a number smaller than the number `other`.
    pub fn is_below(self, other: Single) -> (result: bool)
        ensures
            result == self.below(other),
    {
        !self.is_nan() && !other.is_nan() && self.order() < other.order()
    }

    /// Moves a number into the range from `low` to `high`.
    pub fn clamp_to(self, low: Single, high: Single) -> (result: Single)
        ensures
            result == self.clamped(low, high),
    {
        if self.is_below(low) {
            low
        } else if high.is_below(self) {
            high
        } else {
            self
        }
    }

    /// The significand and the exponent, in units of 2^-149, of a finite number.
    fn parts(self) -> (result: (u32, u32))
        requires
            self.finite(),
        ensures
            result.0 < 0x100_0000,
            result.1 < 254,
            result.1 > 0 ==> result.0 >= 0x80_0000,
            self.magnitude() == result.1 * 0x80_0000 + result.0,
            crate::rounding::magnitude_units(self.magnitude()) == result.0 * pow2(result.1 as nat),
    {
        let magnitude: u32 = self.bits % SIGN_BIT;
        let exponent: u32 = magnitude / 0x80_0000;
        let fraction: u32 = magnitude % 0x80_0000;
        if exponent == 0 {
            proof {
                lemma2_to64();
                lemma_mul_basics(fraction as int);
            }
            (fraction, 0)
        } else {
            (0x80_0000 + fraction, exponent - 1)
        }
    }

    /// Multiplies.
    pub fn times(self, other: Single) -> (result: Single)
        ensures
            result == self.product(other),
    {
        let sign: u32 = if (self.bits >= SIGN_BIT) != (other.bits >= SIGN_BIT) {
            SIGN_BIT
        } else {
            0
        };
        let magnitude: u32 = self.bits % SIGN_BIT;
        let other_magnitude: u32 = other.bits % SIGN_BIT;
        if magnitude > INFINITE_MAGNITUDE || other_magnitude > INFINITE_MAGNITUDE {
            Single { bits: NAN_BITS }
        } else if magnitude == INFINITE_MAGNITUDE || other_magnitude == INFINITE_MAGNITUDE {
            if magnitude == 0 || other_magnitude == 0 {
                Single { bits: NAN_BITS }
            } else {
                Single { bits: sign + INFINITE_MAGNITUDE }
            }
        } else {
            let (a, i) = self.parts();
            let (b, j) = other.parts();
            proof {
                assert(a * b <= 0x1_0000_0000_0000) by (nonlinear_arith)
                    requires
                        a < 0x100_0000,
                        b < 0x100_0000,
                ;
            }
            let significand: u64 = a as u64 * b as u64;
            let rounded: u32 = round_significand(significand, i as i32 + j as i32 - 149);
            proof {
                let units = crate::rounding::magnitude_units(magnitude as nat);
                let other_units = crate::rounding::magnitude_units(other_magnitude as nat);
                lemma_pow2_adds(i as nat, j as nat);
                assert((a * pow2(i as nat)) * (b * pow2(j as nat)) == (a * b) * (pow2(i as nat)
                    * pow2(j as nat))) by (nonlinear_arith);
                crate::rounding::lemma_scaled_rounding(
                    rounded as nat,
                    significand as nat,
                    (i + j) as nat,
                    149,
                );
                crate::rounding::lemma_rounding_unique(rounded as nat, units * other_units, 149);
            }
            Single { bits: sign + rounded }
        }
    }

    /// Adds a number of no larger magnitude to a finite number.
    fn plus_smaller(self, other: Single) -> (result: Single)
        requires
            self.finite(),
            other.magnitude() <= self.magnitude(),
        ensures
            result == self.sum(other),
    {
        let sign: u32 = if self.bits >= SIGN_BIT { SIGN_BIT } else { 0 };
        let same_sign: bool = (self.bits >= SIGN_BIT) == (other.bits >= SIGN_BIT);
        let ghost units = crate::rounding::magnitude_units(self.magnitude());
        let ghost other_units = crate::rounding::magnitude_units(other.magnitude());
        proof {
            crate::rounding::lemma_units_monotone(other.magnitude(), self.magnitude());
        }
        if !same_sign && self.bits % SIGN_BIT == other.bits % SIGN_BIT {
            return Single { bits: 0 };
        }
        let (a, i) = self.parts();
        let (b, j) = other.parts();
        let distance: u32 = i - j;
        if distance >= 30 {
            proof {
                let total: nat = if same_sign { units + other_units } else {
                    (units - other_units) as nat
                };
                lemma2_to64();
                lemma_pow2_adds(24, j as nat);
                lemma_pow2_adds(26, j as nat);
                lemma_pow2_pos(j as nat);
                lemma_mul_strict_inequality(b as int, pow2(24) as int, pow2(j as nat) as int);
                lemma_pow2_strictly_increases((26 + j) as nat, i as nat);
                crate::rounding::lemma_small_change(i as nat, a as nat, total);
                crate::rounding::lemma_rounding_unique(self.magnitude(), total, 0);
            }
            return self;
        }
        proof {
            lemma2_to64();
            lemma_pow2_adds(distance as nat, j as nat);
            lemma_pow2_pos(distance as nat);
            lemma_pow2_pos(j as nat);
            if distance < 29 {
                lemma_pow2_strictly_increases(distance as nat, 29);
            }
            assert(a * pow2(distance as nat) <= 0x100_0000 * 0x2000_0000) by (nonlinear_arith)
                requires
                    a <= 0x100_0000,
                    pow2(distance as nat) <= 0x2000_0000,
            ;
            lemma_u64_shl_is_mul(a as u64, distance as u64);
            lemma_mul_is_associative(
                a as int,
                pow2(distance as nat) as int,
                pow2(j as nat) as int,
            );
            lemma_mul_inequality_converse(
                b as int,
                a * pow2(distance as nat),
                pow2(j as nat) as int,
            );
        }
        let aligned: u64 = (a as u64) << (distance as u64);
        let significand: u64 = if same_sign { aligned + b as u64 } else { aligned - b as u64 };
        let rounded: u32 = round_significand(significand, j as i32);
        proof {
            let total = significand as nat * pow2(j as nat);
            lemma_mul_is_distributive_add_other_way(pow2(j as nat) as int, aligned as int, b as int);
            lemma_mul_is_distributive_sub_other_way(pow2(j as nat) as int, aligned as int, b as int);
            crate::rounding::lemma_rounding_unique(rounded as nat, total, 0);
            if total == 0 {
                crate::rounding::lemma_exact_rounds_to_itself(0, 0);
                crate::rounding::lemma_rounding_unique(0, total, 0);
            }
        }
        Single { bits: sign + rounded }
    }

    /// Adds.
    pub fn plus(self, other: Single) -> (result: Single)
        ensures
            result == self.sum(other),
    {
        let magnitude: u32 = self.bits % SIGN_BIT;
        let other_magnitude: u32 = other.bits % SIGN_BIT;
        if magnitude > INFINITE_MAGNITUDE || other_magnitude > INFINITE_MAGNITUDE {
            Single { bits: NAN_BITS }
        } else if magnitude == INFINITE_MAGNITUDE {
            if other_magnitude == INFINITE_MAGNITUDE && self.bits != other.bits {
                Single { bits: NAN_BITS }
            } else {
                self
            }
        } else if other_magnitude == INFINITE_MAGNITUDE {
            other
        } else if other_magnitude <= magnitude {
            self.plus_smaller(other)
        } else {
            other.plus_smaller(self)
        }
    }

    /// The single-precision number nearest to `value`.
    pub fn from_integer(value: i32) -> (result: Single)
        ensures
            result == Single::of_integer(value as int),
    {
        let sign: u32 = if value < 0 { SIGN_BIT } else { 0 };
        let size: u64 = if value < 0 { (-(value as i64)) as u64 } else { value as u64 };
        let rounded: u32 = round_significand(size, 149);
        proof {
            crate::rounding::lemma_rounding_unique(rounded as nat, size as nat * pow2(149), 0);
        }
        Single { bits: sign + rounded }
    }
}

impl Single {
    /// Whether this is a number of at least zero that is not infinite.
    pub open spec fn moderate(self) -> bool {
        self.finite() && self.rank() >= 0
    }
}

/// The value of one in units of 2^-149.
proof fn lemma_one_units()
    ensures
        crate::rounding::magnitude_units(ONE_BITS as nat) == pow2(149),
{
    lemma2_to64();
    lemma_pow2_adds(23, 126);
}

/// Multiplication keeps the order of numbers of at least zero.
pub proof fn lemma_product_monotone(a: Single, b: Single, c: Single, d: Single)
    requires
        a.moderate(),
        b.moderate(),
        c.moderate(),
        d.moderate(),
        a.rank() <= b.rank(),
        c.rank() <= d.rank(),
    ensures
        !a.product(c).not_a_number(),
        !b.product(d).not_a_number(),
        0 <= a.product(c).rank() <= b.product(d).rank(),
{
    let x = crate::rounding::magnitude_units(a.magnitude());
    let y = crate::rounding::magnitude_units(b.magnitude());
    let z = crate::rounding::magnitude_units(c.magnitude());
    let w = crate::rounding::magnitude_units(d.magnitude());
    crate::rounding::lemma_units_monotone(a.magnitude(), b.magnitude());
    crate::rounding::lemma_units_monotone(c.magnitude(), d.magnitude());
    assert(x * z <= y * w) by (nonlinear_arith)
        requires
            x <= y,
            z <= w,
    ;
    crate::rounding::lemma_nearest_monotone(x * z, y * w, 149);
    crate::rounding::lemma_nearest_exact(0, 149);
    lemma_mul_basics(x as int);
    lemma_mul_basics(y as int);
    lemma_mul_basics(z as int);
    lemma_mul_basics(w as int);
    lemma_mul_basics(pow2(149) as int);
}

/// Multiplying by one changes nothing.
pub proof fn lemma_product_with_one(a: Single)
    requires
        a.moderate(),
    ensures
        a.product(Single { bits: ONE_BITS }).rank() == a.rank(),
        a.product(Single { bits: ONE_BITS }).finite(),
{
    lemma_one_units();
    crate::rounding::lemma_nearest_exact(a.magnitude(), 149);
}

/// Multiplying by zero gives zero.
pub proof fn lemma_product_with_zero(a: Single, zero: Single)
    requires
        a.moderate(),
        zero.rank() == 0,
    ensures
        a.product(zero).moderate() && a.product(zero).rank() == 0,
        zero.product(a).moderate() && zero.product(a).rank() == 0,
{
    crate::rounding::lemma_nearest_exact(0, 149);
    lemma_mul_basics(crate::rounding::magnitude_units(a.magnitude()) as int);
    lemma_mul_basics(pow2(149) as int);
}

/// Addition keeps the order of numbers of at least zero.
pub proof fn lemma_sum_monotone(a: Single, b: Single, c: Single, d: Single)
    requires
        a.moderate(),
        b.moderate(),
        c.moderate(),
        d.moderate(),
        a.rank() <= b.rank(),
        c.rank() <= d.rank(),
    ensures
        !a.sum(c).not_a_number(),
        !b.sum(d).not_a_number(),
        0 <= a.sum(c).rank() <= b.sum(d).rank(),
{
    let x = crate::rounding::magnitude_units(a.magnitude());
    let y = crate::rounding::magnitude_units(b.magnitude());
    let z = crate::rounding::magnitude_units(c.magnitude());
    let w = crate::rounding::magnitude_units(d.magnitude());
    crate::rounding::lemma_units_monotone(a.magnitude(), b.magnitude());
    crate::rounding::lemma_units_monotone(c.magnitude(), d.magnitude());
    crate::rounding::lemma_nearest_monotone(x + z, y + w, 0);
}

/// The order of two summands does not matter.
pub proof fn lemma_sum_commutes(a: Single, b: Single)
    ensures
        a.sum(b) == b.sum(a),
{
}

/// Adding zero changes nothing.
pub proof fn lemma_sum_with_zero(a: Single, zero: Single)
    requires
        a.moderate(),
        zero.rank() == 0,
    ensures
        zero.sum(a).rank() == a.rank(),
        zero.sum(a).finite(),
{
    crate::rounding::lemma_nearest_exact(a.magnitude(), 0);
    crate::rounding::lemma_units_monotone(0, a.magnitude());
    lemma2_to64();
}

impl PartialEq for Single {
    /// Whether these are equal numbers: both zeros are, and what is not a
    /// number equals nothing.
    fn eq(&self, other: &Single) -> (result: bool) {
        !self.is_nan() && !other.is_nan() && self.order() == other.order()
    }
}

impl vstd::std_specs::cmp::PartialEqSpecImpl for Single {
    open spec fn obeys_eq_spec() -> bool {
        true
    }

    open spec fn eq_spec(&self, other: &Single) -> bool {
        !self.not_a_number() && !other.not_a_number() && self.rank() == other.rank()
    }
}

/// A pattern is its sign and its magnitude; numbers stop at the infinite
/// magnitude.
pub proof fn lemma_single_pattern(v: Single)
    ensures
        v.negative() ==> v.bits == 0x8000_0000 + v.magnitude() && v.rank() == -v.magnitude(),
        !v.negative() ==> v.bits == v.magnitude() && v.rank() == v.magnitude(),
        v.magnitude() < 0x8000_0000,
        v.not_a_number() <==> 0x7f80_0000 < v.bits < 0x8000_0000 || 0xff80_0000 < v.bits,
        v.infinite() <==> v.bits == 0x7f80_0000 || v.bits == 0xff80_0000,
        v.finite() <==> v.bits < 0x7f80_0000 || 0x8000_0000 <= v.bits < 0xff80_0000,
{
}

/// What a double-precision pattern is.
pub proof fn lemma_double_pattern(v: Double)
    ensures
        v.negative() ==> v.bits == 0x8000_0000_0000_0000 + v.magnitude(),
        !v.negative() ==> v.bits == v.magnitude(),
        v.finite() && v.at_least_zero() <==> v.bits < 0x7ff0_0000_0000_0000 || v.bits
            == 0x8000_0000_0000_0000,
        v.not_a_number() <==> 0x7ff0_0000_0000_0000 < v.bits < 0x8000_0000_0000_0000
            || 0xfff0_0000_0000_0000 < v.bits,
        v.finite() <==> v.bits < 0x7ff0_0000_0000_0000 || 0x8000_0000_0000_0000 <= v.bits
            < 0xfff0_0000_0000_0000,
{
}

/// Small double-precision magnitudes are their own value, and each step of the
/// exponent doubles the value.
pub proof fn lemma_double_units_double(magnitude: nat)
    ensures
        magnitude < 0x20_0000_0000_0000 ==> double_magnitude_units(magnitude) == magnitude,
        magnitude >= 0x10_0000_0000_0000 ==> double_magnitude_units(
            magnitude + 0x10_0000_0000_0000,
        ) == 2 * double_magnitude_units(magnitude),
{
    lemma2_to64();
    if magnitude >= 0x10_0000_0000_0000 {
        let exponent = magnitude / 0x10_0000_0000_0000;
        let fraction = magnitude % 0x10_0000_0000_0000;
        let m = 0x10_0000_0000_0000 + fraction;
        let p = pow2((exponent - 1) as nat);
        assert((magnitude + 0x10_0000_0000_0000) / 0x10_0000_0000_0000 == exponent + 1);
        assert((magnitude + 0x10_0000_0000_0000) % 0x10_0000_0000_0000 == fraction);
        lemma_pow2_unfold(exponent);
        assert(m * (2 * p) == 2 * (m * p)) by (nonlinear_arith);
        if magnitude < 0x20_0000_0000_0000 {
            lemma_mul_basics(m as int);
        }
    }
}

/// The order of the patterns is the order of the values.
pub proof fn lemma_order_is_that_of_the_values(a: Single, b: Single)
    requires
        a.finite(),
        b.finite(),
    ensures
        a.below(b) <==> a.units() < b.units(),
        a.rank() == b.rank() <==> a.units() == b.units(),
{
    let (m, n) = (a.magnitude(), b.magnitude());
    crate::rounding::lemma_units_monotone(0, m);
    crate::rounding::lemma_units_monotone(0, n);
    crate::rounding::lemma_units_double(0);
    if m <= n {
        crate::rounding::lemma_units_monotone(m, n);
    } else {
        crate::rounding::lemma_units_monotone(n, m);
    }
}

/// A number in the range stays bit for bit, a lower one becomes the lower bound
/// and a higher one the upper bound. What is not a number stays.
pub proof fn lemma_clamping(v: Single, low: Single, high: Single)
    requires
        !low.not_a_number(),
        !high.not_a_number(),
        low.rank() <= high.rank(),
    ensures
        v.not_a_number() ==> v.clamped(low, high) == v,
        !v.not_a_number() && low.rank() <= v.rank() <= high.rank() ==> v.clamped(low, high) == v,
        !v.not_a_number() && v.rank() < low.rank() ==> v.clamped(low, high) == low,
        !v.not_a_number() && v.rank() > high.rank() ==> v.clamped(low, high) == high,
{
}

/// The product of finite numbers has the sign of the exact product, and no
/// number is nearer to it.
pub proof fn lemma_product_is_nearest(a: Single, b: Single, other: nat)
    requires
        a.finite(),
        b.finite(),
        other <= INFINITE_MAGNITUDE,
    ensures
        ({
            let result = a.product(b);
            let exact = crate::rounding::magnitude_units(a.magnitude())
                * crate::rounding::magnitude_units(b.magnitude());
            let away = crate::rounding::distance(
                (crate::rounding::magnitude_units(result.magnitude()) * pow2(149)) as int,
                exact as int,
            );
            let other_away = crate::rounding::distance(
                (crate::rounding::magnitude_units(other) * pow2(149)) as int,
                exact as int,
            );
            &&& !result.not_a_number()
            &&& result.negative() == (a.negative() != b.negative())
            &&& away <= other_away
            &&& away == other_away && other != result.magnitude() ==> result.bits % 2 == 0
        }),
{
    let exact = crate::rounding::magnitude_units(a.magnitude()) * crate::rounding::magnitude_units(
        b.magnitude(),
    );
    crate::rounding::lemma_nothing_is_nearer(exact, 149, other);
}

/// Products with an operand that is no finite number.
pub proof fn lemma_special_products(a: Single, b: Single)
    ensures
        a.not_a_number() || b.not_a_number() ==> a.product(b).not_a_number(),
        a.infinite() && b.rank() == 0 ==> a.product(b).not_a_number(),
        a.infinite() && !b.not_a_number() && b.rank() != 0 ==> a.product(b).infinite()
            && a.product(b).negative() == (a.negative() != b.negative()),
        a.product(b) == b.product(a),
{
    lemma_mul_is_commutative(
        crate::rounding::magnitude_units(a.magnitude()) as int,
        crate::rounding::magnitude_units(b.magnitude()) as int,
    );
}

/// No number is nearer to the exact sum of finite numbers than their sum.
pub proof fn lemma_sum_is_nearest(a: Single, b: Single, other: Single)
    requires
        a.finite(),
        b.finite(),
        !other.not_a_number(),
    ensures
        !a.sum(b).not_a_number(),
        crate::rounding::distance(a.sum(b).units(), a.units() + b.units())
            <= crate::rounding::distance(other.units(), a.units() + b.units()),
        a.units() + b.units() == 0 ==> a.sum(b).magnitude() == 0,
        a.sum(b).negative() && a.sum(b).magnitude() == 0 ==> a.negative() && b.negative(),
{
    let total = a.units() + b.units();
    let size: nat = if total < 0 { (-total) as nat } else { total as nat };
    lemma2_to64();
    crate::rounding::lemma_nothing_is_nearer(size, 0, other.magnitude());
    crate::rounding::lemma_nothing_is_nearer(size, 0, 0);
    crate::rounding::lemma_units_double(0);
    crate::rounding::lemma_units_double(1);
    if size > 0 {
        crate::rounding::lemma_nearest_monotone(1, size, 0);
        crate::rounding::lemma_nearest_exact(1, 0);
    }
}

/// Sums with an operand that is no finite number.
pub proof fn lemma_special_sums(a: Single, b: Single)
    ensures
        a.not_a_number() || b.not_a_number() ==> a.sum(b).not_a_number(),
        a.infinite() && b.infinite() && a.negative() != b.negative() ==> a.sum(b).not_a_number(),
        a.infinite() && b.infinite() && a.negative() == b.negative() ==> a.sum(b) == a,
        a.infinite() && b.finite() ==> a.sum(b) == a,
        a.sum(b) == b.sum(a),
{
}

/// No number is nearer to an integer than the one it becomes, and integers of
/// up to 24 bits are kept exactly.
pub proof fn lemma_integer_is_nearest(value: int, other: Single)
    requires
        !other.not_a_number(),
    ensures
        !Single::of_integer(value).not_a_number(),
        crate::rounding::distance(Single::of_integer(value).units(), value * pow2(149))
            <= crate::rounding::distance(other.units(), value * pow2(149)),
        -0x100_0000 <= value <= 0x100_0000 ==> Single::of_integer(value).units() == value * pow2(
            149,
        ),
{
    let size: nat = if value < 0 { (-value) as nat } else { value as nat };
    let n = size * pow2(149);
    lemma2_to64();
    lemma_pow2_pos(149);
    assert(-value * pow2(149) == -(value * pow2(149))) by (nonlinear_arith);
    assert(value >= 0 ==> value * pow2(149) >= 0) by (nonlinear_arith)
        requires
            pow2(149) > 0,
    ;
    assert(value < 0 ==> -value * pow2(149) >= 0) by (nonlinear_arith)
        requires
            pow2(149) > 0,
    ;
    crate::rounding::lemma_nothing_is_nearer(n, 0, other.magnitude());
    crate::rounding::lemma_units_double(0);
    if size <= 0x100_0000 {
        let exact = lemma_small_integer(size);
        crate::rounding::lemma_nothing_is_nearer(n, 0, exact);
    }
}

/// An integer of up to 24 bits is the value of a magnitude.
proof fn lemma_small_integer(size: nat) -> (magnitude: nat)
    requires
        size <= 0x100_0000,
    ensures
        magnitude <= INFINITE_MAGNITUDE,
        crate::rounding::magnitude_units(magnitude) == size * pow2(149),
{
    lemma_scaled_significand(size, 149)
}

/// A significand of up to 24 bits, scaled, is the value of a magnitude.
proof fn lemma_scaled_significand(size: nat, exponent: nat) -> (magnitude: nat)
    requires
        size <= 0x100_0000,
        exponent <= 149,
    ensures
        magnitude <= 0x100_0000 + exponent * 0x80_0000,
        crate::rounding::magnitude_units(magnitude) == size * pow2(exponent),
    decreases exponent,
{
    lemma2_to64();
    if exponent == 0 {
        crate::rounding::lemma_units_double(size);
        lemma_mul_basics(size as int);
        size
    } else {
        let previous = lemma_scaled_significand(size, (exponent - 1) as nat);
        let value = size * pow2((exponent - 1) as nat);
        lemma_pow2_unfold(exponent);
        assert(size * (2 * pow2((exponent - 1) as nat)) == 2 * (size * pow2(
            (exponent - 1) as nat,
        ))) by (nonlinear_arith);
        if previous < 0x80_0000 {
            crate::rounding::lemma_units_double(previous);
            crate::rounding::lemma_units_double(2 * previous);
            2 * previous
        } else {
            crate::rounding::lemma_units_double(previous);
            previous + 0x80_0000
        }
    }
}

/// Narrowing keeps the sign, and no number is nearer to a finite number than
/// the one that it becomes.
pub proof fn lemma_narrowing_is_nearest(v: Double, other: nat)
    requires
        other <= INFINITE_MAGNITUDE,
    ensures
        v.not_a_number() ==> v.narrowed().not_a_number(),
        !v.not_a_number() ==> !v.narrowed().not_a_number() && v.narrowed().negative()
            == v.negative(),
        !v.not_a_number() && !v.finite() ==> v.narrowed().infinite(),
        v.finite() ==> crate::rounding::distance(
            (crate::rounding::magnitude_units(v.narrowed().magnitude()) * pow2(925)) as int,
            double_magnitude_units(v.magnitude()) as int,
        ) <= crate::rounding::distance(
            (crate::rounding::magnitude_units(other) * pow2(925)) as int,
            double_magnitude_units(v.magnitude()) as int,
        ),
{
    crate::rounding::lemma_nothing_is_nearer(double_magnitude_units(v.magnitude()), 925, other);
}

/// Two numbers are equal if their patterns are, or if both are zeros; what is
/// not a number equals nothing. Of two numbers one is smaller or they are equal.
pub proof fn lemma_equality_and_order(a: Single, b: Single)
    ensures
        vstd::std_specs::cmp::PartialEqSpec::eq_spec(&a, &b) <==> !a.not_a_number()
            && !b.not_a_number() && (a.bits == b.bits || (a.bits % 0x8000_0000 == 0 && b.bits
            % 0x8000_0000 == 0)),
        a.not_a_number() || b.not_a_number() ==> !a.below(b),
        !a.not_a_number() && !b.not_a_number() ==> a.below(b) || b.below(a)
            || vstd::std_specs::cmp::PartialEqSpec::eq_spec(&a, &b),
        a.below(b) ==> !b.below(a) && !vstd::std_specs::cmp::PartialEqSpec::eq_spec(&a, &b),
        !a.negative() && !b.negative() && !b.not_a_number() ==> (a.below(b) <==> a.bits < b.bits),
        a.negative() && !b.negative() && !a.not_a_number() && !b.not_a_number() ==> (a.below(b)
            <==> a.bits != 0x8000_0000 || b.bits != 0),
        a.negative() && b.negative() && !a.not_a_number() ==> (a.below(b) <==> a.bits > b.bits),
{
}

} // verus!
