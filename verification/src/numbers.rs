//! Single-precision numbers kept as their bit patterns.
//!
//! The scene stores, copies and compares such numbers, and those are operations on bits. Adding and
//! multiplying them is the business of whoever computes poses and matrices.

use vstd::prelude::*;

verus! {

/// A single-precision number, as its IEEE 754 bit pattern. Two values are equal when their bits
/// are; [`Real::same_value`] compares the numbers.
#[derive(Debug, Clone, Copy, PartialEq, Eq, Hash, Structural)]
pub struct Real {
    pub bits: u32,
}

impl Real {
    /// The bits without the sign.
    pub open spec fn magnitude(self) -> int {
        self.bits as int % 0x8000_0000
    }

    pub open spec fn negative(self) -> bool {
        self.bits >= 0x8000_0000
    }

    pub open spec fn nan(self) -> bool {
        self.magnitude() > 0x7f80_0000
    }

    pub open spec fn finite(self) -> bool {
        self.magnitude() < 0x7f80_0000
    }

    /// Numbers other than NaN compare as their ranks do. Both zeros rank 0.
    pub open spec fn rank(self) -> int {
        if self.negative() {
            -self.magnitude()
        } else {
            self.magnitude()
        }
    }

    /// Every bit pattern has its own place here: negative before positive, NaN at the two ends.
    pub open spec fn total_rank(self) -> int {
        if self.negative() {
            -self.magnitude() - 1
        } else {
            self.magnitude()
        }
    }

    pub open spec fn less(self, other: Real) -> bool {
        !self.nan() && !other.nan() && self.rank() < other.rank()
    }

    pub open spec fn at_most(self, other: Real) -> bool {
        !self.nan() && !other.nan() && self.rank() <= other.rank()
    }

    pub open spec fn equals(self, other: Real) -> bool {
        !self.nan() && !other.nan() && self.rank() == other.rank()
    }

    /// The larger number; NaN gives way to anything.
    pub open spec fn larger(self, other: Real) -> Real {
        if self.nan() || self.less(other) {
            other
        } else {
            self
        }
    }

    /// The smaller number; NaN gives way to anything.
    pub open spec fn smaller(self, other: Real) -> Real {
        if self.nan() || other.less(self) {
            other
        } else {
            self
        }
    }

    /// Takes a bit pattern as it is.
    #[verifier::allow_in_spec]
    pub fn from_bits(bits: u32) -> Real
        returns
            (Real { bits }),
    {
        Real { bits }
    }

    /// 0
    #[verifier::allow_in_spec]
    pub fn zero() -> Real
        returns
            (Real { bits: 0 }),
    {
        Real { bits: 0 }
    }

    /// 1
    #[verifier::allow_in_spec]
    pub fn one() -> Real
        returns
            (Real { bits: 0x3f80_0000 }),
    {
        Real { bits: 0x3f80_0000 }
    }

    /// The largest finite number.
    #[verifier::allow_in_spec]
    pub fn largest() -> Real
        returns
            (Real { bits: 0x7f7f_ffff }),
    {
        Real { bits: 0x7f7f_ffff }
    }

    /// The bit pattern.
    pub fn to_bits(&self) -> (result: u32)
        ensures
            result == self.bits,
    {
        self.bits
    }

    fn magnitude_bits(&self) -> (result: u32)
        ensures
            result == self.magnitude(),
    {
        self.bits % 0x8000_0000
    }

    fn ranked(&self) -> (result: i64)
        ensures
            result == self.rank(),
    {
        if self.bits >= 0x8000_0000 {
            -(self.magnitude_bits() as i64)
        } else {
            self.magnitude_bits() as i64
        }
    }

    /// The number's place among all bit patterns.
    pub fn total_key(&self) -> (result: i64)
        ensures
            result == self.total_rank(),
    {
        if self.bits >= 0x8000_0000 {
            -(self.magnitude_bits() as i64) - 1
        } else {
            self.magnitude_bits() as i64
        }
    }

    pub fn is_nan(&self) -> (result: bool)
        ensures
            result == self.nan(),
    {
        self.magnitude_bits() > 0x7f80_0000
    }

    /// Neither NaN nor infinite.
    pub fn is_finite(&self) -> (result: bool)
        ensures
            result == self.finite(),
    {
        self.magnitude_bits() < 0x7f80_0000
    }

    /// Whether this number is below the other; false where either is NaN.
    pub fn is_less(&self, other: Real) -> (result: bool)
        ensures
            result == self.less(other),
    {
        !self.is_nan() && !other.is_nan() && self.ranked() < other.ranked()
    }

    /// Whether this number is not above the other; false where either is NaN.
    pub fn is_at_most(&self, other: Real) -> (result: bool)
        ensures
            result == self.at_most(other),
    {
        !self.is_nan() && !other.is_nan() && self.ranked() <= other.ranked()
    }

    /// Whether the numbers are equal: zeros of either sign are, NaN is equal to nothing.
    pub fn same_value(&self, other: Real) -> (result: bool)
        ensures
            result == self.equals(other),
    {
        !self.is_nan() && !other.is_nan() && self.ranked() == other.ranked()
    }

    /// The larger of two numbers.
    pub fn max(self, other: Real) -> (result: Real)
        ensures
            result == self.larger(other),
    {
        if self.is_nan() || self.is_less(other) {
            other
        } else {
            self
        }
    }

    /// The smaller of two numbers.
    pub fn min(self, other: Real) -> (result: Real)
        ensures
            result == self.smaller(other),
    {
        if self.is_nan() || other.is_less(self) {
            other
        } else {
            self
        }
    }

    /// The number without its sign.
    pub fn abs(self) -> (result: Real)
        ensures
            result.bits == self.magnitude(),
    {
        Real { bits: self.magnitude_bits() }
    }
}

/// The order by total rank tells any two bit patterns apart.
pub proof fn lemma_total_rank_is_injective(a: Real, b: Real)
    ensures
        a.total_rank() == b.total_rank() ==> a == b,
{
}

/// Exactly one of less, equal and greater holds of two numbers that are not NaN.
pub proof fn lemma_comparison_is_total(a: Real, b: Real)
    requires
        !a.nan(),
        !b.nan(),
    ensures
        a.less(b) || a.equals(b) || b.less(a),
        !(a.less(b) && b.less(a)),
        a.at_most(b) <==> a.less(b) || a.equals(b),
{
}

/// A double-precision number, as its IEEE 754 bit pattern. Two values are equal when their bits
/// are.
#[derive(Debug, Clone, Copy, PartialEq, Eq, Hash, Structural)]
pub struct Double {
    pub bits: u64,
}

/// Powers of two.
pub open spec fn two_to(n: nat) -> nat
    decreases n,
{
    if n == 0 {
        1
    } else {
        2 * two_to((n - 1) as nat)
    }
}

impl Double {
    /// The exponent field; 1023 stands for numbers from 1 on.
    pub open spec fn exponent(self) -> nat {
        (self.bits as nat / 0x10_0000_0000_0000) % 0x800
    }

    /// The fraction field.
    pub open spec fn fraction(self) -> nat {
        self.bits as nat % 0x10_0000_0000_0000
    }

    pub open spec fn negative(self) -> bool {
        self.bits >= 0x8000_0000_0000_0000
    }

    /// Neither NaN nor infinite.
    pub open spec fn finite(self) -> bool {
        self.exponent() < 0x7ff
    }

    pub open spec fn is_zero(self) -> bool {
        self.exponent() == 0 && self.fraction() == 0
    }

    /// The number without its sign, rounded down to an integer.
    pub open spec fn whole(self) -> nat {
        if self.exponent() < 1023 {
            0
        } else if self.exponent() <= 1075 {
            (0x10_0000_0000_0000 + self.fraction()) / two_to((1075 - self.exponent()) as nat)
        } else {
            (0x10_0000_0000_0000 + self.fraction()) * two_to((self.exponent() - 1075) as nat)
        }
    }

    /// Below zero; the negative zero is not.
    pub open spec fn below_zero(self) -> bool {
        self.negative() && !self.is_zero()
    }

    /// Takes a bit pattern as it is.
    #[verifier::allow_in_spec]
    pub fn from_bits(bits: u64) -> Double
        returns
            (Double { bits }),
    {
        Double { bits }
    }

    /// Neither NaN nor infinite.
    pub fn is_finite(&self) -> (result: bool)
        ensures
            result == self.finite(),
    {
        (self.bits / 0x10_0000_0000_0000) % 0x800 < 0x7ff
    }

    /// Whether the number is finite and below zero.
    pub fn is_below_zero(&self) -> (result: bool)
        ensures
            result == self.below_zero(),
    {
        self.bits > 0x8000_0000_0000_0000
    }

    /// The number rounded down to an integer, or `None` if it is below zero, not finite or not
    /// below `0xffff_ffff`.
    pub fn to_index(&self) -> (result: Option<u32>)
        ensures
            match result {
                Some(n) => self.finite() && !self.below_zero() && n == self.whole() && n
                    < 0xffff_ffff,
                None => !self.finite() || self.below_zero() || self.whole() >= 0xffff_ffff,
            },
    {
        if !self.is_finite() || self.is_below_zero() {
            return None;
        }
        let exponent: u64 = (self.bits / 0x10_0000_0000_0000) % 0x800;
        let significand: u64 = 0x10_0000_0000_0000 + self.bits % 0x10_0000_0000_0000;
        if exponent < 1023 {
            return Some(0);
        }
        if exponent > 1054 {
            proof {
                lemma_two_to_grows(0, (exponent - 1075) as nat);
                if exponent <= 1075 {
                    let shift = (1075 - exponent) as nat;
                    lemma_two_to_grows(shift, 20);
                    lemma_two_to_values();
                    lemma_two_to_positive(shift);
                    assert(significand as nat / two_to(shift) >= 0x1_0000_0000) by (nonlinear_arith)
                        requires
                            significand >= 0x10_0000_0000_0000,
                            0 < two_to(shift) <= 0x10_0000,
                    ;
                } else {
                    let shift = (exponent - 1075) as nat;
                    lemma_two_to_positive(shift);
                    assert(significand * two_to(shift) >= 0x1_0000_0000) by (nonlinear_arith)
                        requires
                            significand >= 0x10_0000_0000_0000,
                            two_to(shift) >= 1,
                    ;
                }
            }
            return None;
        }
        let shift: u64 = 1075 - exponent;
        let mut divisor: u64 = 1;
        let mut i: u64 = 0;
        while i < shift
            invariant
                i <= shift <= 52,
                divisor == two_to(i as nat),
                divisor <= 0x10_0000_0000_0000,
            decreases shift - i,
        {
            proof {
                lemma_two_to_grows((i + 1) as nat, 52);
                lemma_two_to_values();
            }
            divisor = divisor * 2;
            i += 1;
        }
        proof {
            lemma_two_to_grows(21, shift as nat);
            lemma_two_to_values();
            assert(significand as int / divisor as int <= 0xffff_ffff) by (nonlinear_arith)
                requires
                    significand < 0x20_0000_0000_0000,
                    divisor >= 0x20_0000,
            ;
        }
        let whole: u64 = significand / divisor;
        if whole < 0xffff_ffff {
            Some(whole as u32)
        } else {
            None
        }
    }

    /// The number -1, which stands for: no node.
    #[verifier::allow_in_spec]
    pub fn minus_one() -> Double
        returns
            (Double { bits: 0xbff0_0000_0000_0000 }),
    {
        Double { bits: 0xbff0_0000_0000_0000 }
    }

    /// Finite, not below zero, and `n` once rounded down.
    pub open spec fn counts(self, n: nat) -> bool {
        self.finite() && !self.below_zero() && self.whole() == n
    }

    /// Whether the number is finite, not below zero, and `n` once rounded down.
    pub fn is_count(&self, n: u32) -> (result: bool)
        requires
            n < 0xffff_ffff,
        ensures
            result == self.counts(n as nat),
    {
        match self.to_index() {
            Some(m) => m == n,
            None => false,
        }
    }

    /// Neither finite nor infinite.
    pub open spec fn nan(self) -> bool {
        self.exponent() == 0x7ff && self.fraction() != 0
    }

    /// How many it is: rounded down, nothing for NaN and what is below zero, and no more than the
    /// largest integer.
    pub open spec fn count(self) -> u32 {
        if self.nan() || self.negative() {
            0
        } else if !self.finite() || self.whole() >= 0xffff_ffff {
            0xffff_ffff
        } else {
            self.whole() as u32
        }
    }

    pub fn to_count(&self) -> (result: u32)
        ensures
            result == self.count(),
    {
        if self.bits >= 0x8000_0000_0000_0000 || self.bits > 0x7ff0_0000_0000_0000 {
            return 0;
        }
        match self.to_index() {
            Some(n) => n,
            None => 0xffff_ffff,
        }
    }

    /// Exactly this integer: its significand is the integer, shifted so that its highest bit is the
    /// one that is not stored. Zero has no sign.
    pub open spec fn exactly(self, n: u32) -> bool {
        if n == 0 {
            self.bits == 0
        } else {
            &&& !self.negative()
            &&& 1023 <= self.exponent() <= 1054
            &&& 0x10_0000_0000_0000 + self.fraction() == n * two_to(
                (1075 - self.exponent()) as nat,
            )
        }
    }

    /// A number that is exactly an integer is that integer once rounded down.
    pub proof fn lemma_exact_counts(self, n: u32)
        requires
            self.exactly(n),
        ensures
            self.counts(n as nat),
    {
        if n > 0 {
            let unit = two_to((1075 - self.exponent()) as nat);
            lemma_two_to_positive((1075 - self.exponent()) as nat);
            assert((n * unit) / (unit as int) == n) by {
                vstd::arithmetic::div_mod::lemma_div_by_multiple(n as int, unit as int);
            }
        }
    }

    /// The number that an integer is.
    pub fn from_index(n: u32) -> (result: Double)
        ensures
            result.exactly(n),
            result.counts(n as nat),
    {
        if n == 0 {
            return Double { bits: 0 };
        }
        let mut power: u64 = 1;
        let mut unit: u64 = 0x10_0000_0000_0000;
        let mut k: u64 = 0;
        proof {
            lemma_two_to_values();
        }
        while power * 2 <= n as u64
            invariant
                1 <= power <= n,
                k <= 31,
                power == two_to(k as nat),
                unit == two_to((52 - k) as nat),
                power * unit == 0x10_0000_0000_0000,
            decreases n - power,
        {
            proof {
                if k == 31 {
                    lemma_two_to_values();
                }
                assert(unit == 2 * two_to((51 - k) as nat));
                assert((power * 2) * (unit / 2) == power * unit) by (nonlinear_arith)
                    requires
                        unit % 2 == 0,
                ;
            }
            power = power * 2;
            unit = unit / 2;
            k += 1;
        }
        let rest: u64 = n as u64 - power;
        proof {
            lemma_two_to_positive((52 - k) as nat);
            assert(rest * unit < 0x10_0000_0000_0000) by (nonlinear_arith)
                requires
                    rest < power,
                    power * unit == 0x10_0000_0000_0000,
                    unit > 0,
            ;
            assert(0x10_0000_0000_0000 + rest * unit == n * unit) by (nonlinear_arith)
                requires
                    power * unit == 0x10_0000_0000_0000,
                    rest == n - power,
            ;
        }
        let fraction: u64 = rest * unit;
        let result = Double { bits: (1023 + k) * 0x10_0000_0000_0000 + fraction };
        assert(result.exponent() == 1023 + k);
        assert(result.fraction() == fraction);
        assert(result.exactly(n));
        proof {
            result.lemma_exact_counts(n);
        }
        result
    }
}

/// An integer below the limit survives the trip through a number.
pub proof fn lemma_index_round_trip(n: u32, there: Double, back: Option<u32>)
    requires
        n < 0xffff_ffff,
        there.exactly(n),
        match back {
            Some(m) => there.finite() && !there.below_zero() && m == there.whole() && m
                < 0xffff_ffff,
            None => !there.finite() || there.below_zero() || there.whole() >= 0xffff_ffff,
        },
    ensures
        back == Some(n),
{
    there.lemma_exact_counts(n);
}

proof fn lemma_two_to_values()
    ensures
        two_to(20) == 0x10_0000,
        two_to(21) == 0x20_0000,
        two_to(31) == 0x8000_0000,
        two_to(52) == 0x10_0000_0000_0000,
{
    assert(two_to(10) == 0x400) by {
        reveal_with_fuel(two_to, 11);
    }
    assert(two_to(20) == 0x10_0000) by {
        reveal_with_fuel(two_to, 11);
    }
    assert(two_to(21) == 2 * two_to(20));
    assert(two_to(31) == 0x8000_0000) by {
        reveal_with_fuel(two_to, 11);
    }
    assert(two_to(41) == 0x200_0000_0000) by {
        reveal_with_fuel(two_to, 11);
    }
    assert(two_to(52) == 0x10_0000_0000_0000) by {
        reveal_with_fuel(two_to, 12);
    }
}

proof fn lemma_two_to_positive(n: nat)
    ensures
        two_to(n) >= 1,
    decreases n,
{
    if n > 0 {
        lemma_two_to_positive((n - 1) as nat);
    }
}

proof fn lemma_two_to_grows(a: nat, b: nat)
    ensures
        a <= b ==> two_to(a) <= two_to(b),
    decreases b,
{
    if a < b {
        lemma_two_to_grows(a, (b - 1) as nat);
    }
}

/// A point or a direction.
#[derive(Debug, Clone, Copy, PartialEq, Eq, Hash, Structural)]
pub struct Vec3 {
    pub x: Real,
    pub y: Real,
    pub z: Real,
}

impl Vec3 {
    pub open spec fn finite(self) -> bool {
        self.x.finite() && self.y.finite() && self.z.finite()
    }

    pub open spec fn equals(self, other: Vec3) -> bool {
        self.x.equals(other.x) && self.y.equals(other.y) && self.z.equals(other.z)
    }

    #[verifier::allow_in_spec]
    pub fn new(x: Real, y: Real, z: Real) -> Vec3
        returns
            (Vec3 { x, y, z }),
    {
        Vec3 { x, y, z }
    }

    #[verifier::allow_in_spec]
    pub fn zero() -> Vec3
        returns
            (Vec3 { x: Real { bits: 0 }, y: Real { bits: 0 }, z: Real { bits: 0 } }),
    {
        Vec3 { x: Real { bits: 0 }, y: Real { bits: 0 }, z: Real { bits: 0 } }
    }

    #[verifier::allow_in_spec]
    pub fn neg_z() -> Vec3
        returns
            (Vec3 { x: Real::zero(), y: Real::zero(), z: Real { bits: 0xbf80_0000 } }),
    {
        Vec3 { x: Real::zero(), y: Real::zero(), z: Real { bits: 0xbf80_0000 } }
    }

    #[verifier::allow_in_spec]
    pub fn one() -> Vec3
        returns
            (Vec3 {
                x: Real { bits: 0x3f80_0000 },
                y: Real { bits: 0x3f80_0000 },
                z: Real { bits: 0x3f80_0000 },
            }),
    {
        Vec3 {
            x: Real { bits: 0x3f80_0000 },
            y: Real { bits: 0x3f80_0000 },
            z: Real { bits: 0x3f80_0000 },
        }
    }

    /// Whether all three coordinates are finite.
    pub fn is_finite(&self) -> (result: bool)
        ensures
            result == self.finite(),
    {
        self.x.is_finite() && self.y.is_finite() && self.z.is_finite()
    }

    /// Whether all three coordinates are equal as numbers.
    pub fn same_value(&self, other: Vec3) -> (result: bool)
        ensures
            result == self.equals(other),
    {
        self.x.same_value(other.x) && self.y.same_value(other.y) && self.z.same_value(other.z)
    }
}

/// A rotation.
#[derive(Debug, Clone, Copy, PartialEq, Eq, Hash, Structural)]
pub struct Quat {
    pub x: Real,
    pub y: Real,
    pub z: Real,
    pub w: Real,
}

impl Quat {
    pub open spec fn equals(self, other: Quat) -> bool {
        self.x.equals(other.x) && self.y.equals(other.y) && self.z.equals(other.z)
            && self.w.equals(other.w)
    }

    #[verifier::allow_in_spec]
    pub fn identity() -> Quat
        returns
            (Quat {
                x: Real { bits: 0 },
                y: Real { bits: 0 },
                z: Real { bits: 0 },
                w: Real { bits: 0x3f80_0000 },
            }),
    {
        Quat {
            x: Real { bits: 0 },
            y: Real { bits: 0 },
            z: Real { bits: 0 },
            w: Real { bits: 0x3f80_0000 },
        }
    }

    /// Whether all four components are equal as numbers.
    pub fn same_value(&self, other: Quat) -> (result: bool)
        ensures
            result == self.equals(other),
    {
        self.x.same_value(other.x) && self.y.same_value(other.y) && self.z.same_value(other.z)
            && self.w.same_value(other.w)
    }
}

/// One column of a matrix.
#[derive(Debug, Clone, Copy, PartialEq, Eq, Hash, Structural)]
pub struct Vec4 {
    pub x: Real,
    pub y: Real,
    pub z: Real,
    pub w: Real,
}

impl Vec4 {
    /// The first three components.
    #[verifier::allow_in_spec]
    pub fn truncate(&self) -> Vec3
        returns
            (Vec3 { x: self.x, y: self.y, z: self.z }),
    {
        Vec3 { x: self.x, y: self.y, z: self.z }
    }
}

/// A transformation, by columns.
#[derive(Debug, Clone, Copy, PartialEq, Eq, Hash, Structural)]
pub struct Mat4 {
    pub x_axis: Vec4,
    pub y_axis: Vec4,
    pub z_axis: Vec4,
    pub w_axis: Vec4,
}

impl Mat4 {
    #[verifier::allow_in_spec]
    pub fn identity() -> Mat4
        returns
            ({
                let o = Real { bits: 0 };
                let i = Real { bits: 0x3f80_0000 };
                Mat4 {
                    x_axis: Vec4 { x: i, y: o, z: o, w: o },
                    y_axis: Vec4 { x: o, y: i, z: o, w: o },
                    z_axis: Vec4 { x: o, y: o, z: i, w: o },
                    w_axis: Vec4 { x: o, y: o, z: o, w: i },
                }
            }),
    {
        let o = Real { bits: 0 };
        let i = Real { bits: 0x3f80_0000 };
        Mat4 {
            x_axis: Vec4 { x: i, y: o, z: o, w: o },
            y_axis: Vec4 { x: o, y: i, z: o, w: o },
            z_axis: Vec4 { x: o, y: o, z: i, w: o },
            w_axis: Vec4 { x: o, y: o, z: o, w: i },
        }
    }
}

/// An axis-aligned box, from its low corner to its high corner.
#[derive(Debug, Clone, Copy, PartialEq, Eq, Hash, Structural)]
pub struct Aabb {
    pub min: Vec3,
    pub max: Vec3,
}

impl Aabb {
    pub open spec fn equals(self, other: Aabb) -> bool {
        self.min.equals(other.min) && self.max.equals(other.max)
    }

    /// The box that holds nothing: its low corner is at plus infinity, its high one at minus
    /// infinity.
    #[verifier::allow_in_spec]
    pub fn empty() -> Aabb
        returns
            ({
                let low = Real { bits: 0x7f80_0000 };
                let high = Real { bits: 0xff80_0000 };
                Aabb {
                    min: Vec3 { x: low, y: low, z: low },
                    max: Vec3 { x: high, y: high, z: high },
                }
            }),
    {
        let low = Real { bits: 0x7f80_0000 };
        let high = Real { bits: 0xff80_0000 };
        Aabb { min: Vec3 { x: low, y: low, z: low }, max: Vec3 { x: high, y: high, z: high } }
    }

    /// A box holds nothing when its corners are the wrong way round on some axis.
    pub open spec fn holds_nothing(self) -> bool {
        self.max.x.less(self.min.x) || self.max.y.less(self.min.y) || self.max.z.less(self.min.z)
    }

    pub fn is_empty(&self) -> (result: bool)
        ensures
            result == self.holds_nothing(),
    {
        self.max.x.is_less(self.min.x) || self.max.y.is_less(self.min.y) || self.max.z.is_less(
            self.min.z,
        )
    }

    /// The smallest box around both.
    pub open spec fn joined(self, other: Aabb) -> Aabb {
        Aabb {
            min: Vec3 {
                x: self.min.x.smaller(other.min.x),
                y: self.min.y.smaller(other.min.y),
                z: self.min.z.smaller(other.min.z),
            },
            max: Vec3 {
                x: self.max.x.larger(other.max.x),
                y: self.max.y.larger(other.max.y),
                z: self.max.z.larger(other.max.z),
            },
        }
    }

    /// The smallest box around both.
    pub fn join(&self, other: &Aabb) -> (result: Aabb)
        ensures
            result == self.joined(*other),
    {
        Aabb {
            min: Vec3 {
                x: self.min.x.min(other.min.x),
                y: self.min.y.min(other.min.y),
                z: self.min.z.min(other.min.z),
            },
            max: Vec3 {
                x: self.max.x.max(other.max.x),
                y: self.max.y.max(other.max.y),
                z: self.max.z.max(other.max.z),
            },
        }
    }

    /// None of the corners' coordinates is NaN.
    pub open spec fn plain(self) -> bool {
        &&& !self.min.x.nan() && !self.min.y.nan() && !self.min.z.nan()
        &&& !self.max.x.nan() && !self.max.y.nan() && !self.max.z.nan()
    }

    /// Nothing of `other` sticks out of this box.
    pub open spec fn covers(self, other: Aabb) -> bool {
        &&& self.min.x.at_most(other.min.x) && other.max.x.at_most(self.max.x)
        &&& self.min.y.at_most(other.min.y) && other.max.y.at_most(self.max.y)
        &&& self.min.z.at_most(other.min.z) && other.max.z.at_most(self.max.z)
    }

    /// Two boxes share a point when they overlap on every axis.
    pub open spec fn overlaps(self, other: Aabb) -> bool {
        &&& self.min.x.at_most(other.max.x) && other.min.x.at_most(self.max.x)
        &&& self.min.y.at_most(other.max.y) && other.min.y.at_most(self.max.y)
        &&& self.min.z.at_most(other.max.z) && other.min.z.at_most(self.max.z)
    }

    /// Whether the boxes share a point.
    pub fn intersects(&self, other: &Aabb) -> (result: bool)
        ensures
            result == self.overlaps(*other),
    {
        self.min.x.is_at_most(other.max.x) && other.min.x.is_at_most(self.max.x)
            && self.min.y.is_at_most(other.max.y) && other.min.y.is_at_most(self.max.y)
            && self.min.z.is_at_most(other.max.z) && other.min.z.is_at_most(self.max.z)
    }

    /// Whether the boxes have equal corners, as numbers.
    pub fn same_value(&self, other: Aabb) -> (result: bool)
        ensures
            result == self.equals(other),
    {
        self.min.same_value(other.min) && self.max.same_value(other.max)
    }
}

/// Where something is and which way it faces.
#[derive(Debug, Clone, Copy, PartialEq, Eq, Hash, Structural)]
pub struct Pose {
    pub position: Vec3,
    pub rotation: Quat,
}

impl Pose {
    pub open spec fn equals(self, other: Pose) -> bool {
        self.position.equals(other.position) && self.rotation.equals(other.rotation)
    }

    /// Whether the poses are equal as numbers.
    pub fn same_value(&self, other: Pose) -> (result: bool)
        ensures
            result == self.equals(other),
    {
        self.position.same_value(other.position) && self.rotation.same_value(other.rotation)
    }
}

/// A local transform: scale, then rotation, then translation.
#[derive(Debug, Clone, Copy, PartialEq, Eq, Hash, Structural)]
pub struct Transform {
    pub position: Vec3,
    pub rotation: Quat,
    pub scale: Vec3,
}

impl Transform {
    /// The transform that moves nothing.
    #[verifier::allow_in_spec]
    pub fn identity() -> Transform
        returns
            (Transform {
                position: Vec3::zero(),
                rotation: Quat::identity(),
                scale: Vec3::one(),
            }),
    {
        Transform { position: Vec3::zero(), rotation: Quat::identity(), scale: Vec3::one() }
    }

    /// Only moved, neither turned nor scaled.
    #[verifier::allow_in_spec]
    pub fn from_position(position: Vec3) -> Transform
        returns
            (Transform { position, rotation: Quat::identity(), scale: Vec3::one() }),
    {
        Transform { position, rotation: Quat::identity(), scale: Vec3::one() }
    }

    /// The same scale at another pose.
    pub open spec fn moved_to(self, pose: Pose) -> Transform {
        Transform { position: pose.position, rotation: pose.rotation, scale: self.scale }
    }
}

impl Default for Transform {
    fn default() -> (result: Self)
        ensures
            result == Transform::identity(),
    {
        Transform::identity()
    }
}

/// Numbers compare as their bits do: without a sign the more bits the larger, with a sign the
/// smaller, and what has a sign is below what has none, but for the two zeros, which are equal. NaN
/// compares with nothing.
pub proof fn lemma_numbers_compare_by_their_bits(a: Real, b: Real)
    ensures
        a.bits < 0x8000_0000 ==> (a.nan() <==> a.bits > 0x7f80_0000),
        a.bits >= 0x8000_0000 ==> (a.nan() <==> a.bits > 0xff80_0000),
        a.bits < 0x8000_0000 ==> (a.finite() <==> a.bits < 0x7f80_0000),
        a.bits >= 0x8000_0000 ==> (a.finite() <==> a.bits < 0xff80_0000),
        a.nan() || b.nan() ==> !a.less(b) && !a.at_most(b) && !a.equals(b),
        !a.nan() && !b.nan() && a.bits < 0x8000_0000 && b.bits < 0x8000_0000 ==> {
            &&& a.less(b) <==> a.bits < b.bits
            &&& a.at_most(b) <==> a.bits <= b.bits
            &&& a.equals(b) <==> a.bits == b.bits
        },
        !a.nan() && !b.nan() && a.bits >= 0x8000_0000 && b.bits >= 0x8000_0000 ==> {
            &&& a.less(b) <==> a.bits > b.bits
            &&& a.at_most(b) <==> a.bits >= b.bits
            &&& a.equals(b) <==> a.bits == b.bits
        },
        !a.nan() && !b.nan() && a.bits >= 0x8000_0000 && b.bits < 0x8000_0000 ==> {
            let zeros = a.bits == 0x8000_0000 && b.bits == 0;
            &&& a.at_most(b)
            &&& a.less(b) <==> !zeros
            &&& a.equals(b) <==> zeros
        },
{
}

/// The larger and the smaller of two numbers are each one of the two, above and below both; NaN gives
/// way to the other.
pub proof fn lemma_larger_and_smaller(a: Real, b: Real)
    ensures
        !a.nan() && !b.nan() ==> {
            &&& a.larger(b) == a || a.larger(b) == b
            &&& a.at_most(a.larger(b)) && b.at_most(a.larger(b))
            &&& a.smaller(b) == a || a.smaller(b) == b
            &&& a.smaller(b).at_most(a) && a.smaller(b).at_most(b)
        },
        a.nan() ==> a.larger(b) == b && a.smaller(b) == b,
        !a.nan() && b.nan() ==> a.larger(b) == a && a.smaller(b) == a,
{
}

/// The box around two boxes covers both, and every box that covers both covers it.
pub proof fn lemma_joined_is_the_smallest(a: Aabb, b: Aabb, other: Aabb)
    requires
        a.plain(),
        b.plain(),
    ensures
        a.joined(b).plain(),
        a.joined(b).covers(a),
        a.joined(b).covers(b),
        other.covers(a) && other.covers(b) ==> other.covers(a.joined(b)),
{
}

/// A point is in a box.
pub open spec fn inside(point: Vec3, aabb: Aabb) -> bool {
    &&& aabb.min.x.at_most(point.x) && point.x.at_most(aabb.max.x)
    &&& aabb.min.y.at_most(point.y) && point.y.at_most(aabb.max.y)
    &&& aabb.min.z.at_most(point.z) && point.z.at_most(aabb.max.z)
}

/// Two boxes that hold something overlap exactly if some point is in both.
pub proof fn lemma_overlap_is_a_common_point(a: Aabb, b: Aabb)
    requires
        a.plain(),
        b.plain(),
        !a.holds_nothing(),
        !b.holds_nothing(),
    ensures
        a.overlaps(b) <==> exists|point: Vec3| #[trigger] inside(point, a) && inside(point, b),
{
    if a.overlaps(b) {
        let point = Vec3 {
            x: a.min.x.larger(b.min.x),
            y: a.min.y.larger(b.min.y),
            z: a.min.z.larger(b.min.z),
        };
        assert(inside(point, a) && inside(point, b));
    }
}

/// The empty box holds no point, and adds nothing to another.
pub proof fn lemma_empty_box_adds_nothing(a: Aabb, point: Vec3)
    requires
        a.plain(),
    ensures
        Aabb::empty().holds_nothing(),
        !inside(point, Aabb::empty()),
        Aabb::empty().joined(a).equals(a),
        a.joined(Aabb::empty()).equals(a),
{
}

/// A box holds nothing exactly if no point of numbers is in it.
pub proof fn lemma_nothing_held_is_nothing_inside(a: Aabb)
    requires
        a.plain(),
    ensures
        a.holds_nothing() <==> forall|point: Vec3| !inside(point, a),
{
    if !a.holds_nothing() {
        assert(inside(a.min, a));
    }
}

/// Vectors, rotations, poses and boxes are equal exactly if all their numbers are.
pub proof fn lemma_equal_by_parts(a: Aabb, b: Aabb, p: Pose, q: Pose)
    ensures
        a.equals(b) <==> {
            &&& a.min.x.equals(b.min.x)
            &&& a.min.y.equals(b.min.y)
            &&& a.min.z.equals(b.min.z)
            &&& a.max.x.equals(b.max.x)
            &&& a.max.y.equals(b.max.y)
            &&& a.max.z.equals(b.max.z)
        },
        p.equals(q) <==> {
            &&& p.position.x.equals(q.position.x)
            &&& p.position.y.equals(q.position.y)
            &&& p.position.z.equals(q.position.z)
            &&& p.rotation.x.equals(q.rotation.x)
            &&& p.rotation.y.equals(q.rotation.y)
            &&& p.rotation.z.equals(q.rotation.z)
            &&& p.rotation.w.equals(q.rotation.w)
        },
        p.position.finite() <==> p.position.x.finite() && p.position.y.finite()
            && p.position.z.finite(),
{
}

/// The numbers that things start out with.
pub proof fn lemma_what_things_start_with()
    ensures
        Real::zero().bits == 0,
        Real::one().bits == 0x3f80_0000,
        Real::largest().finite(),
        forall|x: Real| #[trigger] x.finite() ==> x.at_most(Real::largest()),
        Transform::identity().position.x.bits == 0,
        Transform::identity().position.y.bits == 0,
        Transform::identity().position.z.bits == 0,
        Transform::identity().rotation.x.bits == 0,
        Transform::identity().rotation.y.bits == 0,
        Transform::identity().rotation.z.bits == 0,
        Transform::identity().rotation.w.bits == 0x3f80_0000,
        Transform::identity().scale.x.bits == 0x3f80_0000,
        Transform::identity().scale.y.bits == 0x3f80_0000,
        Transform::identity().scale.z.bits == 0x3f80_0000,
        Mat4::identity().x_axis.x.bits == 0x3f80_0000,
        Mat4::identity().y_axis.y.bits == 0x3f80_0000,
        Mat4::identity().z_axis.z.bits == 0x3f80_0000,
        Mat4::identity().w_axis.w.bits == 0x3f80_0000,
        Mat4::identity().w_axis.x.bits == 0,
        Mat4::identity().w_axis.y.bits == 0,
        Mat4::identity().w_axis.z.bits == 0,
        Mat4::identity().x_axis.y.bits == 0,
        Mat4::identity().x_axis.z.bits == 0,
        Mat4::identity().x_axis.w.bits == 0,
        Mat4::identity().y_axis.x.bits == 0,
        Mat4::identity().y_axis.z.bits == 0,
        Mat4::identity().y_axis.w.bits == 0,
        Mat4::identity().z_axis.x.bits == 0,
        Mat4::identity().z_axis.y.bits == 0,
        Mat4::identity().z_axis.w.bits == 0,
        Vec3::neg_z().x.bits == 0,
        Vec3::neg_z().y.bits == 0,
        Vec3::neg_z().z.bits == 0xbf80_0000,
{
}

/// -1 stands for no node: it counts nothing.
pub proof fn lemma_minus_one_counts_nothing(n: nat)
    ensures
        Double::minus_one().finite(),
        Double::minus_one().below_zero(),
        !Double::minus_one().counts(n),
{
    assert(Double::minus_one().exponent() == 1023);
}

} // verus!
