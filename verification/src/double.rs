//! Double precision numbers, held as their bit patterns.
//!
//! The clock counts musical time in these: adding a small single precision
//! increment 48000 times a second would drift audibly within seconds.

use crate::arith;
use crate::arith::{Format, Parts};
use crate::single;
use crate::single::Single;
use vstd::arithmetic::power2::*;
use vstd::prelude::*;

verus! {

/// Two to the 52nd: the implicit leading one of a normal mantissa.
pub const HIDDEN: u64 = 0x0010_0000_0000_0000;

/// The pattern of positive infinity.
pub const INFINITE: u64 = 0x7FF0_0000_0000_0000;

/// The sign bit.
pub const SIGN: u64 = 0x8000_0000_0000_0000;

/// A double precision number.
#[derive(Clone, Copy, Debug, PartialEq, Eq, Structural)]
pub struct Double {
    /// The IEEE-754 encoding: sign, eleven bits of exponent, 52 of mantissa.
    pub bits: u64,
}

/// The number with a given sign and magnitude pattern.
pub open spec fn signed(negative: bool, magnitude: int) -> Double {
    Double {
        bits: (if negative {
            SIGN + magnitude
        } else {
            magnitude
        }) as u64,
    }
}

/// The quiet NaN that an operation without a result gives.
pub open spec fn not_a_number() -> Double {
    Double { bits: 0x7FF8_0000_0000_0000 }
}

/// The pattern of the number nearest to `(n / d) * 2^k`, ties to even.
pub open spec fn encode(n: nat, d: nat, k: int) -> int {
    Format::Double.encode(n, d, k)
}

impl Double {
    /// The magnitude: the pattern without its sign.
    pub open spec fn magnitude(self) -> int {
        self.bits as int % SIGN as int
    }

    pub open spec fn negative(self) -> bool {
        self.bits >= SIGN
    }

    pub open spec fn nan(self) -> bool {
        self.magnitude() > INFINITE
    }

    pub open spec fn finite(self) -> bool {
        self.magnitude() < INFINITE
    }

    /// An integer that orders numbers as their values do.
    pub open spec fn key(self) -> int {
        if self.negative() {
            -self.magnitude()
        } else {
            self.magnitude()
        }
    }

    /// IEEE `<`.
    pub open spec fn below(self, other: Double) -> bool {
        !self.nan() && !other.nan() && self.key() < other.key()
    }

    /// IEEE `<=`.
    pub open spec fn at_most(self, other: Double) -> bool {
        !self.nan() && !other.nan() && self.key() <= other.key()
    }

    /// The mantissa of a finite magnitude, implicit bit included.
    pub open spec fn mantissa(self) -> int {
        let m = self.magnitude();
        if m < HIDDEN {
            m
        } else {
            HIDDEN + m % HIDDEN as int
        }
    }

    /// The exponent field, where the subnormals share that of the smallest
    /// normal numbers.
    pub open spec fn exponent(self) -> int {
        let m = self.magnitude();
        if m < HIDDEN {
            1
        } else {
            m / HIDDEN as int
        }
    }

    /// A finite number taken apart.
    pub open spec fn parts(self) -> Parts {
        Parts {
            negative: self.negative(),
            m: self.mantissa() as u64,
            e: (self.exponent() - 1075) as i32,
        }
    }

    /// The IEEE product.
    pub open spec fn product(self, other: Double) -> Double {
        if self.nan() || other.nan() {
            not_a_number()
        } else if self.finite() && other.finite() {
            signed(
                self.negative() != other.negative(),
                arith::product_bits(Format::Double, self.parts(), other.parts()),
            )
        } else if self.magnitude() == 0 || other.magnitude() == 0 {
            not_a_number()
        } else {
            signed(self.negative() != other.negative(), INFINITE as int)
        }
    }

    /// The IEEE quotient.
    pub open spec fn quotient(self, other: Double) -> Double {
        if self.nan() || other.nan() || (!self.finite() && !other.finite()) || (self.magnitude()
            == 0 && other.magnitude() == 0) {
            not_a_number()
        } else if !self.finite() || other.magnitude() == 0 {
            signed(self.negative() != other.negative(), INFINITE as int)
        } else if !other.finite() {
            signed(self.negative() != other.negative(), 0)
        } else {
            signed(
                self.negative() != other.negative(),
                arith::quotient_bits(Format::Double, self.parts(), other.parts()),
            )
        }
    }

    /// The IEEE sum.
    pub open spec fn sum(self, other: Double) -> Double {
        if self.nan() || other.nan() {
            not_a_number()
        } else if self.finite() && other.finite() {
            signed(
                arith::sum_negative(self.parts(), other.parts()),
                arith::sum_bits(Format::Double, self.parts(), other.parts()),
            )
        } else if self.finite() {
            other
        } else if other.finite() || self.negative() == other.negative() {
            self
        } else {
            not_a_number()
        }
    }

    /// The number with its sign turned round.
    pub open spec fn opposite(self) -> Double {
        Double {
            bits: (if self.negative() {
                self.bits - SIGN
            } else {
                self.bits + SIGN
            }) as u64,
        }
    }

    /// The IEEE difference.
    pub open spec fn difference(self, other: Double) -> Double {
        self.sum(other.opposite())
    }

    /// The number nearest to an unsigned integer.
    pub open spec fn nearest_to(n: int) -> Double {
        Double { bits: encode(n as nat, 1, 0) as u64 }
    }

    /// A single precision number, which every double precision one can hold.
    pub open spec fn widened(x: Single) -> Double {
        if x.nan() {
            not_a_number()
        } else if !x.finite() {
            signed(x.negative(), INFINITE as int)
        } else {
            signed(x.negative(), encode(x.mantissa() as nat, 1, x.exponent() - 150))
        }
    }

    /// The nearest single precision number.
    pub open spec fn narrowed(self) -> Single {
        if self.nan() {
            single::not_a_number()
        } else if !self.finite() {
            single::signed(self.negative(), single::INFINITE as int)
        } else {
            single::signed(
                self.negative(),
                single::encode(self.mantissa() as nat, 1, self.exponent() - 1075),
            )
        }
    }

    /// The larger of two numbers; a NaN gives way to the other.
    pub open spec fn larger(self, other: Double) -> Double {
        if self.nan() {
            other
        } else if other.nan() {
            self
        } else if self.below(other) {
            other
        } else {
            self
        }
    }

    /// What a number leaves over its whole part.
    pub open spec fn fraction(self) -> Double {
        if !self.finite() {
            not_a_number()
        } else if self.parts().e >= 0 {
            Double { bits: 0 }
        } else {
            Double {
                bits: encode(
                    (self.mantissa() % pow2((-self.parts().e) as nat) as int) as nat,
                    1,
                    self.parts().e as int,
                ) as u64,
            }
        }
    }

    /// What a number from zero up leaves over its whole part.
    pub fn fract(self) -> (x: Double)
        requires
            !self.negative(),
        ensures
            x == self.fraction(),
    {
        if !self.is_finite() {
            return Double { bits: 0x7FF8_0000_0000_0000 };
        }
        let p: Parts = self.take_apart();
        if p.e >= 0 {
            return Double { bits: 0 };
        }
        let down: u32 = (-p.e) as u32;
        let m: u64 = if down >= 53 {
            proof {
                lemma2_to64();
                lemma2_to64_rest();
                if down > 53 {
                    lemma_pow2_strictly_increases(53, down as nat);
                }
                vstd::arithmetic::div_mod::lemma_small_mod(p.m as nat, pow2(down as nat));
            }
            p.m
        } else {
            proof {
                lemma2_to64();
                lemma2_to64_rest();
                lemma_pow2_strictly_increases(down as nat, 53);
                lemma_pow2_pos(down as nat);
                assert(1 * pow2(down as nat) <= u64::MAX);
                vstd::bits::lemma_u64_shl_is_mul(1, down as u64);
            }
            p.m % (1u64 << (down as u64))
        };
        Double { bits: arith::pack(Format::Double, m as u128, 1, p.e) }
    }

    pub fn is_nan(self) -> (yes: bool)
        ensures
            yes == self.nan(),
    {
        self.bits % SIGN > INFINITE
    }

    pub fn is_finite(self) -> (yes: bool)
        ensures
            yes == self.finite(),
    {
        self.bits % SIGN < INFINITE
    }

    pub fn is_negative(self) -> (yes: bool)
        ensures
            yes == self.negative(),
    {
        self.bits >= SIGN
    }

    fn order_key(self) -> (k: i128)
        ensures
            k == self.key(),
    {
        let m: i128 = (self.bits % SIGN) as i128;
        if self.bits >= SIGN {
            -m
        } else {
            m
        }
    }

    /// Whether `self < other`.
    pub fn lt(self, other: Double) -> (yes: bool)
        ensures
            yes == self.below(other),
    {
        !self.is_nan() && !other.is_nan() && self.order_key() < other.order_key()
    }

    /// Whether `self <= other`.
    pub fn le(self, other: Double) -> (yes: bool)
        ensures
            yes == self.at_most(other),
    {
        !self.is_nan() && !other.is_nan() && self.order_key() <= other.order_key()
    }

    /// The larger of two numbers; a NaN gives way to the other.
    pub fn max(self, other: Double) -> (x: Double)
        ensures
            x == self.larger(other),
    {
        if self.is_nan() {
            other
        } else if other.is_nan() {
            self
        } else if self.lt(other) {
            other
        } else {
            self
        }
    }

    fn take_apart(self) -> (p: Parts)
        requires
            self.finite(),
        ensures
            p == self.parts(),
            p.fits(Format::Double),
            p.m == self.mantissa(),
            p.e == self.exponent() - 1075,
    {
        let m: u64 = self.bits % SIGN;
        if m < HIDDEN {
            Parts { negative: self.bits >= SIGN, m, e: -1074 }
        } else {
            Parts {
                negative: self.bits >= SIGN,
                m: HIDDEN + m % HIDDEN,
                e: (m / HIDDEN) as i32 - 1075,
            }
        }
    }

    /// `-self`.
    pub fn negated(self) -> (x: Double)
        ensures
            x == self.opposite(),
    {
        if self.bits >= SIGN {
            Double { bits: self.bits - SIGN }
        } else {
            Double { bits: self.bits + SIGN }
        }
    }

    /// `self * other`.
    pub fn times(self, other: Double) -> (x: Double)
        ensures
            x == self.product(other),
    {
        if self.is_nan() || other.is_nan() {
            return Double { bits: 0x7FF8_0000_0000_0000 };
        }
        let negative: bool = self.is_negative() != other.is_negative();
        if self.is_finite() && other.is_finite() {
            let (a, b): (Parts, Parts) = (self.take_apart(), other.take_apart());
            with_sign(negative, arith::multiply(Format::Double, a, b))
        } else if self.bits % SIGN == 0 || other.bits % SIGN == 0 {
            Double { bits: 0x7FF8_0000_0000_0000 }
        } else {
            with_sign(negative, INFINITE)
        }
    }

    /// `self / other`.
    pub fn over(self, other: Double) -> (x: Double)
        ensures
            x == self.quotient(other),
    {
        let negative: bool = self.is_negative() != other.is_negative();
        let zero: bool = self.bits % SIGN == 0;
        let by_zero: bool = other.bits % SIGN == 0;
        if self.is_nan() || other.is_nan() || (!self.is_finite() && !other.is_finite()) || (zero
            && by_zero) {
            Double { bits: 0x7FF8_0000_0000_0000 }
        } else if !self.is_finite() || by_zero {
            with_sign(negative, INFINITE)
        } else if !other.is_finite() {
            with_sign(negative, 0)
        } else {
            let (a, b): (Parts, Parts) = (self.take_apart(), other.take_apart());
            with_sign(negative, arith::divide(Format::Double, a, b))
        }
    }

    /// `self + other`.
    pub fn plus(self, other: Double) -> (x: Double)
        ensures
            x == self.sum(other),
    {
        if self.is_nan() || other.is_nan() {
            Double { bits: 0x7FF8_0000_0000_0000 }
        } else if self.is_finite() && other.is_finite() {
            let (a, b): (Parts, Parts) = (self.take_apart(), other.take_apart());
            let (negative, mag): (bool, u64) = arith::combine(Format::Double, a, b);
            with_sign(negative, mag)
        } else if self.is_finite() {
            other
        } else if other.is_finite() || self.is_negative() == other.is_negative() {
            self
        } else {
            Double { bits: 0x7FF8_0000_0000_0000 }
        }
    }

    /// `self - other`.
    pub fn minus(self, other: Double) -> (x: Double)
        ensures
            x == self.difference(other),
    {
        self.plus(other.negated())
    }

    /// The number nearest to an unsigned integer.
    pub fn from_whole(n: u64) -> (x: Double)
        ensures
            x == Double::nearest_to(n as int),
    {
        Double { bits: arith::pack(Format::Double, n as u128, 1, 0) }
    }

    /// The same number in double precision.
    pub fn from_single(x: Single) -> (y: Double)
        ensures
            y == Double::widened(x),
    {
        if x.is_nan() {
            Double { bits: 0x7FF8_0000_0000_0000 }
        } else if !x.is_finite() {
            with_sign(x.is_negative(), INFINITE)
        } else {
            let p: Parts = x.take_apart();
            with_sign(x.is_negative(), arith::pack(Format::Double, p.m as u128, 1, p.e))
        }
    }

    /// The nearest single precision number.
    pub fn to_single(self) -> (x: Single)
        ensures
            x == self.narrowed(),
    {
        if self.is_nan() {
            return Single { bits: 0x7FC0_0000 };
        }
        let mag: u32 = if !self.is_finite() {
            single::INFINITE
        } else {
            let p: Parts = self.take_apart();
            arith::pack(Format::Single, p.m as u128, 1, p.e) as u32
        };
        if self.is_negative() {
            Single { bits: single::SIGN + mag }
        } else {
            Single { bits: mag }
        }
    }
}

fn with_sign(negative: bool, magnitude: u64) -> (x: Double)
    requires
        magnitude <= INFINITE,
    ensures
        x == signed(negative, magnitude as int),
{
    if negative {
        Double { bits: SIGN + magnitude }
    } else {
        Double { bits: magnitude }
    }
}

} // verus!
