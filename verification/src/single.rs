//! IEEE-754 single precision numbers, held as their bit patterns.
//!
//! The rules of the instrument compare, clamp and quantise real-valued
//! settings. All of that is exact integer work on the encoding: the order of
//! two numbers is the order of their sign-magnitude patterns, and a rounded
//! product or quotient is an integer division with a tie rule.

use crate::arith;
use crate::arith::{Format, Parts};
use crate::rounding;
use vstd::arithmetic::power2::*;
use vstd::prelude::*;

verus! {

/// Two to the 23rd: the implicit leading one of a normal mantissa.
pub const HIDDEN: u32 = 0x0080_0000;

/// The pattern of positive infinity, and of no larger finite magnitude.
pub const INFINITE: u32 = 0x7F80_0000;

/// The sign bit.
pub const SIGN: u32 = 0x8000_0000;

/// The pattern of one.
pub const ONE_BITS: u32 = 0x3F80_0000;

/// A single precision number.
#[derive(Clone, Copy, Debug, PartialEq, Eq, Structural)]
pub struct Single {
    /// The IEEE-754 encoding: sign, eight bits of exponent, 23 of mantissa.
    pub bits: u32,
}

/// How many bits of `p` lie beyond the first 24.
pub open spec fn extra_bits(p: nat) -> nat
    decreases p,
{
    if p < 0x0100_0000 {
        0
    } else {
        1 + extra_bits(p / 2)
    }
}

/// An integer rounded to 24 significant bits, ties to even.
pub open spec fn round24(p: nat) -> nat {
    rounding::nearest(p, pow2(extra_bits(p))) * pow2(extra_bits(p))
}

/// The pattern of the number nearest to `(n / d) * 2^k`, ties to even.
pub open spec fn encode(n: nat, d: nat, k: int) -> int {
    Format::Single.encode(n, d, k)
}

/// The pattern of the number nearest to `n / d`.
pub open spec fn ratio_bits(n: nat, d: nat) -> int {
    encode(n, d, 0)
}

impl Single {
    /// The magnitude: the pattern without its sign.
    pub open spec fn magnitude(self) -> int {
        self.bits as int % SIGN as int
    }

    pub open spec fn negative(self) -> bool {
        self.bits >= SIGN
    }

    pub open spec fn nan(self) -> bool {
        self.magnitude() > INFINITE
    }

    pub open spec fn finite(self) -> bool {
        self.magnitude() < INFINITE
    }

    /// An integer that orders numbers as their values do.
    pub open spec fn key(self) -> int {
        if self.negative() {
            -self.magnitude()
        } else {
            self.magnitude()
        }
    }

    /// The exact value of a finite number, in units of two to the minus 149.
    pub open spec fn units(self) -> int {
        let m = magnitude_units(self.magnitude());
        if self.negative() {
            -m
        } else {
            m
        }
    }

    /// IEEE `<`: false as soon as one side is not a number.
    pub open spec fn below(self, other: Single) -> bool {
        !self.nan() && !other.nan() && self.key() < other.key()
    }

    /// IEEE `<=`.
    pub open spec fn at_most(self, other: Single) -> bool {
        !self.nan() && !other.nan() && self.key() <= other.key()
    }

    /// The number held between two bounds; a NaN stays a NaN.
    pub open spec fn clamped(self, lo: Single, hi: Single) -> Single {
        if self.below(lo) {
            lo
        } else if hi.below(self) {
            hi
        } else {
            self
        }
    }

    /// The larger of two numbers; a NaN gives way to the other.
    pub open spec fn larger(self, other: Single) -> Single {
        if self.nan() {
            other
        } else if other.nan() {
            self
        } else if self.below(other) {
            other
        } else {
            self
        }
    }

    /// The smaller of two numbers; a NaN gives way to the other.
    pub open spec fn smaller(self, other: Single) -> Single {
        if self.nan() {
            other
        } else if other.nan() {
            self
        } else if other.below(self) {
            other
        } else {
            self
        }
    }

    /// The mantissa of a finite magnitude, implicit bit included.
    pub open spec fn mantissa(self) -> int {
        let m = self.magnitude();
        if m < HIDDEN {
            m
        } else {
            HIDDEN + m % HIDDEN as int
        }
    }

    /// The exponent field, where the subnormals share that of the smallest
    /// normal numbers.
    pub open spec fn exponent(self) -> int {
        let m = self.magnitude();
        if m < HIDDEN {
            1
        } else {
            m / HIDDEN as int
        }
    }

    /// The whole part of the magnitude times `k`, where the product is first
    /// rounded to single precision. For magnitudes of at most one.
    pub open spec fn scaled(self, k: nat) -> int {
        round24((self.mantissa() as nat) * k) as int / pow2(
            (150 - self.exponent()) as nat,
        ) as int
    }
}

/// The exact value of a finite magnitude, in units of two to the minus 149.
pub open spec fn magnitude_units(m: int) -> int {
    if m < HIDDEN {
        m
    } else {
        (HIDDEN + m % HIDDEN as int) * pow2((m / HIDDEN as int - 1) as nat)
    }
}

/// A larger finite magnitude stands for a larger number.
pub proof fn lemma_units_increase(a: int, b: int)
    requires
        0 <= a < b,
    ensures
        magnitude_units(a) < magnitude_units(b),
    decreases b - a,
{
    if a + 1 < b {
        lemma_units_increase(a, b - 1);
        lemma_units_step(b - 1);
    } else {
        lemma_units_step(a);
    }
}

proof fn lemma_units_step(a: int)
    requires
        0 <= a,
    ensures
        magnitude_units(a) < magnitude_units(a + 1),
{
    let h = HIDDEN as int;
    lemma2_to64();
    if a + 1 < h {
    } else if a + 1 == h {
        assert((a + 1) % h == 0);
        assert((a + 1) / h == 1);
        assert(magnitude_units(a + 1) == h * pow2(0));
    } else {
        let e = (a / h - 1) as nat;
        lemma_pow2_pos(e);
        if (a + 1) / h == a / h {
            assert((a + 1) % h == a % h + 1);
            assert((h + a % h) * pow2(e) < (h + a % h + 1) * pow2(e)) by (nonlinear_arith)
                requires
                    pow2(e) > 0,
            ;
        } else {
            assert((a + 1) / h == a / h + 1);
            assert((a + 1) % h == 0);
            assert(a % h == h - 1);
            lemma_pow2_unfold(e + 1);
            assert((h + a % h) * pow2(e) < h * (2 * pow2(e))) by (nonlinear_arith)
                requires
                    pow2(e) > 0,
                    a % h == h - 1,
            ;
        }
    }
}

/// The order on patterns is the order of the numbers they stand for.
pub proof fn law_order_is_numeric(a: Single, b: Single)
    requires
        a.finite(),
        b.finite(),
    ensures
        a.below(b) <==> a.units() < b.units(),
        a.at_most(b) <==> a.units() <= b.units(),
{
    let (m, n) = (a.magnitude(), b.magnitude());
    lemma_units_zero();
    if 0 < m {
        lemma_units_increase(0, m);
    }
    if 0 < n {
        lemma_units_increase(0, n);
    }
    if m < n {
        lemma_units_increase(m, n);
    }
    if n < m {
        lemma_units_increase(n, m);
    }
}

proof fn lemma_units_zero()
    ensures
        magnitude_units(0) == 0,
{
}

impl Single {
    /// The number with the given encoding.
    pub fn from_bits(bits: u32) -> (x: Single)
        ensures
            x.bits == bits,
    {
        Single { bits }
    }

    pub fn to_bits(self) -> (bits: u32)
        ensures
            bits == self.bits,
    {
        self.bits
    }

    pub fn is_nan(self) -> (yes: bool)
        ensures
            yes == self.nan(),
    {
        self.bits % SIGN > INFINITE
    }

    /// Whether the number is zero, of either sign.
    pub fn is_zero(self) -> (yes: bool)
        ensures
            yes == (self.magnitude() == 0),
    {
        self.bits % SIGN == 0
    }

    pub fn is_finite(self) -> (yes: bool)
        ensures
            yes == self.finite(),
    {
        self.bits % SIGN < INFINITE
    }

    fn order_key(self) -> (k: i64)
        ensures
            k == self.key(),
    {
        let m: i64 = (self.bits % SIGN) as i64;
        if self.bits >= SIGN {
            -m
        } else {
            m
        }
    }

    /// Whether `self < other`.
    pub fn lt(self, other: Single) -> (yes: bool)
        ensures
            yes == self.below(other),
    {
        !self.is_nan() && !other.is_nan() && self.order_key() < other.order_key()
    }

    /// Whether `self <= other`.
    pub fn le(self, other: Single) -> (yes: bool)
        ensures
            yes == self.at_most(other),
    {
        !self.is_nan() && !other.is_nan() && self.order_key() <= other.order_key()
    }

    /// Holds the number between two ordered bounds. A NaN passes through.
    pub fn clamp(self, lo: Single, hi: Single) -> (x: Single)
        requires
            lo.at_most(hi),
        ensures
            x == self.clamped(lo, hi),
    {
        if self.lt(lo) {
            lo
        } else if hi.lt(self) {
            hi
        } else {
            self
        }
    }

    /// The larger of two numbers; a NaN gives way to the other.
    pub fn max(self, other: Single) -> (x: Single)
        ensures
            x == self.larger(other),
    {
        if self.is_nan() {
            other
        } else if other.is_nan() {
            self
        } else if self.lt(other) {
            other
        } else {
            self
        }
    }

    /// The smaller of two numbers; a NaN gives way to the other.
    pub fn min(self, other: Single) -> (x: Single)
        ensures
            x == self.smaller(other),
    {
        if self.is_nan() {
            other
        } else if other.is_nan() {
            self
        } else if other.lt(self) {
            other
        } else {
            self
        }
    }

    /// The whole part of the magnitude times `k`, the product rounded to
    /// single precision first, as the hardware would.
    pub fn scale(self, k: u32) -> (n: u32)
        requires
            self.magnitude() <= ONE_BITS,
            k <= 0x7FFF,
        ensures
            n == self.scaled(k as nat),
            n <= k,
    {
        let m: u32 = self.bits % SIGN;
        let mantissa: u64 = if m < HIDDEN {
            m as u64
        } else {
            (HIDDEN + m % HIDDEN) as u64
        };
        let exponent: u32 = if m < HIDDEN {
            1
        } else {
            m / HIDDEN
        };
        assert(mantissa * k <= 0x00FF_FFFF * 0x7FFF) by (nonlinear_arith)
            requires
                0 <= mantissa <= 0x00FF_FFFF,
                0 <= k <= 0x7FFF,
        ;
        let p: u64 = mantissa * k as u64;
        let r: u64 = round_to_24(p);
        let down: u32 = 150 - exponent;
        proof {
            lemma_scaled_at_most(self, k as nat);
        }
        if down >= 64 {
            proof {
                lemma2_to64_rest();
                if down > 64 {
                    lemma_pow2_strictly_increases(64, down as nat);
                }
                vstd::arithmetic::div_mod::lemma_basic_div(r as int, pow2(down as nat) as int);
            }
            0
        } else {
            proof {
                vstd::bits::lemma_u64_shr_is_div(r, down as u64);
            }
            (r >> (down as u64)) as u32
        }
    }

    /// The number nearest to `n / d`.
    pub fn ratio(n: u32, d: u32) -> (x: Single)
        requires
            d > 0,
        ensures
            x.bits == ratio_bits(n as nat, d as nat),
    {
        Single { bits: arith::pack(Format::Single, n as u128, d as u128, 0) as u32 }
    }
}

/// Rounds an integer to 24 significant bits, ties to even.
fn round_to_24(p: u64) -> (r: u64)
    requires
        p <= 0x00FF_FFFF * 0x7FFF,
    ensures
        r == round24(p as nat),
{
    let mut top: u64 = p;
    let mut u: u64 = 1;
    let ghost mut j: nat = 0;
    proof {
        lemma2_to64();
    }
    while top >= 0x0100_0000
        invariant
            u == pow2(j),
            u >= 1,
            u == 1 || u <= p,
            top == p as int / u as int,
            j + extra_bits(top as nat) == extra_bits(p as nat),
            p <= 0x00FF_FFFF * 0x7FFF,
        decreases top,
    {
        proof {
            assert(2 * u <= p) by (nonlinear_arith)
                requires
                    top >= 2,
                    top == p as int / u as int,
                    u >= 1,
            ;
            lemma_pow2_unfold(j + 1);
            vstd::arithmetic::div_mod::lemma_div_denominator(p as int, u as int, 2);
            j = j + 1;
        }
        top = top / 2;
        u = u * 2;
    }
    let r: u64 = p % u;
    let up: bool = 2 * r > u || (2 * r == u && top % 2 == 1);
    let m: u64 = if up {
        top + 1
    } else {
        top
    };
    proof {
        assert(m == rounding::nearest(p as nat, pow2(extra_bits(p as nat))));
        assert(m * u <= 2 * p + 2) by (nonlinear_arith)
            requires
                m <= top + 1,
                top == p as int / u as int,
                u >= 1,
                u == 1 || u <= p,
        ;
    }
    m * u
}

proof fn lemma_extra_bits(p: nat, j: nat)
    requires
        p < 0x0100_0000 * pow2(j),
    ensures
        extra_bits(p) <= j,
    decreases j,
{
    lemma2_to64();
    if j > 0 && p >= 0x0100_0000 {
        lemma_pow2_unfold(j);
        lemma_extra_bits(p / 2, (j - 1) as nat);
    }
}

/// Scaling a magnitude of at most one by `k` gives at most `k`.
pub proof fn lemma_scaled_at_most(x: Single, k: nat)
    requires
        x.magnitude() <= ONE_BITS,
        k <= 0x7FFF,
    ensures
        0 <= x.scaled(k) <= k,
        round24((x.mantissa() as nat) * k) < 0x100_0000_0000,
{
    let m = x.mantissa() as nat;
    let p = m * k;
    let down = (150 - x.exponent()) as nat;
    let j = extra_bits(p);
    lemma2_to64();
    assert(p < 0x0100_0000 * 0x8000) by (nonlinear_arith)
        requires
            p == m * k,
            m < 0x0100_0000,
            k <= 0x7FFF,
    ;
    lemma_extra_bits(p, 15);
    lemma_pow2_adds(j, (down - j) as nat);
    lemma_pow2_pos(j);
    lemma_pow2_pos(down);
    if down > 24 {
        lemma_pow2_strictly_increases(24, down);
    }
    if j < 15 {
        lemma_pow2_strictly_increases(j, 15);
    }
    assert(m <= pow2(down));
    let c = pow2((down - j) as nat) * k;
    assert(p <= pow2(down) * k) by (nonlinear_arith)
        requires
            p == m * k,
            m <= pow2(down),
    ;
    assert(c * pow2(j) == pow2(down) * k) by (nonlinear_arith)
        requires
            c == pow2((down - j) as nat) * k,
            pow2(j) * pow2((down - j) as nat) == pow2(down),
    ;
    rounding::lemma_nearest_at_most(p, pow2(j), c);
    let r = round24(p);
    assert(r <= pow2(down) * k) by (nonlinear_arith)
        requires
            r == rounding::nearest(p, pow2(j)) * pow2(j),
            rounding::nearest(p, pow2(j)) <= c,
            c * pow2(j) == pow2(down) * k,
    ;
    assert(r as int / pow2(down) as int <= k) by (nonlinear_arith)
        requires
            r <= pow2(down) * k,
            pow2(down) > 0,
    ;
    assert(r <= p + pow2(j)) by (nonlinear_arith)
        requires
            r == rounding::nearest(p, pow2(j)) * pow2(j),
            rounding::nearest(p, pow2(j)) <= p / pow2(j) + 1,
            pow2(j) > 0,
    ;
}

proof fn lemma_doublings_bound(n: nat, d: nat)
    requires
        0 < n < 0x0100_0000 * d,
        d <= 0x0100_0000,
    ensures
        rounding::doublings(0x0080_0000, n, d) <= 48,
{
    let s = rounding::doublings(0x0080_0000, n, d);
    rounding::lemma_doublings(0x0080_0000, n, d);
    if s > 48 {
        lemma2_to64_rest();
        lemma_pow2_strictly_increases(48, s);
        assert(n * pow2(s) > 0x0100_0000 * d) by (nonlinear_arith)
            requires
                n >= 1,
                d <= 0x0100_0000,
                pow2(s) > 0x1_0000_0000_0000,
        ;
    }
}

/// The encoding of a quotient that needs no halving and no subnormal.
proof fn lemma_ratio_bits(n: nat, d: nat)
    requires
        0 < n < 0x0100_0000 * d,
        rounding::doublings(0x0080_0000, n, d) <= 149,
    ensures
        ({
            let s = rounding::doublings(0x0080_0000, n, d);
            let bits = (149 - s) * HIDDEN + rounding::nearest(n * pow2(s), d);
            ratio_bits(n, d) == (if bits > INFINITE {
                INFINITE as int
            } else {
                bits
            })
        }),
{
    rounding::lemma_halvings(0x0080_0000, n, d);
}

/// A quotient of at most one is encoded as a number of at most one, and only
/// nothing is encoded as zero.
pub proof fn lemma_ratio_at_most_one(n: nat, d: nat)
    requires
        n <= d,
        0 < d <= 0x0100_0000,
    ensures
        0 <= ratio_bits(n, d) <= ONE_BITS,
        n > 0 ==> ratio_bits(n, d) > 0,
        n == d ==> ratio_bits(n, d) == ONE_BITS,
{
    if n > 0 {
        rounding::lemma_doublings(0x0080_0000, n, d);
        lemma_doublings_bound(n, d);
        lemma_ratio_bits(n, d);
        lemma2_to64();
        lemma2_to64_rest();
        let s = rounding::doublings(0x0080_0000, n, d);
        let p = n * pow2(s);
        rounding::lemma_nearest_at_most(p, d, 0x0100_0000);
        rounding::lemma_nearest_at_least(p, d, 0x0080_0000);
        if s < 23 {
            lemma_pow2_strictly_increases(s, 23);
            assert(p < 0x0080_0000 * d) by (nonlinear_arith)
                requires
                    p == n * pow2(s),
                    0 < n <= d,
                    pow2(s) < 0x0080_0000,
            ;
        } else if s == 23 {
            assert(p <= 0x0080_0000 * d) by (nonlinear_arith)
                requires
                    p == n * pow2(s),
                    n <= d,
                    pow2(s) == 0x0080_0000,
            ;
            rounding::lemma_nearest_at_most(p, d, 0x0080_0000);
        } else if s > 48 {
            lemma_pow2_strictly_increases(48, s);
            assert(p > 0x0100_0000 * d) by (nonlinear_arith)
                requires
                    p == n * pow2(s),
                    n >= 1,
                    d <= 0x0100_0000,
                    pow2(s) > 0x1_0000_0000_0000,
            ;
        }
        if n == d && s > 23 {
            lemma_pow2_strictly_increases(23, s);
            lemma_pow2_unfold(s);
            assert(pow2(s) >= 0x0100_0000) by {
                if s > 24 {
                    lemma_pow2_strictly_increases(24, s);
                }
            }
            assert(p >= 0x0100_0000 * d) by (nonlinear_arith)
                requires
                    p == n * pow2(s),
                    n == d,
                    pow2(s) >= 0x0100_0000,
            ;
        }
    }
}

/// A 24-bit fraction below one is held exactly, so it stays below one.
pub proof fn lemma_ratio_below_one(n: nat, d: nat)
    requires
        n < d,
        d == 0x0100_0000,
    ensures
        0 <= ratio_bits(n, d) < ONE_BITS,
{
    lemma_ratio_at_most_one(n, d);
    if n > 0 {
        rounding::lemma_doublings(0x0080_0000, n, d);
        lemma_doublings_bound(n, d);
        lemma_ratio_bits(n, d);
        lemma2_to64();
        let s = rounding::doublings(0x0080_0000, n, d);
        if s <= 24 {
            if s < 24 {
                lemma_pow2_strictly_increases(s, 24);
            }
            assert(n * pow2(s) <= n * 0x0100_0000) by (nonlinear_arith)
                requires
                    pow2(s) <= 0x0100_0000,
            ;
            rounding::lemma_nearest_at_most(n * pow2(s), d, n);
            if s < 24 {
                assert(n * pow2(s) < 0x0080_0000 * d) by (nonlinear_arith)
                    requires
                        n < d,
                        d == 0x0100_0000,
                        pow2(s) <= 0x0080_0000,
                        n > 0,
                ;
            }
        } else {
            rounding::lemma_nearest_at_most(n * pow2(s), d, 0x0100_0000);
        }
    }
}

/// A byte divided by 255 and scaled back by 255 is the same byte.
pub proof fn law_byte_survives_unit_scaling(n: u8)
    ensures
        (Single { bits: ratio_bits(n as nat, 255) as u32 }).scaled(255) == n,
{
    let x = Single { bits: ratio_bits(n as nat, 255) as u32 };
    lemma2_to64();
    if n == 0 {
        assert(x.mantissa() == 0);
        assert(round24(0) == 0);
        lemma_pow2_pos(149);
        assert(0int / pow2(149) as int == 0) by (nonlinear_arith)
            requires
                pow2(149) > 0,
        ;
    } else {
        rounding::lemma_doublings(0x0080_0000, n as nat, 255);
        lemma_doublings_bound(n as nat, 255);
        lemma_ratio_bits(n as nat, 255);
        lemma_ratio_at_most_one(n as nat, 255);
        let s = rounding::doublings(0x0080_0000, n as nat, 255);
        let p = n * pow2(s);
        lemma_byte_shift(n, s);
        let sh = s as u64;
        let w = n as u64;
        assert((1u64 << sh) == pow2(s)) by {
            vstd::bits::lemma_u64_shl_is_mul(1, sh);
        }
        vstd::bits::lemma_u64_shl_is_mul(w, sh);
        let pw = w << sh;
        let m = (pw / 255 + (if 2 * (pw % 255) > 255 { 1u64 } else { 0u64 })) as u64;
        assert(m == rounding::nearest(p as nat, 255));
        let q = (m * 255) as u64;
        let u: u64 = if q < 0x8000_0000 { 128 } else { 256 };
        let top = q / u;
        let rest = q % u;
        let t = (top + (if 2 * rest > u || (2 * rest == u && top % 2 == 1) { 1u64 } else { 0u64 })) as u64;
        assert(m < 0x0100_0000 && q < 0x1_0000_0000 && q >= 0x4000_0000 && ((t * u) as u64) >> sh == w) by (bit_vector)
            requires
                1 <= w <= 255,
                23 <= sh <= 31,
                pw == w << sh,
                0x7F80_0000 <= pw < 0xFF00_0000,
                m == pw / 255 + (if 2 * (pw % 255) > 255 { 1u64 } else { 0u64 }),
                q == m * 255,
                u == (if q < 0x8000_0000 { 128u64 } else { 256u64 }),
                top == q / u,
                rest == q % u,
                t == top + (if 2 * rest > u || (2 * rest == u && top % 2 == 1) { 1u64 } else { 0u64 }),
        ;
        lemma_extra_bits_exact(q as nat);
        assert(x.mantissa() == m);
        assert(x.exponent() == 150 - s);
        assert(round24(q as nat) == t * u);
        vstd::bits::lemma_u64_shr_is_div((t * u) as u64, sh);
    }
}

proof fn lemma_byte_shift(n: u8, s: nat)
    requires
        n > 0,
        0x0080_0000 * 255 <= n * pow2(s) < 0x0100_0000 * 255,
    ensures
        23 <= s <= 31,
{
    lemma2_to64();
    if s < 23 {
        lemma_pow2_strictly_increases(s, 23);
        assert(n * pow2(s) < 0x0080_0000 * 255) by (nonlinear_arith)
            requires
                n <= 255,
                n > 0,
                pow2(s) < 0x0080_0000,
        ;
    }
    if s > 31 {
        if s > 32 {
            lemma_pow2_strictly_increases(32, s);
        }
        assert(n * pow2(s) >= 0x1_0000_0000) by (nonlinear_arith)
            requires
                n >= 1,
                pow2(s) >= 0x1_0000_0000,
        ;
    }
}

proof fn lemma_extra_bits_exact(q: nat)
    requires
        0x4000_0000 <= q < 0x1_0000_0000,
    ensures
        pow2(extra_bits(q)) == (if q < 0x8000_0000 {
            128nat
        } else {
            256nat
        }),
{
    reveal_with_fuel(extra_bits, 10);
    lemma2_to64();
}

/// The number with a given sign and magnitude pattern.
pub open spec fn signed(negative: bool, magnitude: int) -> Single {
    Single {
        bits: (if negative {
            SIGN + magnitude
        } else {
            magnitude
        }) as u32,
    }
}

/// The quiet NaN that an operation without a result gives.
pub open spec fn not_a_number() -> Single {
    Single { bits: 0x7FC0_0000 }
}

/// The whole part of a finite magnitude.
pub open spec fn whole_of(x: Single) -> int {
    if x.exponent() >= 150 {
        x.mantissa() * pow2((x.exponent() - 150) as nat)
    } else {
        x.mantissa() / pow2((150 - x.exponent()) as nat) as int
    }
}

impl Single {
    /// A finite number taken apart.
    pub open spec fn parts(self) -> Parts {
        Parts {
            negative: self.negative(),
            m: self.mantissa() as u64,
            e: (self.exponent() - 150) as i32,
        }
    }

    /// The IEEE product.
    #[verifier::opaque]
    pub open spec fn product(self, other: Single) -> Single {
        if self.nan() || other.nan() {
            not_a_number()
        } else if self.finite() && other.finite() {
            signed(
                self.negative() != other.negative(),
                arith::product_bits(Format::Single, self.parts(), other.parts()),
            )
        } else if self.magnitude() == 0 || other.magnitude() == 0 {
            not_a_number()
        } else {
            signed(self.negative() != other.negative(), INFINITE as int)
        }
    }

    /// The IEEE quotient.
    #[verifier::opaque]
    pub open spec fn quotient(self, other: Single) -> Single {
        if self.nan() || other.nan() || (!self.finite() && !other.finite()) || (self.magnitude()
            == 0 && other.magnitude() == 0) {
            not_a_number()
        } else if !self.finite() || other.magnitude() == 0 {
            signed(self.negative() != other.negative(), INFINITE as int)
        } else if !other.finite() {
            signed(self.negative() != other.negative(), 0)
        } else {
            signed(
                self.negative() != other.negative(),
                arith::quotient_bits(Format::Single, self.parts(), other.parts()),
            )
        }
    }

    /// The IEEE sum.
    #[verifier::opaque]
    pub open spec fn sum(self, other: Single) -> Single {
        if self.nan() || other.nan() {
            not_a_number()
        } else if self.finite() && other.finite() {
            signed(
                arith::sum_negative(self.parts(), other.parts()),
                arith::sum_bits(Format::Single, self.parts(), other.parts()),
            )
        } else if self.finite() {
            other
        } else if other.finite() || self.negative() == other.negative() {
            self
        } else {
            not_a_number()
        }
    }

    /// The number with its sign turned round.
    pub open spec fn opposite(self) -> Single {
        Single {
            bits: (if self.negative() {
                self.bits - SIGN
            } else {
                self.bits + SIGN
            }) as u32,
        }
    }

    /// The IEEE difference.
    pub open spec fn difference(self, other: Single) -> Single {
        self.sum(other.opposite())
    }

    /// The number as an unsigned integer: cut off toward zero, held to the
    /// range, and zero for a NaN.
    pub open spec fn truncated(self) -> int {
        if self.nan() || self.negative() {
            0
        } else if !self.finite() || whole_of(self) > u64::MAX {
            u64::MAX as int
        } else {
            whole_of(self)
        }
    }

    /// The number nearest to an unsigned integer.
    pub open spec fn nearest_to(n: int) -> Single {
        Single { bits: encode(n as nat, 1, 0) as u32 }
    }

    /// What a number leaves over its whole part, with its sign.
    pub open spec fn fraction(self) -> Single {
        if !self.finite() {
            not_a_number()
        } else if self.parts().e >= 0 {
            signed(self.negative(), 0)
        } else {
            signed(
                self.negative(),
                encode(
                    (self.mantissa() % pow2((-self.parts().e) as nat) as int) as nat,
                    1,
                    self.parts().e as int,
                ),
            )
        }
    }

    /// What a number leaves over its whole part.
    pub fn fract(self) -> (x: Single)
        ensures
            x == self.fraction(),
    {
        if !self.is_finite() {
            return Single { bits: 0x7FC0_0000 };
        }
        let p: Parts = self.take_apart();
        if p.e >= 0 {
            return with_sign(p.negative, 0);
        }
        let down: u32 = (-p.e) as u32;
        let m: u64 = if down >= 24 {
            proof {
                lemma2_to64();
                if down > 24 {
                    lemma_pow2_strictly_increases(24, down as nat);
                }
                vstd::arithmetic::div_mod::lemma_small_mod(p.m as nat, pow2(down as nat));
            }
            p.m
        } else {
            proof {
                lemma2_to64();
                lemma_pow2_strictly_increases(down as nat, 24);
                lemma_pow2_pos(down as nat);
                assert(1 * pow2(down as nat) <= u64::MAX);
                vstd::bits::lemma_u64_shl_is_mul(1, down as u64);
            }
            p.m % (1u64 << (down as u64))
        };
        with_sign(p.negative, arith::pack(Format::Single, m as u128, 1, p.e) as u32)
    }

    pub(crate) fn take_apart(self) -> (p: Parts)
        requires
            self.finite(),
        ensures
            p == self.parts(),
            p.fits(Format::Single),
            p.m == self.mantissa(),
            p.e == self.exponent() - 150,
    {
        let m: u32 = self.bits % SIGN;
        if m < HIDDEN {
            Parts { negative: self.bits >= SIGN, m: m as u64, e: -149 }
        } else {
            Parts {
                negative: self.bits >= SIGN,
                m: (HIDDEN + m % HIDDEN) as u64,
                e: (m / HIDDEN) as i32 - 150,
            }
        }
    }

    /// The number without its sign.
    pub open spec fn size(self) -> Single {
        Single { bits: self.magnitude() as u32 }
    }

    pub fn abs(self) -> (x: Single)
        ensures
            x == self.size(),
    {
        Single { bits: self.bits % SIGN }
    }

    pub fn is_negative(self) -> (yes: bool)
        ensures
            yes == self.negative(),
    {
        self.bits >= SIGN
    }

    /// `-self`.
    pub fn negated(self) -> (x: Single)
        ensures
            x == self.opposite(),
    {
        if self.bits >= SIGN {
            Single { bits: self.bits - SIGN }
        } else {
            Single { bits: self.bits + SIGN }
        }
    }

    /// `self * other`.
    pub fn times(self, other: Single) -> (x: Single)
        ensures
            x == self.product(other),
    {
        proof {
            reveal(Single::product);
        }
        if self.is_nan() || other.is_nan() {
            return Single { bits: 0x7FC0_0000 };
        }
        let negative: bool = self.is_negative() != other.is_negative();
        if self.is_finite() && other.is_finite() {
            let (a, b): (Parts, Parts) = (self.take_apart(), other.take_apart());
            with_sign(negative, arith::multiply(Format::Single, a, b) as u32)
        } else if self.bits % SIGN == 0 || other.bits % SIGN == 0 {
            Single { bits: 0x7FC0_0000 }
        } else {
            with_sign(negative, INFINITE)
        }
    }

    /// `self / other`.
    pub fn over(self, other: Single) -> (x: Single)
        ensures
            x == self.quotient(other),
    {
        proof {
            reveal(Single::quotient);
        }
        let negative: bool = self.is_negative() != other.is_negative();
        let zero: bool = self.bits % SIGN == 0;
        let by_zero: bool = other.bits % SIGN == 0;
        if self.is_nan() || other.is_nan() || (!self.is_finite() && !other.is_finite()) || (zero
            && by_zero) {
            Single { bits: 0x7FC0_0000 }
        } else if !self.is_finite() || by_zero {
            with_sign(negative, INFINITE)
        } else if !other.is_finite() {
            with_sign(negative, 0)
        } else {
            let (a, b): (Parts, Parts) = (self.take_apart(), other.take_apart());
            with_sign(negative, arith::divide(Format::Single, a, b) as u32)
        }
    }

    /// `self + other`.
    pub fn plus(self, other: Single) -> (x: Single)
        ensures
            x == self.sum(other),
    {
        proof {
            reveal(Single::sum);
        }
        if self.is_nan() || other.is_nan() {
            Single { bits: 0x7FC0_0000 }
        } else if self.is_finite() && other.is_finite() {
            let (a, b): (Parts, Parts) = (self.take_apart(), other.take_apart());
            let (negative, mag): (bool, u64) = arith::combine(Format::Single, a, b);
            with_sign(negative, mag as u32)
        } else if self.is_finite() {
            other
        } else if other.is_finite() || self.is_negative() == other.is_negative() {
            self
        } else {
            Single { bits: 0x7FC0_0000 }
        }
    }

    /// `self - other`.
    pub fn minus(self, other: Single) -> (x: Single)
        ensures
            x == self.difference(other),
    {
        self.plus(other.negated())
    }

    /// The number as an unsigned integer.
    pub fn to_whole(self) -> (n: u64)
        ensures
            n == self.truncated(),
    {
        if self.is_nan() || self.is_negative() {
            return 0;
        }
        if !self.is_finite() {
            return u64::MAX;
        }
        let p: Parts = self.take_apart();
        proof {
            lemma2_to64();
            lemma2_to64_rest();
        }
        if p.e >= 0 {
            let up: u32 = p.e as u32;
            if up >= 41 {
                proof {
                    if up > 41 {
                        lemma_pow2_strictly_increases(41, up as nat);
                    }
                    assert(p.m * pow2(up as nat) >= 0x0080_0000 * 0x0200_0000_0000)
                        by (nonlinear_arith)
                        requires
                            p.m >= 0x0080_0000,
                            pow2(up as nat) >= 0x0200_0000_0000,
                    ;
                }
                return u64::MAX;
            }
            proof {
                lemma_pow2_strictly_increases(up as nat, 41);
                assert(p.m * pow2(up as nat) < 0x0100_0000 * 0x0200_0000_0000)
                    by (nonlinear_arith)
                    requires
                        0 <= p.m < 0x0100_0000,
                        pow2(up as nat) < 0x0200_0000_0000,
                ;
            }
            let w: u128 = rounding::double(p.m as u128, up);
            if w > u64::MAX as u128 {
                u64::MAX
            } else {
                w as u64
            }
        } else {
            let down: u32 = (-p.e) as u32;
            proof {
                lemma_pow2_pos(down as nat);
            }
            if down >= 64 {
                proof {
                    if down > 64 {
                        lemma_pow2_strictly_increases(64, down as nat);
                    }
                    vstd::arithmetic::div_mod::lemma_basic_div(p.m as int, pow2(down as nat) as int);
                }
                0
            } else {
                proof {
                    vstd::bits::lemma_u64_shr_is_div(p.m, down as u64);
                    assert(p.m as int / pow2(down as nat) as int <= p.m) by (nonlinear_arith)
                        requires
                            pow2(down as nat) >= 1,
                            p.m >= 0,
                    ;
                }
                p.m >> (down as u64)
            }
        }
    }

    /// The number nearest to an unsigned integer.
    pub fn from_whole(n: u64) -> (x: Single)
        ensures
            x == Single::nearest_to(n as int),
    {
        Single { bits: arith::pack(Format::Single, n as u128, 1, 0) as u32 }
    }
}

/// A number cut off to an integer is one that a word holds.
pub proof fn lemma_truncated(x: Single)
    ensures
        0 <= x.truncated() <= u64::MAX,
{
    let (m, e) = (x.mantissa(), x.exponent());
    if e >= 150 {
        let w = pow2((e - 150) as nat) as int;
        assert(m * w >= 0) by (nonlinear_arith)
            requires
                m >= 0,
                w >= 0,
        ;
    } else {
        lemma_pow2_pos((150 - e) as nat);
        vstd::arithmetic::div_mod::lemma_div_pos_is_pos(m, pow2((150 - e) as nat) as int);
    }
}

fn with_sign(negative: bool, magnitude: u32) -> (x: Single)
    requires
        magnitude <= INFINITE,
    ensures
        x == signed(negative, magnitude as int),
{
    if negative {
        Single { bits: SIGN + magnitude }
    } else {
        Single { bits: magnitude }
    }
}

} // verus!
