//! Arithmetic on unpacked binary floating-point numbers: each result is the
//! exact sum, product or quotient, rounded once, to nearest with ties to even.

use crate::rounding;
use vstd::arithmetic::power2::*;
use vstd::prelude::*;

verus! {

/// A binary floating-point format.
#[derive(Clone, Copy, Debug, PartialEq, Eq, Structural)]
pub enum Format {
    /// 24 significant bits.
    Single,
    /// 53 significant bits.
    Double,
}

impl Format {
    /// The value of the leading bit of a full mantissa.
    pub open spec fn h(self) -> nat {
        match self {
            Format::Single => 0x0080_0000,
            Format::Double => 0x0010_0000_0000_0000,
        }
    }

    /// The exponent of the smallest last place.
    pub open spec fn low(self) -> int {
        match self {
            Format::Single => -149,
            Format::Double => -1074,
        }
    }

    /// The pattern of infinity.
    pub open spec fn top(self) -> int {
        match self {
            Format::Single => 0x7F80_0000,
            Format::Double => 0x7FF0_0000_0000_0000,
        }
    }

    /// The largest exponent a finite number has.
    pub open spec fn high(self) -> int {
        match self {
            Format::Single => 104,
            Format::Double => 971,
        }
    }

    fn leading(self) -> (h: u64)
        ensures
            h == self.h(),
    {
        match self {
            Format::Single => 0x0080_0000,
            Format::Double => 0x0010_0000_0000_0000,
        }
    }

    fn lowest(self) -> (e: i32)
        ensures
            e == self.low(),
    {
        match self {
            Format::Single => -149,
            Format::Double => -1074,
        }
    }

    fn infinity(self) -> (bits: u64)
        ensures
            bits == self.top(),
    {
        match self {
            Format::Single => 0x7F80_0000,
            Format::Double => 0x7FF0_0000_0000_0000,
        }
    }

    /// The pattern of the number nearest to `(n / d) * 2^k`.
    pub open spec fn encode(self, n: nat, d: nat, k: int) -> int {
        rounding::encode(self.h(), self.low(), self.top(), n, d, k)
    }
}

/// A finite number taken apart: `m * 2^e`, with a sign.
#[derive(Clone, Copy, Debug, PartialEq, Eq, Structural)]
pub struct Parts {
    pub negative: bool,
    pub m: u64,
    pub e: i32,
}

impl Parts {
    /// Whether a format holds this number, and holds it just so.
    pub open spec fn fits(self, f: Format) -> bool {
        &&& self.m < 2 * f.h()
        &&& f.low() <= self.e <= f.high()
        &&& self.e > f.low() ==> self.m >= f.h()
    }

    /// The pattern of the magnitude.
    pub open spec fn bits(self, f: Format) -> int {
        (self.e - f.low()) * f.h() + self.m
    }

    /// The number over a smaller exponent, with its sign.
    pub open spec fn over(self, lo: int) -> int {
        let x = self.m * pow2((self.e - lo) as nat);
        if self.negative {
            -x
        } else {
            x
        }
    }
}

/// The pattern of the product's magnitude.
pub open spec fn product_bits(f: Format, a: Parts, b: Parts) -> int {
    f.encode((a.m * b.m) as nat, 1, a.e + b.e)
}

/// The pattern of the quotient's magnitude.
pub open spec fn quotient_bits(f: Format, a: Parts, b: Parts) -> int {
    f.encode(a.m as nat, b.m as nat, a.e - b.e)
}

/// The smaller exponent of two.
pub open spec fn lower(a: Parts, b: Parts) -> int {
    if a.e < b.e {
        a.e as int
    } else {
        b.e as int
    }
}

/// The exact sum, over the smaller exponent.
pub open spec fn exact_sum(a: Parts, b: Parts) -> int {
    a.over(lower(a, b)) + b.over(lower(a, b))
}

/// The sign of the sum. Numbers that cancel give a positive zero; only two
/// negative zeros add up to a negative one.
pub open spec fn sum_negative(a: Parts, b: Parts) -> bool {
    let x = exact_sum(a, b);
    x < 0 || (x == 0 && a.negative && b.negative && a.m == 0 && b.m == 0)
}

/// The pattern of the sum's magnitude.
pub open spec fn sum_bits(f: Format, a: Parts, b: Parts) -> int {
    let x = exact_sum(a, b);
    f.encode(
        (if x < 0 {
            -x
        } else {
            x
        }) as nat,
        1,
        lower(a, b),
    )
}

/// The pattern of the number nearest to `(n / d) * 2^k`.
pub fn pack(f: Format, n: u128, d: u128, k: i32) -> (bits: u64)
    requires
        n < 0x40_0000_0000_0000_0000_0000_0000_0000,
        0 < d < 0x1000_0000_0000_0000,
        -5000 <= k <= 5000,
    ensures
        bits == f.encode(n as nat, d as nat, k as int),
        bits <= f.top(),
{
    if n == 0 {
        return 0;
    }
    let h: u64 = f.leading();
    let low: i32 = f.lowest();
    let (m, q): (u64, i32) = rounding::pack(h as u128, low, n, d, k);
    assert(0 <= (q - low) * h <= 8000 * 0x10_0000_0000_0000) by (nonlinear_arith)
        requires
            0 <= q - low <= 8000,
            0 <= h <= 0x10_0000_0000_0000,
    ;
    let bits: u128 = (q - low) as u128 * h as u128 + m as u128;
    let top: u64 = f.infinity();
    if bits > top as u128 {
        top
    } else {
        bits as u64
    }
}

/// The magnitude of the product.
pub fn multiply(f: Format, a: Parts, b: Parts) -> (bits: u64)
    requires
        a.fits(f),
        b.fits(f),
    ensures
        bits == product_bits(f, a, b),
        bits <= f.top(),
{
    assert(0 <= a.m * b.m < 0x20_0000_0000_0000 * 0x20_0000_0000_0000) by (nonlinear_arith)
        requires
            0 <= a.m < 0x20_0000_0000_0000,
            0 <= b.m < 0x20_0000_0000_0000,
    ;
    pack(f, a.m as u128 * b.m as u128, 1, a.e + b.e)
}

/// The magnitude of the quotient.
pub fn divide(f: Format, a: Parts, b: Parts) -> (bits: u64)
    requires
        a.fits(f),
        b.fits(f),
        b.m > 0,
    ensures
        bits == quotient_bits(f, a, b),
        bits <= f.top(),
{
    pack(f, a.m as u128, b.m as u128, a.e - b.e)
}

/// The sign and the magnitude of the sum.
pub fn combine(f: Format, a: Parts, b: Parts) -> (r: (bool, u64))
    requires
        a.fits(f),
        b.fits(f),
    ensures
        r.0 == sum_negative(a, b),
        r.1 == sum_bits(f, a, b),
        r.1 <= f.top(),
{
    if a.e >= b.e {
        combine_ordered(f, a, b)
    } else {
        combine_ordered(f, b, a)
    }
}

/// The sum of two numbers of which the first has the larger exponent.
fn combine_ordered(f: Format, a: Parts, b: Parts) -> (r: (bool, u64))
    requires
        a.fits(f),
        b.fits(f),
        a.e >= b.e,
    ensures
        r.0 == sum_negative(a, b),
        r.1 == sum_bits(f, a, b),
        r.1 <= f.top(),
{
    let apart: u32 = (a.e - b.e) as u32;
    proof {
        lemma2_to64();
        assert(pow2(0) == 1);
        assert(b.m * pow2(0) == b.m) by (nonlinear_arith)
            requires
                pow2(0) == 1,
        ;
    }
    if apart > 64 {
        proof {
            lemma_far_apart(f, a, b);
            lemma_bits_below_top(f, a);
        }
        let h: u64 = f.leading();
        let low: i32 = f.lowest();
        return (a.negative, (a.e - low) as u64 * h + a.m);
    }
    proof {
        if apart < 64 {
            lemma_pow2_strictly_increases(apart as nat, 64);
        }
        assert(a.m * pow2(apart as nat) <= 0x20_0000_0000_0000 * 0x1_0000_0000_0000_0000)
            by (nonlinear_arith)
            requires
                0 <= a.m <= 0x20_0000_0000_0000,
                pow2(apart as nat) <= 0x1_0000_0000_0000_0000,
        ;
    }
    let big: i128 = rounding::double(a.m as u128, apart) as i128;
    let x: i128 = if a.negative {
        -big
    } else {
        big
    } + if b.negative {
        -(b.m as i128)
    } else {
        b.m as i128
    };
    assert(x == exact_sum(a, b));
    if x == 0 {
        (a.negative && b.negative && a.m == 0 && b.m == 0, 0)
    } else if x < 0 {
        (true, pack(f, (-x) as u128, 1, b.e))
    } else {
        (false, pack(f, x as u128, 1, b.e))
    }
}

/// The pattern of a finite number is below that of infinity.
proof fn lemma_bits_below_top(f: Format, a: Parts)
    requires
        a.fits(f),
    ensures
        0 <= a.bits(f) < f.top(),
        0 <= (a.e - f.low()) * f.h(),
{
    assert(0 <= (a.e - f.low()) * f.h() <= (f.high() - f.low()) * f.h()) by (nonlinear_arith)
        requires
            0 <= a.e - f.low() <= f.high() - f.low(),
            f.h() >= 0,
    ;
}

/// A quotient between two neighbouring powers of two tells its halvings.
proof fn lemma_halvings_of(h: nat, x: nat, j: nat)
    requires
        j > 0,
        h > 0,
        h * pow2(j) <= x < 2 * (h * pow2(j)),
    ensures
        rounding::halvings(h, x, 1) == j,
        rounding::doublings(h, x, 1) == 0,
{
    rounding::lemma_halvings(h, x, 1);
    let s = rounding::halvings(h, x, 1);
    lemma2_to64();
    lemma_pow2_unfold(j);
    assert(1 * pow2(s) == pow2(s));
    assert(h * 1 == h);
    let half = pow2((j - 1) as nat);
    lemma_pow2_pos((j - 1) as nat);
    assert(h * (2 * half) == 2 * (h * half)) by (nonlinear_arith);
    assert(h * half >= h) by (nonlinear_arith)
        requires
            half >= 1,
    ;
    if s == 0 {
        assert(pow2(0) == 1);
    } else if s < j {
        if s + 1 < j {
            lemma_pow2_strictly_increases(s, (j - 1) as nat);
        }
        assert(h * pow2(s) <= h * half) by (nonlinear_arith)
            requires
                pow2(s) <= half,
        ;
    } else if s > j {
        lemma_pow2_unfold((j + 1) as nat);
        if j + 1 < s {
            lemma_pow2_strictly_increases((j + 1) as nat, s);
        }
        assert(h * pow2(s) >= 2 * (h * pow2(j))) by (nonlinear_arith)
            requires
                pow2(s) >= 2 * pow2(j),
        ;
    }
}

/// A number added to one that is more than 64 places larger is lost.
proof fn lemma_far_apart(f: Format, a: Parts, b: Parts)
    requires
        a.fits(f),
        b.fits(f),
        a.e > b.e + 64,
    ensures
        sum_negative(a, b) == a.negative,
        sum_bits(f, a, b) == a.bits(f),
{
    let h = f.h();
    let m = a.m as int;
    let n = b.m as int;
    let apart = (a.e - b.e) as nat;
    let p = pow2(apart);
    let half = pow2((apart - 1) as nat);
    lemma2_to64();
    lemma_pow2_strictly_increases(64, apart);
    lemma_pow2_unfold(apart);
    assert(b.m * pow2(0) == b.m) by (nonlinear_arith)
        requires
            pow2(0) == 1,
    ;
    let x = exact_sum(a, b);
    let size = (if x < 0 {
        -x
    } else {
        x
    }) as nat;
    let same = a.negative == b.negative;
    assert(m * p >= h * p) by (nonlinear_arith)
        requires
            m >= h,
            p > 0,
    ;
    assert(m * p <= 2 * (h * p) - p) by (nonlinear_arith)
        requires
            m <= 2 * h - 1,
            p > 0,
    ;
    assert(h * p >= p) by (nonlinear_arith)
        requires
            h >= 1,
    ;
    assert(size == (if same {
        m * p + n
    } else {
        m * p - n
    }));
    rounding::lemma_mantissa_fits(h, f.low(), size, 1, b.e as int);
    lemma_bits_below_top(f, a);
    if same || n == 0 || m > h {
        if !same && m > h {
            assert(m * p >= h * p + p) by (nonlinear_arith)
                requires
                    m >= h + 1,
                    p > 0,
            ;
        }
        lemma_halvings_of(h, size, apart);
        assert(rounding::quantum(h, f.low(), size, 1, b.e as int) == a.e);
        if same || n == 0 {
            rounding::lemma_rounds_to(size, p, m as nat, n);
        } else {
            rounding::lemma_rounds_to(size, p, m as nat, -n);
        }
        assert(1 * p == p);
    } else {
        assert(h * p == 2 * (h * half)) by (nonlinear_arith)
            requires
                p == 2 * half,
        ;
        assert(h * half >= half) by (nonlinear_arith)
            requires
                h >= 1,
        ;
        lemma_halvings_of(h, size, (apart - 1) as nat);
        assert(rounding::quantum(h, f.low(), size, 1, b.e as int) == a.e - 1);
        assert((2 * h) * half == 2 * (h * half)) by (nonlinear_arith);
        rounding::lemma_rounds_to(size, half, 2 * h, -n);
        assert(1 * half == half);
        assert((a.e - 1 - f.low()) * h + 2 * h == (a.e - f.low()) * h + h) by (nonlinear_arith);
    }
}

} // verus!
