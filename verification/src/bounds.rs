//! What rounding cannot do: pass a number that the format holds.
//!
//! Each sum, product and quotient is the exact result rounded once. So an exact
//! result that is no more than some number rounds to no more than it, and what is
//! proved of the exact numbers carries over to the rounded ones.

use crate::arith;
use crate::arith::{Format, Parts};
use crate::rounding;
use crate::single;
use crate::single::{Single, HIDDEN, INFINITE, SIGN};
use vstd::arithmetic::div_mod::*;
use vstd::arithmetic::power2::*;
use vstd::prelude::*;

verus! {

/// Rounding to an integer keeps the order of two quotients.
pub proof fn lemma_nearest_ordered(n1: nat, d1: nat, n2: nat, d2: nat)
    requires
        d1 > 0,
        d2 > 0,
        n1 * d2 <= n2 * d1,
    ensures
        rounding::nearest(n1, d1) <= rounding::nearest(n2, d2),
{
    let (q1, r1) = (n1 / d1, n1 % d1);
    let (q2, r2) = (n2 / d2, n2 % d2);
    lemma_fundamental_div_mod(n1 as int, d1 as int);
    lemma_fundamental_div_mod(n2 as int, d2 as int);
    assert(q1 <= q2) by (nonlinear_arith)
        requires
            n1 == d1 * q1 + r1,
            n2 == d2 * q2 + r2,
            r2 < d2,
            n1 * d2 <= n2 * d1,
            d1 > 0,
            d2 > 0,
    ;
    if q1 == q2 {
        assert(r1 * d2 <= r2 * d1) by (nonlinear_arith)
            requires
                n1 == d1 * q1 + r1,
                n2 == d2 * q1 + r2,
                n1 * d2 <= n2 * d1,
        ;
        if 2 * r1 > d1 {
            assert(2 * r2 > d2) by (nonlinear_arith)
                requires
                    r1 * d2 <= r2 * d1,
                    2 * r1 > d1,
                    d1 > 0,
                    d2 > 0,
            ;
        } else if 2 * r1 == d1 {
            assert(2 * r2 >= d2) by (nonlinear_arith)
                requires
                    r1 * d2 <= r2 * d1,
                    2 * r1 == d1,
                    d1 > 0,
                    d2 > 0,
            ;
        }
    }
}

/// Two to the `k - lo`: a power of two over a smaller one.
pub open spec fn over(k: int, lo: int) -> nat {
    pow2((k - lo) as nat)
}

proof fn lemma_over(k: int, mid: int, lo: int)
    requires
        lo <= mid <= k,
    ensures
        over(k, lo) == over(k, mid) * over(mid, lo),
        over(mid, lo) > 0,
        over(k, mid) > 0,
        k > mid ==> over(k, lo) >= 2 * over(mid, lo),
{
    lemma_pow2_adds((k - mid) as nat, (mid - lo) as nat);
    lemma_pow2_pos((mid - lo) as nat);
    lemma_pow2_pos((k - mid) as nat);
    if k > mid {
        lemma_pow2_unfold((k - mid) as nat);
        lemma_pow2_pos((k - mid - 1) as nat);
        assert(over(k, mid) * over(mid, lo) >= 2 * over(mid, lo)) by (nonlinear_arith)
            requires
                over(k, mid) >= 2,
        ;
    }
}

/// An exponent below all that the rounding of `(n / d) * 2^k` speaks of.
pub open spec fn floor(h: nat, low: int, n: nat, d: nat, k: int) -> int {
    let a = k - rounding::doublings(h, n, d);
    if a < low {
        a
    } else {
        low
    }
}

/// Over its last place a number has a full mantissa at most, and a full one if
/// that place is not the format's smallest. Its mantissa is that quotient, rounded.
proof fn lemma_window(h: nat, low: int, n: nat, d: nat, k: int, lo: int)
    requires
        n > 0,
        d > 0,
        h > 0,
        lo <= floor(h, low, n, d, k),
    ensures
        ({
            let q = rounding::quantum(h, low, n, d, k);
            let top = n * over(k, lo);
            let place = d * over(q, lo);
            &&& low <= q
            &&& lo <= k
            &&& place > 0
            &&& top < 2 * (h * place)
            &&& q > low ==> h * place <= top
            &&& rounding::mantissa(h, low, n, d, k) == rounding::nearest(top, place)
        }),
{
    let ups = rounding::doublings(h, n, d);
    let downs = rounding::halvings(h, n, d);
    let q0 = k + downs - ups;
    let q = rounding::quantum(h, low, n, d, k);
    let top = n * over(k, lo);
    let place = d * over(q, lo);
    rounding::lemma_halvings(h, n, d);
    lemma2_to64();
    lemma_over(q, q0, lo);
    let unclamped = d * over(q0, lo);
    if downs > 0 {
        lemma_over(q0, k, lo);
        let w = over(k, lo);
        let p = pow2(downs);
        assert(unclamped == (d * p) * w) by (nonlinear_arith)
            requires
                unclamped == d * over(q0, lo),
                over(q0, lo) == p * w,
        ;
        assert(top < 2 * (h * unclamped)) by (nonlinear_arith)
            requires
                top == n * w,
                n < 2 * (h * (d * p)),
                unclamped == (d * p) * w,
                w > 0,
        ;
        assert(h * unclamped <= top) by (nonlinear_arith)
            requires
                top == n * w,
                h * (d * p) <= n,
                unclamped == (d * p) * w,
                w > 0,
        ;
    } else {
        assert(d * pow2(0) == d);
        rounding::lemma_doublings(h, n, d);
        lemma_over(k, q0, lo);
        let w = over(q0, lo);
        let p = pow2(ups);
        assert(top == (n * p) * w) by (nonlinear_arith)
            requires
                top == n * over(k, lo),
                over(k, lo) == p * w,
        ;
        assert(top < 2 * (h * unclamped)) by (nonlinear_arith)
            requires
                top == (n * p) * w,
                n * p < 2 * (h * d),
                unclamped == d * w,
                w > 0,
        ;
        assert(h * unclamped <= top) by (nonlinear_arith)
            requires
                top == (n * p) * w,
                h * d <= n * p,
                unclamped == d * w,
                w > 0,
        ;
    }
    let grown = over(q, q0);
    assert(place == unclamped * grown && place >= unclamped && unclamped > 0) by (nonlinear_arith)
        requires
            place == d * over(q, lo),
            over(q, lo) == grown * over(q0, lo),
            unclamped == d * over(q0, lo),
            over(q0, lo) > 0,
            grown > 0,
            d > 0,
    ;
    assert(h * place >= h * unclamped) by (nonlinear_arith)
        requires
            place >= unclamped,
    ;
    lemma_over(q, q, lo);
    let m = rounding::mantissa(h, low, n, d, k);
    if q <= k {
        lemma_over(k, q, lo);
        let a = n * over(k, q);
        let w = over(q, lo);
        assert(top == a * w) by (nonlinear_arith)
            requires
                top == n * over(k, lo),
                over(k, lo) == over(k, q) * w,
                a == n * over(k, q),
        ;
        lemma_same_quotient(a, d, w);
    } else {
        lemma_over(q, k, lo);
        let b = d * over(q, k);
        let w = over(k, lo);
        assert(place == b * w) by (nonlinear_arith)
            requires
                place == d * over(q, lo),
                over(q, lo) == over(q, k) * w,
                b == d * over(q, k),
        ;
        assert(b > 0) by (nonlinear_arith)
            requires
                b == d * over(q, k),
                d > 0,
                over(q, k) > 0,
        ;
        lemma_same_quotient(n, b, w);
    }
}

proof fn lemma_same_quotient(n: nat, d: nat, c: nat)
    requires
        d > 0,
        c > 0,
    ensures
        rounding::nearest(n * c, d * c) == rounding::nearest(n, d),
{
    assert((n * c) * d == n * (d * c)) by (nonlinear_arith);
    assert(d * c > 0) by (nonlinear_arith)
        requires
            d > 0,
            c > 0,
    ;
    lemma_nearest_ordered(n * c, d * c, n, d);
    lemma_nearest_ordered(n, d, n * c, d * c);
}

/// Whether `(n1 / d1) * 2^k1` is at most `(n2 / d2) * 2^k2`.
pub open spec fn no_more(n1: nat, d1: nat, k1: int, n2: nat, d2: nat, k2: int) -> bool {
    let lo = if k1 < k2 {
        k1
    } else {
        k2
    };
    (n1 * over(k1, lo)) * d2 <= (n2 * over(k2, lo)) * d1
}

proof fn lemma_no_more_below(n1: nat, d1: nat, k1: int, n2: nat, d2: nat, k2: int, lo: int)
    requires
        no_more(n1, d1, k1, n2, d2, k2),
        lo <= k1,
        lo <= k2,
    ensures
        (n1 * over(k1, lo)) * d2 <= (n2 * over(k2, lo)) * d1,
{
    let mid = if k1 < k2 {
        k1
    } else {
        k2
    };
    lemma_over(k1, mid, lo);
    lemma_over(k2, mid, lo);
    let (a, b, w) = (over(k1, mid), over(k2, mid), over(mid, lo));
    assert((n1 * (a * w)) * d2 <= (n2 * (b * w)) * d1) by (nonlinear_arith)
        requires
            (n1 * a) * d2 <= (n2 * b) * d1,
            w >= 0,
    ;
}

proof fn lemma_no_more_from(n1: nat, d1: nat, k1: int, n2: nat, d2: nat, k2: int, lo: int)
    requires
        (n1 * over(k1, lo)) * d2 <= (n2 * over(k2, lo)) * d1,
        lo <= k1,
        lo <= k2,
    ensures
        no_more(n1, d1, k1, n2, d2, k2),
{
    let mid = if k1 < k2 {
        k1
    } else {
        k2
    };
    lemma_over(k1, mid, lo);
    lemma_over(k2, mid, lo);
    let (a, b, w) = (over(k1, mid), over(k2, mid), over(mid, lo));
    let (x, y) = ((n1 * a) * d2, (n2 * b) * d1);
    assert(x * w == (n1 * (a * w)) * d2 && y * w == (n2 * (b * w)) * d1) by (nonlinear_arith)
        requires
            x == (n1 * a) * d2,
            y == (n2 * b) * d1,
    ;
    assert(x <= y) by (nonlinear_arith)
        requires
            x * w <= y * w,
            w > 0,
    ;
}

/// Rounding keeps the order of two numbers.
pub proof fn lemma_encode_ordered(
    f: Format,
    n1: nat,
    d1: nat,
    k1: int,
    n2: nat,
    d2: nat,
    k2: int,
)
    requires
        d1 > 0,
        d2 > 0,
        no_more(n1, d1, k1, n2, d2, k2),
    ensures
        0 <= f.encode(n1, d1, k1) <= f.encode(n2, d2, k2) <= f.top(),
{
    let (h, low) = (f.h(), f.low());
    if n2 > 0 {
        lemma_encode_positive(f, n2, d2, k2);
    } else {
        let lo = if k1 < k2 {
            k1
        } else {
            k2
        };
        lemma_pow2_pos((k1 - lo) as nat);
        assert(n1 == 0) by (nonlinear_arith)
            requires
                (n1 * over(k1, lo)) * d2 <= (n2 * over(k2, lo)) * d1,
                n2 == 0,
                over(k1, lo) > 0,
                d2 > 0,
        ;
    }
    if n1 > 0 {
        lemma_encode_positive(f, n1, d1, k1);
        let (f1, f2) = (floor(h, low, n1, d1, k1), floor(h, low, n2, d2, k2));
        let lo = if f1 < f2 {
            f1
        } else {
            f2
        };
        lemma_window(h, low, n1, d1, k1, lo);
        lemma_window(h, low, n2, d2, k2, lo);
        lemma_no_more_below(n1, d1, k1, n2, d2, k2, lo);
        let (q1, q2) = (
            rounding::quantum(h, low, n1, d1, k1),
            rounding::quantum(h, low, n2, d2, k2),
        );
        let (t1, t2) = (n1 * over(k1, lo), n2 * over(k2, lo));
        let (w1, w2) = (over(q1, lo), over(q2, lo));
        let (p1, p2) = (d1 * w1, d2 * w2);
        let (m1, m2) = (
            rounding::mantissa(h, low, n1, d1, k1),
            rounding::mantissa(h, low, n2, d2, k2),
        );
        if q1 == q2 {
            assert(t1 * p2 <= t2 * p1) by (nonlinear_arith)
                requires
                    t1 * d2 <= t2 * d1,
                    p1 == d1 * w1,
                    p2 == d2 * w1,
            ;
            lemma_nearest_ordered(t1, p1, t2, p2);
        } else if q1 < q2 {
            rounding::lemma_mantissa_fits(h, low, n1, d1, k1);
            rounding::lemma_nearest_at_least(t2, p2, h);
            assert((q1 - low) * h + 2 * h <= (q2 - low) * h + h) by (nonlinear_arith)
                requires
                    q1 + 1 <= q2,
            ;
        } else {
            lemma_over(q1, q2, lo);
            assert(false) by (nonlinear_arith)
                requires
                    t1 * d2 <= t2 * d1,
                    h * (d1 * w1) <= t1,
                    t2 < 2 * (h * (d2 * w2)),
                    w1 >= 2 * w2,
                    d1 > 0,
                    d2 > 0,
                    h > 0,
            {
                let c = h * (d1 * d2);
                assert(c * w1 == (h * (d1 * w1)) * d2);
                assert((h * (d1 * w1)) * d2 <= t1 * d2);
                assert(t2 * d1 < (2 * (h * (d2 * w2))) * d1);
                assert((2 * (h * (d2 * w2))) * d1 == c * (2 * w2));
                assert(c * (2 * w2) <= c * w1);
            }
        }
    }
}

/// A pattern is never negative, and never past infinity.
pub proof fn lemma_encode_positive(f: Format, n: nat, d: nat, k: int)
    ensures
        0 <= f.encode(n, d, k) <= f.top(),
{
    let q = rounding::quantum(f.h(), f.low(), n, d, k);
    assert((q - f.low()) * f.h() >= 0) by (nonlinear_arith)
        requires
            q >= f.low(),
    ;
}

/// A mantissa that is full, or over the smallest last place, needs no rounding.
proof fn lemma_mantissa_exact(h: nat, low: int, m: nat, e: int)
    requires
        0 < m < 2 * h,
        low <= e,
        e > low ==> m >= h,
    ensures
        rounding::quantum(h, low, m, 1, e) == e,
        rounding::mantissa(h, low, m, 1, e) == m,
{
    lemma2_to64();
    rounding::lemma_halvings(h, m, 1);
    assert(h * 1 == h);
    assert(m >= h ==> rounding::doublings(h, m, 1) == 0);
    assert(rounding::quantum(h, low, m, 1, e) == e);
    assert(m * pow2(0) == m);
    rounding::lemma_rounds_to(m, 1, m, 0);
}

/// A number that the format holds is its own nearest number.
pub proof fn lemma_encode_exact(f: Format, p: Parts)
    requires
        p.fits(f),
    ensures
        f.encode(p.m as nat, 1, p.e as int) == p.bits(f),
        p.bits(f) < f.top(),
{
    if p.m > 0 {
        lemma_mantissa_exact(f.h(), f.low(), p.m as nat, p.e as int);
    }
    match f {
        Format::Single => {},
        Format::Double => {},
    }
}

/// The parts of a finite number give its pattern, and its value in units.
proof fn lemma_parts(x: Single)
    requires
        x.finite(),
    ensures
        x.parts().fits(Format::Single),
        x.parts().m == x.mantissa(),
        x.parts().e == x.exponent() - 150,
        x.parts().bits(Format::Single) == x.magnitude(),
        x.units() == (if x.negative() {
            -(x.mantissa() * over(x.parts().e as int, -149))
        } else {
            x.mantissa() * over(x.parts().e as int, -149)
        }),
        x.units() == 0 <==> x.magnitude() == 0,
        x.units() < 0 ==> x.negative(),
        x.units() > 0 ==> !x.negative(),
{
    let m = x.magnitude();
    lemma2_to64();
    lemma_pow2_pos((x.exponent() - 1) as nat);
    let w = over(x.parts().e as int, -149);
    if m < HIDDEN {
        assert(x.mantissa() * 1 == m);
    } else {
        lemma_fundamental_div_mod(m, HIDDEN as int);
        assert(m / HIDDEN as int * HIDDEN + m % HIDDEN as int == m);
    }
    assert(x.mantissa() * w > 0 <==> x.mantissa() > 0) by (nonlinear_arith)
        requires
            w > 0,
            x.mantissa() >= 0,
    ;
}

/// The size of a finite number, in units.
pub open spec fn size_units(x: Single) -> nat {
    (if x.units() < 0 {
        -x.units()
    } else {
        x.units()
    }) as nat
}

/// A finite number is the number nearest to itself.
proof fn lemma_own_pattern(x: Single)
    requires
        x.finite(),
    ensures
        Format::Single.encode(size_units(x), 1, -149) == x.magnitude(),
{
    lemma_parts(x);
    let p = x.parts();
    lemma_encode_exact(Format::Single, p);
    lemma_rescaled(p.m as nat, p.e as int, size_units(x));
}

/// A number over its own exponent, and the same number in units, round alike.
proof fn lemma_rescaled(m: nat, e: int, u: nat)
    requires
        e >= -149,
        u == m * over(e, -149),
    ensures
        Format::Single.encode(u, 1, -149) == Format::Single.encode(m, 1, e),
{
    lemma2_to64();
    assert(u * over(-149, -149) == u) by (nonlinear_arith)
        requires
            over(-149, -149) == 1,
    ;
    lemma_encode_ordered(Format::Single, m, 1, e, u, 1, -149);
    lemma_encode_ordered(Format::Single, u, 1, -149, m, 1, e);
}

/// The pattern of the number nearest to a count of units, with its sign.
pub open spec fn nearest_key(u: int) -> int {
    if u < 0 {
        -Format::Single.encode((-u) as nat, 1, -149)
    } else {
        Format::Single.encode(u as nat, 1, -149)
    }
}

proof fn lemma_nearest_key_ordered(u: int, v: int)
    requires
        u <= v,
    ensures
        nearest_key(u) <= nearest_key(v),
        -INFINITE <= nearest_key(u) <= INFINITE,
        -INFINITE <= nearest_key(v) <= INFINITE,
{
    let f = Format::Single;
    lemma_encode_positive(f, (if u < 0 { -u } else { u }) as nat, 1, -149);
    lemma_encode_positive(f, (if v < 0 { -v } else { v }) as nat, 1, -149);
    if v < 0 {
        lemma_units_ordered((-v) as nat, (-u) as nat);
    } else if u >= 0 {
        lemma_units_ordered(u as nat, v as nat);
    }
}

proof fn lemma_units_ordered(a: nat, b: nat)
    requires
        a <= b,
    ensures
        Format::Single.encode(a, 1, -149) <= Format::Single.encode(b, 1, -149),
{
    lemma2_to64();
    assert(a * over(-149, -149) == a && b * over(-149, -149) == b) by (nonlinear_arith)
        requires
            over(-149, -149) == 1,
    ;
    lemma_encode_ordered(Format::Single, a, 1, -149, b, 1, -149);
}

/// The key of a finite number is that of its value.
proof fn lemma_own_key(x: Single)
    requires
        x.finite(),
    ensures
        x.key() == nearest_key(x.units()),
{
    lemma_parts(x);
    lemma_own_pattern(x);
}

/// A number's value, as its parts have it at a lower place.
proof fn lemma_at_place(x: Single, lo: int)
    requires
        x.finite(),
        -149 <= lo <= x.parts().e,
    ensures
        x.units() == x.parts().over(lo) * over(lo, -149),
{
    lemma_parts(x);
    let p = x.parts();
    let w = over(lo, -149) as int;
    lemma_over(p.e as int, lo, -149);
    let (m, g) = (p.m as int, over(p.e as int, lo) as int);
    assert(m * (g * w) == (m * g) * w && -((m * g) * w) == (-(m * g)) * w) by (nonlinear_arith);
}

/// The sum of two finite numbers is the number nearest to the exact sum.
pub proof fn lemma_sum_is_nearest(a: Single, b: Single)
    requires
        a.finite(),
        b.finite(),
    ensures
        !a.sum(b).nan(),
        a.sum(b).key() == nearest_key(a.units() + b.units()),
{
    let (p, q) = (a.parts(), b.parts());
    let lo = arith::lower(p, q);
    let x = arith::exact_sum(p, q);
    let s = a.units() + b.units();
    let w = over(lo, -149) as int;
    let size = (if x < 0 {
        -x
    } else {
        x
    }) as nat;
    assert(s == x * w && w > 0) by {
        lemma_parts(a);
        lemma_parts(b);
        lemma_at_place(a, lo);
        lemma_at_place(b, lo);
        lemma_over(lo, -149, -149);
        let (u, v) = (p.over(lo), q.over(lo));
        assert((u + v) * w == u * w + v * w) by (nonlinear_arith);
    }
    assert((x < 0 <==> s < 0) && (if s < 0 {
        -s
    } else {
        s
    }) == size * w) by (nonlinear_arith)
        requires
            s == x * w,
            w > 0,
            size == (if x < 0 {
                -x
            } else {
                x
            }),
    ;
    lemma_rescaled(size, lo, (size * w) as nat);
    lemma_encode_positive(Format::Single, size, 1, lo);
    assert(x == 0 ==> Format::Single.encode(size, 1, lo) == 0);
    reveal(Single::sum);
}

/// A sum is at most what the exact sum is at most, and at least what it is at
/// least.
pub proof fn lemma_sum_bounds(a: Single, b: Single, c: Single)
    requires
        a.finite(),
        b.finite(),
        c.finite(),
    ensures
        !a.sum(b).nan(),
        a.units() + b.units() <= c.units() ==> a.sum(b).at_most(c),
        a.units() + b.units() >= c.units() ==> c.at_most(a.sum(b)),
{
    lemma_sum_is_nearest(a, b);
    lemma_own_key(c);
    let s = a.units() + b.units();
    if s <= c.units() {
        lemma_nearest_key_ordered(s, c.units());
    }
    if c.units() <= s {
        lemma_nearest_key_ordered(c.units(), s);
    }
}

/// The exact product of two numbers, in units of units, against a third.
proof fn lemma_product_size(a: Single, b: Single, c: Single)
    requires
        a.finite(),
        b.finite(),
        c.finite(),
    ensures
        ({
            let bits = arith::product_bits(Format::Single, a.parts(), b.parts());
            let exact = size_units(a) * size_units(b);
            let bound = size_units(c) * pow2(149);
            &&& 0 <= bits <= INFINITE
            &&& exact == 0 ==> bits == 0
            &&& exact <= bound ==> bits <= c.magnitude()
            &&& bound <= exact ==> c.magnitude() <= bits
        }),
{
    let f = Format::Single;
    lemma_parts(a);
    lemma_parts(b);
    lemma_parts(c);
    let (p, q, r) = (a.parts(), b.parts(), c.parts());
    let (n, k) = ((p.m * q.m) as nat, p.e + q.e);
    lemma_encode_positive(f, n, 1, k);
    lemma_encode_exact(f, r);
    lemma_pow2_adds((p.e + 149) as nat, (q.e + 149) as nat);
    lemma_pow2_adds((r.e + 149) as nat, 149);
    let exact = size_units(a) * size_units(b);
    let bound = size_units(c) * pow2(149);
    lemma_pow2_pos((k + 298) as nat);
    assert(exact == n * over(k, -298)) by (nonlinear_arith)
        requires
            exact == (p.m * over(p.e as int, -149)) * (q.m * over(q.e as int, -149)),
            n == p.m * q.m,
            over(k, -298) == over(p.e as int, -149) * over(q.e as int, -149),
    ;
    assert(bound == r.m * over(r.e as int, -298)) by (nonlinear_arith)
        requires
            bound == (r.m * over(r.e as int, -149)) * pow2(149),
            over(r.e as int, -298) == over(r.e as int, -149) * pow2(149),
    ;
    assert(exact == 0 ==> n == 0) by (nonlinear_arith)
        requires
            exact == n * over(k, -298),
            over(k, -298) > 0,
    ;
    if exact <= bound {
        lemma_no_more_from(n, 1, k, r.m as nat, 1, r.e as int, -298);
        lemma_encode_ordered(f, n, 1, k, r.m as nat, 1, r.e as int);
    }
    if bound <= exact {
        lemma_no_more_from(r.m as nat, 1, r.e as int, n, 1, k, -298);
        lemma_encode_ordered(f, r.m as nat, 1, r.e as int, n, 1, k);
    }
}

/// A product is at most what the exact product is at most, and at least what it is
/// at least. The exact product of two counts of units is in units of units.
pub proof fn lemma_product_bounds(a: Single, b: Single, c: Single)
    requires
        a.finite(),
        b.finite(),
        c.finite(),
    ensures
        !a.product(b).nan(),
        a.units() * b.units() <= c.units() * pow2(149) ==> a.product(b).at_most(c),
        a.units() * b.units() >= c.units() * pow2(149) ==> c.at_most(a.product(b)),
{
    reveal(Single::product);
    lemma_product_size(a, b, c);
    lemma_parts(a);
    lemma_parts(b);
    lemma_parts(c);
    lemma_pow2_pos(149);
    let (u, v, w, one) = (a.units(), b.units(), c.units(), pow2(149) as int);
    let (x, y, z) = (size_units(a) as int, size_units(b) as int, size_units(c) as int);
    assert(u * v == (if (u < 0) == (v < 0) { x * y } else { -(x * y) })) by (nonlinear_arith)
        requires
            x == (if u < 0 { -u } else { u }),
            y == (if v < 0 { -v } else { v }),
    ;
    assert(w * one == (if w < 0 { -(z * one) } else { z * one }) && z * one >= 0 && (z * one == 0
        ==> z == 0)) by (nonlinear_arith)
        requires
            z == (if w < 0 { -w } else { w }),
            one > 0,
    ;
    assert(x * y >= 0 && ((u == 0 || v == 0) ==> x * y == 0)) by (nonlinear_arith)
        requires
            x == (if u < 0 { -u } else { u }),
            y == (if v < 0 { -v } else { v }),
    ;
}

/// The exact quotient of two numbers against a third.
proof fn lemma_quotient_size(a: Single, b: Single, c: Single)
    requires
        a.finite(),
        b.finite(),
        c.finite(),
        b.magnitude() != 0,
    ensures
        ({
            let bits = arith::quotient_bits(Format::Single, a.parts(), b.parts());
            let exact = size_units(a) * pow2(149);
            let bound = size_units(c) * size_units(b);
            &&& 0 <= bits <= INFINITE
            &&& exact == 0 ==> bits == 0
            &&& exact <= bound ==> bits <= c.magnitude()
            &&& bound <= exact ==> c.magnitude() <= bits
        }),
{
    let f = Format::Single;
    lemma_parts(a);
    lemma_parts(b);
    lemma_parts(c);
    let (p, q, r) = (a.parts(), b.parts(), c.parts());
    let (n, d, k) = (p.m as nat, q.m as nat, p.e - q.e);
    lemma_encode_positive(f, n, d, k);
    lemma_encode_exact(f, r);
    let exact = size_units(a) * pow2(149);
    let bound = size_units(c) * size_units(b);
    let (wa, wb, wc, one) = (
        over(p.e as int, -149),
        over(q.e as int, -149),
        over(r.e as int, -149),
        pow2(149),
    );
    let (ka, kc) = (over(k, -298), over(r.e as int, -298));
    lemma_pow2_pos((p.e + 149) as nat);
    lemma_pow2_pos((q.e + 149) as nat);
    lemma_pow2_pos(149);
    lemma_pow2_adds((p.e + 149) as nat, 298);
    lemma_pow2_adds(149, 149);
    lemma_pow2_adds((k + 298) as nat, (q.e + 149) as nat);
    lemma_pow2_adds((r.e + 149) as nat, 149);
    assert(ka * wb == wa * (one * one) && kc == wc * one);
    let (left, right) = (n * ka, (r.m * kc) * d);
    assert(left * wb == exact * one && right * wb == bound * one) by (nonlinear_arith)
        requires
            left == n * ka,
            right == (r.m * kc) * d,
            ka * wb == wa * (one * one),
            kc == wc * one,
            exact == (n * wa) * one,
            bound == (r.m * wc) * (d * wb),
    ;
    assert(n == 0 <== exact == 0) by (nonlinear_arith)
        requires
            exact == (n * wa) * one,
            wa > 0,
            one > 0,
    ;
    assert((exact <= bound ==> left <= right) && (bound <= exact ==> right <= left))
        by (nonlinear_arith)
        requires
            left * wb == exact * one,
            right * wb == bound * one,
            wb > 0,
            one > 0,
    ;
    assert(left * 1 == left && (r.m * kc) * d == right);
    if exact <= bound {
        lemma_no_more_from(n, d, k, r.m as nat, 1, r.e as int, -298);
        lemma_encode_ordered(f, n, d, k, r.m as nat, 1, r.e as int);
    }
    if bound <= exact {
        lemma_no_more_from(r.m as nat, 1, r.e as int, n, d, k, -298);
        lemma_encode_ordered(f, r.m as nat, 1, r.e as int, n, d, k);
    }
}

/// A quotient by a positive number is at most what the exact quotient is at most,
/// and at least what it is at least.
pub proof fn lemma_quotient_bounds(a: Single, b: Single, c: Single)
    requires
        a.finite(),
        b.finite(),
        c.finite(),
        b.units() > 0,
    ensures
        !a.quotient(b).nan(),
        a.units() * pow2(149) <= c.units() * b.units() ==> a.quotient(b).at_most(c),
        a.units() * pow2(149) >= c.units() * b.units() ==> c.at_most(a.quotient(b)),
{
    reveal(Single::quotient);
    lemma_parts(a);
    lemma_parts(b);
    lemma_parts(c);
    lemma_quotient_size(a, b, c);
    lemma_pow2_pos(149);
    let (u, v, w, one) = (a.units(), b.units(), c.units(), pow2(149) as int);
    let (x, z) = (size_units(a) as int, size_units(c) as int);
    assert(u * one == (if u < 0 { -(x * one) } else { x * one }) && x * one >= 0 && (u == 0 ==> x
        * one == 0)) by (nonlinear_arith)
        requires
            x == (if u < 0 { -u } else { u }),
            one > 0,
    ;
    assert(w * v == (if w < 0 { -(z * v) } else { z * v }) && z * v >= 0 && (z * v == 0 ==> z
        == 0)) by (nonlinear_arith)
        requires
            z == (if w < 0 { -w } else { w }),
            v > 0,
    ;
}

/// The value of a pattern made of a mantissa and a last place.
pub proof fn lemma_pattern_units(m: nat, q: int)
    requires
        q >= -149,
        m <= 2 * HIDDEN,
        q > -149 ==> m >= HIDDEN,
    ensures
        single::magnitude_units((q + 149) * HIDDEN + m) == m * over(q, -149),
{
    let h = HIDDEN as int;
    let bits = (q + 149) * h + m;
    lemma2_to64();
    lemma_pow2_unfold((q + 150) as nat);
    if m < h {
        assert((q + 149) * h == 0) by (nonlinear_arith)
            requires
                q == -149,
        ;
        assert(m * over(q, -149) == m) by (nonlinear_arith)
            requires
                over(q, -149) == 1,
        ;
    } else if m < 2 * h {
        assert(bits == (q + 150) * h + (m - h)) by (nonlinear_arith)
            requires
                bits == (q + 149) * h + m,
        ;
        lemma_fundamental_div_mod_converse(bits, h, q + 150, m - h);
        assert(bits >= h) by (nonlinear_arith)
            requires
                bits == (q + 149) * h + m,
                q >= -149,
                h >= 0,
                m >= h,
        ;
    } else {
        assert(bits == (q + 151) * h) by (nonlinear_arith)
            requires
                bits == (q + 149) * h + m,
                m == 2 * h,
        ;
        lemma_fundamental_div_mod_converse(bits, h, q + 151, 0);
        assert(bits >= h) by (nonlinear_arith)
            requires
                bits == (q + 151) * h,
                q >= -149,
                h >= 0,
        ;
        assert(h * (2 * over(q, -149)) == (2 * h) * over(q, -149)) by (nonlinear_arith);
    }
}

/// How far a rounded number is from the exact one: at most half a unit, or a part
/// in two to the 24th of itself.
proof fn lemma_rounding_error(n: nat, d: nat, k: int, lo: int)
    requires
        d > 0,
        lo <= floor(0x0080_0000, -149, n, d, k),
        Format::Single.encode(n, d, k) < INFINITE,
    ensures
        ({
            let r = single::magnitude_units(Format::Single.encode(n, d, k));
            let unit = d * over(-149, lo);
            let exact = n * over(k, lo);
            &&& r >= 0
            &&& 0x0100_0000 * (r * unit - exact) <= exact + 0x0080_0000 * unit
            &&& 0x0100_0000 * (exact - r * unit) <= exact + 0x0080_0000 * unit
            &&& d == 1 && k == -149 ==> 0x0100_0000 * (r * unit - exact) <= exact
            &&& d == 1 && k == -149 ==> 0x0100_0000 * (exact - r * unit) <= exact
        }),
{
    let f = Format::Single;
    let (h, low) = (f.h(), f.low());
    let r = single::magnitude_units(f.encode(n, d, k));
    let unit = d * over(low, lo);
    let exact = n * over(k, lo);
    if n > 0 {
        lemma_window(h, low, n, d, k, lo);
        let q = rounding::quantum(h, low, n, d, k);
        let m = rounding::mantissa(h, low, n, d, k);
        rounding::lemma_mantissa_fits(h, low, n, d, k);
        lemma_over(q, low, lo);
        let place = d * over(q, lo);
        if q > low {
            rounding::lemma_nearest_at_least(exact, place, h);
        }
        lemma_pattern_units(m, q);
        assert(r * unit == m * place) by (nonlinear_arith)
            requires
                r == m * over(q, low),
                unit == d * over(low, lo),
                place == d * over(q, lo),
                over(q, lo) == over(q, low) * over(low, lo),
        ;
        lemma_fundamental_div_mod(exact as int, place as int);
        let (a, b) = (exact / place, exact % place);
        assert(2 * (m * place) <= 2 * exact + place && 2 * exact <= 2 * (m * place) + place)
            by (nonlinear_arith)
            requires
                exact == place * a + b,
                0 <= b < place,
                m == (if 2 * b > place || (2 * b == place && a % 2 == 1) { a + 1 } else { a }),
        ;
        assert(unit >= 0);
        if q <= low {
            assert(place == unit);
            if d == 1 && k == low {
                assert(exact == n * place);
                rounding::lemma_rounds_to(exact, place, n, 0);
            }
        }
    } else {
        assert(exact == 0);
        assert(r * unit == 0) by (nonlinear_arith)
            requires
                r == 0,
        ;
    }
}

/// How far a count of units is from the number nearest to it.
proof fn lemma_nearest_error(u: nat)
    requires
        Format::Single.encode(u, 1, -149) < INFINITE,
    ensures
        ({
            let r = single::magnitude_units(Format::Single.encode(u, 1, -149));
            &&& 0x0100_0000 * (r - u) <= u
            &&& 0x0100_0000 * (u - r) <= u
        }),
{
    let lo = floor(0x0080_0000, -149, u, 1, -149);
    lemma_rounding_error(u, 1, -149, lo);
    let r = single::magnitude_units(Format::Single.encode(u, 1, -149));
    let w = over(-149, lo);
    lemma_pow2_pos((-149 - lo) as nat);
    assert(0x0100_0000 * (r - u) <= u && 0x0100_0000 * (u - r) <= u) by (nonlinear_arith)
        requires
            0x0100_0000 * (r * (1 * w) - u * w) <= u * w,
            0x0100_0000 * (u * w - r * (1 * w)) <= u * w,
            w > 0,
    ;
}

/// How far a finite product is from the exact one.
pub proof fn lemma_product_error(a: Single, b: Single)
    requires
        a.finite(),
        b.finite(),
        a.product(b).finite(),
    ensures
        ({
            let exact = size_units(a) * size_units(b);
            let got = size_units(a.product(b)) * pow2(149);
            &&& 0x0100_0000 * (got - exact) <= exact + 0x0080_0000 * pow2(149)
            &&& 0x0100_0000 * (exact - got) <= exact + 0x0080_0000 * pow2(149)
        }),
{
    reveal(Single::product);
    let f = Format::Single;
    lemma_parts(a);
    lemma_parts(b);
    let x = a.product(b);
    lemma_parts(x);
    let (p, q) = (a.parts(), b.parts());
    let (n, k) = ((p.m * q.m) as nat, p.e + q.e);
    lemma_encode_positive(f, n, 1, k);
    assert(x.magnitude() == f.encode(n, 1, k));
    let low = floor(0x0080_0000, -149, n, 1, k);
    let lo = if low < -298 {
        low
    } else {
        -298
    };
    lemma_rounding_error(n, 1, k, lo);
    lemma_pow2_adds((p.e + 149) as nat, (q.e + 149) as nat);
    lemma_over(k, -298, lo);
    lemma_over(-149, -298, lo);
    let (exact, w, one, r) = (size_units(a) * size_units(b), over(-298, lo), pow2(149), size_units(x));
    assert(exact == n * over(k, -298)) by (nonlinear_arith)
        requires
            exact == (p.m * over(p.e as int, -149)) * (q.m * over(q.e as int, -149)),
            n == p.m * q.m,
            over(k, -298) == over(p.e as int, -149) * over(q.e as int, -149),
    ;
    let (unit, full) = (1 * over(-149, lo), n * over(k, lo));
    assert(unit == one * w);
    assert(full == exact * w) by (nonlinear_arith)
        requires
            full == n * over(k, lo),
            over(k, lo) == over(k, -298) * w,
            exact == n * over(k, -298),
    ;
    lemma_scaled_error(r as int, one as int, exact as int, w as int);
}

proof fn lemma_scaled_error(r: int, unit: int, exact: int, w: int)
    requires
        w > 0,
        0x0100_0000 * (r * (unit * w) - exact * w) <= exact * w + 0x0080_0000 * (unit * w),
        0x0100_0000 * (exact * w - r * (unit * w)) <= exact * w + 0x0080_0000 * (unit * w),
    ensures
        0x0100_0000 * (r * unit - exact) <= exact + 0x0080_0000 * unit,
        0x0100_0000 * (exact - r * unit) <= exact + 0x0080_0000 * unit,
{
    let got = r * unit;
    assert(r * (unit * w) == got * w) by (nonlinear_arith)
        requires
            got == r * unit,
    ;
    let above = exact + 0x0080_0000 * unit - 0x0100_0000 * (got - exact);
    let below = exact + 0x0080_0000 * unit - 0x0100_0000 * (exact - got);
    assert(above * w >= 0 && below * w >= 0) by (nonlinear_arith)
        requires
            above == exact + 0x0080_0000 * unit - 0x0100_0000 * (got - exact),
            below == exact + 0x0080_0000 * unit - 0x0100_0000 * (exact - got),
            0x0100_0000 * (got * w - exact * w) <= exact * w + 0x0080_0000 * (unit * w),
            0x0100_0000 * (exact * w - got * w) <= exact * w + 0x0080_0000 * (unit * w),
    ;
    assert(above >= 0 && below >= 0) by (nonlinear_arith)
        requires
            above * w >= 0,
            below * w >= 0,
            w > 0,
    ;
}

/// How far a finite quotient is from the exact one.
pub proof fn lemma_quotient_error(a: Single, b: Single)
    requires
        a.finite(),
        b.finite(),
        b.magnitude() != 0,
        a.quotient(b).finite(),
    ensures
        ({
            let exact = size_units(a) * pow2(149);
            let got = size_units(a.quotient(b)) * size_units(b);
            &&& 0x0100_0000 * (got - exact) <= exact + 0x0080_0000 * size_units(b)
            &&& 0x0100_0000 * (exact - got) <= exact + 0x0080_0000 * size_units(b)
        }),
{
    reveal(Single::quotient);
    let f = Format::Single;
    lemma_parts(a);
    lemma_parts(b);
    let x = a.quotient(b);
    lemma_parts(x);
    let (p, q) = (a.parts(), b.parts());
    let (n, d, k) = (p.m as nat, q.m as nat, p.e - q.e);
    lemma_encode_positive(f, n, d, k);
    if a.magnitude() == 0 {
        assert(size_units(a) * pow2(149) == 0) by (nonlinear_arith)
            requires
                size_units(a) == 0,
        ;
        assert(size_units(x) * size_units(b) == 0) by (nonlinear_arith)
            requires
                size_units(x) == 0,
        ;
    } else {
        assert(x.magnitude() == f.encode(n, d, k));
        let low = floor(0x0080_0000, -149, n, d, k);
        let lo = if low < -298 {
            low
        } else {
            -298
        };
        lemma_rounding_error(n, d, k, lo);
        let (wb, one, w, r) = (over(q.e as int, -149), pow2(149), over(-149, lo), size_units(x));
        lemma_pow2_pos((q.e + 149) as nat);
        lemma_pow2_pos((-149 - lo) as nat);
        lemma_pow2_adds((k - lo) as nat, (q.e + 149) as nat);
        lemma_pow2_adds((p.e + 149) as nat, (-lo) as nat);
        lemma_pow2_adds(149, (-149 - lo) as nat);
        let (unit, full) = (d * w, n * over(k, lo));
        let (by, exact) = (size_units(b), size_units(a) * one);
        assert(over(k, lo) * wb == over(p.e as int, -149) * (one * w));
        assert(full * wb == exact * w && unit * wb == by * w) by (nonlinear_arith)
            requires
                full == n * over(k, lo),
                unit == d * w,
                over(k, lo) * wb == over(p.e as int, -149) * (one * w),
                exact == (n * over(p.e as int, -149)) * one,
                by == d * wb,
        ;
        let (u, e, v) = (unit as int, full as int, wb as int);
        assert(0x0100_0000 * (r * (by * w) - exact * w) <= exact * w + 0x0080_0000 * (by * w)
            && 0x0100_0000 * (exact * w - r * (by * w)) <= exact * w + 0x0080_0000 * (by * w))
            by (nonlinear_arith)
            requires
                0x0100_0000 * (r * u - e) <= e + 0x0080_0000 * u,
                0x0100_0000 * (e - r * u) <= e + 0x0080_0000 * u,
                e * v == exact * w,
                u * v == by * w,
                v > 0,
        {
            assert((r * u) * v == r * (by * w));
            assert((0x0100_0000 * (r * u - e)) * v <= (e + 0x0080_0000 * u) * v);
            assert((0x0100_0000 * (e - r * u)) * v <= (e + 0x0080_0000 * u) * v);
        }
        lemma_scaled_error(r as int, by as int, exact as int, w as int);
    }
}

/// How far a finite sum is from the exact one.
pub proof fn lemma_sum_error(a: Single, b: Single)
    requires
        a.finite(),
        b.finite(),
        a.sum(b).finite(),
    ensures
        ({
            let exact = a.units() + b.units();
            let size = if exact < 0 {
                -exact
            } else {
                exact
            };
            &&& 0x0100_0000 * (a.sum(b).units() - exact) <= size
            &&& 0x0100_0000 * (exact - a.sum(b).units()) <= size
        }),
{
    let exact = a.units() + b.units();
    lemma_sum_is_nearest(a, b);
    lemma_parts(a.sum(b));
    let size = (if exact < 0 {
        -exact
    } else {
        exact
    }) as nat;
    lemma_encode_positive(Format::Single, size, 1, -149);
    lemma_nearest_error(size);
}

/// The units of zero and of one.
pub proof fn lemma_unit()
    ensures
        (Single { bits: 0 }).units() == 0,
        (Single { bits: 0x3F80_0000 }).units() == pow2(149),
        (Single { bits: 0xBF80_0000 }).units() == -pow2(149),
        (Single { bits: 0 }).finite(),
        (Single { bits: 0x3F80_0000 }).finite(),
        (Single { bits: 0xBF80_0000 }).finite(),
{
    lemma2_to64();
    lemma_pow2_adds(23, 126);
    assert(0x3F80_0000int / 0x0080_0000int == 127);
    assert(0x3F80_0000int % 0x0080_0000int == 0);
    assert(0xBF80_0000int % SIGN as int == 0x3F80_0000);
    assert(single::magnitude_units(0x3F80_0000) == HIDDEN * pow2(126));
}

/// Turning the sign round turns the value round.
pub proof fn lemma_opposite(x: Single)
    requires
        x.finite(),
    ensures
        x.opposite().finite(),
        x.opposite().units() == -x.units(),
{
    lemma_parts(x);
}

/// Whether a number lies between zero and one.
pub open spec fn in_unit(x: Single) -> bool {
    (Single { bits: 0 }).at_most(x) && x.at_most(Single { bits: 0x3F80_0000 })
}

pub proof fn lemma_in_unit(x: Single)
    ensures
        in_unit(x) ==> x.finite() && 0 <= x.units() <= pow2(149),
        x.finite() && 0 <= x.units() <= pow2(149) ==> in_unit(x),
{
    lemma_unit();
    if x.finite() {
        single::law_order_is_numeric(Single { bits: 0 }, x);
        single::law_order_is_numeric(x, Single { bits: 0x3F80_0000 });
    }
}

/// A part of a part: the product of two numbers between zero and one is at most
/// either.
pub proof fn lemma_unit_product(a: Single, b: Single)
    requires
        in_unit(a),
        in_unit(b),
    ensures
        in_unit(a.product(b)),
        a.product(b).units() <= a.units(),
        a.product(b).units() <= b.units(),
{
    let zero = Single { bits: 0 };
    lemma_unit();
    lemma_in_unit(a);
    lemma_in_unit(b);
    let (u, v, one) = (a.units(), b.units(), pow2(149) as int);
    assert(0 <= u * v <= u * one && u * v <= v * one && 0 * one == 0) by (nonlinear_arith)
        requires
            0 <= u <= one,
            0 <= v <= one,
    ;
    lemma_product_bounds(a, b, a);
    lemma_product_bounds(a, b, b);
    lemma_product_bounds(a, b, zero);
    let p = a.product(b);
    single::law_order_is_numeric(p, a);
    single::law_order_is_numeric(p, b);
    single::law_order_is_numeric(zero, p);
    lemma_in_unit(p);
}

/// What is left of a whole lies between zero and one.
pub proof fn lemma_unit_rest(c: Single)
    requires
        in_unit(c),
    ensures
        in_unit((Single { bits: 0x3F80_0000 }).difference(c)),
{
    let (zero, one) = (Single { bits: 0 }, Single { bits: 0x3F80_0000 });
    lemma_unit();
    lemma_in_unit(c);
    lemma_opposite(c);
    lemma_sum_bounds(one, c.opposite(), zero);
    lemma_sum_bounds(one, c.opposite(), one);
}

/// A number between zero and one and what is left of a whole make no more than
/// that whole.
pub proof fn lemma_unit_parts(c: Single, p: Single, q: Single)
    requires
        in_unit(c),
        p.finite(),
        q.finite(),
        p.units() <= c.units(),
        q.units() <= (Single { bits: 0x3F80_0000 }).difference(c).units(),
        p.units() + q.units() >= -pow2(149),
    ensures
        q.sum(p).finite(),
        q.sum(p).at_most(Single { bits: 0x3F80_0000 }),
{
    let one = Single { bits: 0x3F80_0000 };
    let minus = Single { bits: 0xBF80_0000 };
    let r = one.difference(c);
    lemma_unit();
    lemma_in_unit(c);
    lemma_opposite(c);
    lemma_unit_rest(c);
    lemma_in_unit(r);
    lemma_sum_error(one, c.opposite());
    lemma_sum_is_nearest(q, p);
    lemma_sum_bounds(q, p, minus);
    let exact = p.units() + q.units();
    lemma2_to64();
    lemma_pow2_adds(24, 125);
    let u = pow2(149) as int;
    assert(u == 0x0100_0000 * pow2(125));
    assert(exact <= 0x0100_0001 * pow2(125));
    lemma_nearest_key_ordered(exact, 0x0100_0001 * pow2(125) as int);
    lemma_just_above(-24);
    let s = q.sum(p);
    assert(s.key() <= one.key());
}

/// A number half a place above a power of two rounds to that power.
proof fn lemma_just_above(e: int)
    requires
        -149 <= e <= 100,
    ensures
        nearest_key(0x0100_0001 * over(e, -149) as int) == (e + 151) * 0x0080_0000,
{
    let f = Format::Single;
    let n = 0x0100_0001nat;
    lemma_rescaled(n, e, n * over(e, -149));
    lemma2_to64();
    reveal_with_fuel(rounding::halvings, 3);
    assert(f.h() * 1 == 0x0080_0000 && f.h() * 2 == 0x0100_0000);
    assert(rounding::halvings(f.h(), n, 1) == 1);
    assert(rounding::doublings(f.h(), n, 1) == 0);
    assert(rounding::quantum(f.h(), f.low(), n, 1, e) == e + 1);
    assert(pow2(1) == 2);
    assert(rounding::nearest(n, 2) == 0x0080_0000);
    assert(rounding::mantissa(f.h(), f.low(), n, 1, e) == 0x0080_0000);
    lemma_pow2_pos((e + 149) as nat);
}

proof fn lemma_signed_opposite(negative: bool, magnitude: int)
    requires
        0 <= magnitude <= INFINITE,
    ensures
        single::signed(!negative, magnitude) == single::signed(negative, magnitude).opposite(),
{
}

proof fn lemma_opposite_parts(x: Single)
    requires
        x.finite(),
    ensures
        x.opposite().parts().m == x.parts().m,
        x.opposite().parts().e == x.parts().e,
        x.opposite().negative() == !x.negative(),
        x.opposite().magnitude() == x.magnitude(),
{
}

/// Turning the sign of a factor round turns the product's round.
pub proof fn lemma_product_opposite(a: Single, b: Single)
    requires
        a.finite(),
        b.finite(),
    ensures
        a.opposite().product(b) == a.product(b).opposite(),
        a.opposite().product(b.opposite()) == a.product(b),
{
    lemma_opposite_parts(a);
    lemma_opposite_parts(b);
    let f = Format::Single;
    let bits = arith::product_bits(f, a.parts(), b.parts());
    assert(arith::product_bits(f, a.opposite().parts(), b.parts()) == bits);
    assert(arith::product_bits(f, a.opposite().parts(), b.opposite().parts()) == bits);
    lemma_encode_positive(f, (a.parts().m * b.parts().m) as nat, 1, a.parts().e + b.parts().e);
    lemma_signed_opposite(a.negative() != b.negative(), bits);
    reveal(Single::product);
}

/// Turning the sign of a dividend round turns the quotient's round.
pub proof fn lemma_quotient_opposite(a: Single, b: Single)
    requires
        a.finite(),
        b.finite(),
        b.magnitude() != 0,
    ensures
        a.opposite().quotient(b) == a.quotient(b).opposite(),
{
    lemma_opposite_parts(a);
    let f = Format::Single;
    let bits = arith::quotient_bits(f, a.parts(), b.parts());
    assert(arith::quotient_bits(f, a.opposite().parts(), b.parts()) == bits);
    lemma_encode_positive(f, a.parts().m as nat, b.parts().m as nat, a.parts().e - b.parts().e);
    lemma_signed_opposite(a.negative() != b.negative(), bits);
    lemma_signed_opposite(a.negative() != b.negative(), 0);
    reveal(Single::quotient);
}

/// Turning both signs round turns a sum round. Only the sign of a zero may differ.
pub proof fn lemma_sum_opposite(a: Single, b: Single)
    requires
        a.finite(),
        b.finite(),
    ensures
        a.opposite().sum(b.opposite()).key() == -a.sum(b).key(),
{
    lemma_opposite(a);
    lemma_opposite(b);
    lemma_sum_is_nearest(a, b);
    lemma_sum_is_nearest(a.opposite(), b.opposite());
}

/// Anything finite times nothing is nothing.
pub proof fn lemma_product_with_zero(a: Single, zero: Single)
    requires
        a.finite(),
        zero.magnitude() == 0,
    ensures
        a.product(zero).magnitude() == 0,
        zero.product(a).magnitude() == 0,
{
    reveal(Single::product);
    assert(zero.parts().m == 0);
    assert(a.parts().m * 0 == 0);
    assert(0 * a.parts().m == 0);
}

/// Nothing added is nothing changed. Only the sign of a zero may differ.
pub proof fn lemma_sum_with_zero(a: Single, zero: Single)
    requires
        a.finite(),
        zero.magnitude() == 0,
    ensures
        a.sum(zero).key() == a.key(),
        a.sum(zero).finite(),
{
    lemma_parts(zero);
    lemma_sum_is_nearest(a, zero);
    lemma_own_key(a);
}

/// A number taken from itself leaves nothing.
pub proof fn lemma_difference_with_itself(a: Single)
    requires
        a.finite(),
    ensures
        a.difference(a).magnitude() == 0,
{
    lemma_opposite(a);
    lemma_sum_is_nearest(a, a.opposite());
}

/// The size of a number is the number or its opposite.
pub proof fn lemma_size(x: Single)
    requires
        x.finite(),
    ensures
        x.size().finite(),
        !x.size().negative(),
        x.size().units() == size_units(x),
        x == (if x.negative() {
            x.size().opposite()
        } else {
            x.size()
        }),
{
    lemma_parts(x);
}

/// The units of three.
proof fn lemma_three()
    ensures
        (Single { bits: 0x4040_0000 }).units() == 3 * pow2(149),
        (Single { bits: 0x4040_0000 }).finite(),
{
    lemma2_to64();
    lemma_pow2_adds(22, 127);
    assert(0x4040_0000int / 0x0080_0000int == 128);
    assert(0x4040_0000int % 0x0080_0000int == 0x0040_0000);
    assert(single::magnitude_units(0x4040_0000) == 0x00C0_0000 * pow2(127));
}

/// A third of a number is no larger than the number, and off by no more than a
/// last place of it.
pub proof fn lemma_third(t: Single)
    requires
        t.finite(),
    ensures
        ({
            let c = t.quotient(Single { bits: 0x4040_0000 });
            &&& c.finite()
            &&& t.units() >= 0 ==> 0 <= c.units() <= t.units()
            &&& t.units() >= 0 ==> 0x0100_0000 * (t.units() - 3 * c.units()) <= t.units()
                + 0x0080_0000 * 3
        }),
{
    let (zero, three) = (Single { bits: 0 }, Single { bits: 0x4040_0000 });
    lemma_three();
    lemma_unit();
    lemma_size(t);
    lemma_parts(t);
    let y = t.size();
    let (v, one) = (y.units(), pow2(149) as int);
    lemma_pow2_pos(149);
    assert(v * one <= v * (3 * one) && 0 * (3 * one) == 0 && 0 <= v * one) by (nonlinear_arith)
        requires
            v >= 0,
            one > 0,
    ;
    lemma_quotient_bounds(y, three, y);
    lemma_quotient_bounds(y, three, zero);
    let c = y.quotient(three);
    assert(c.finite());
    single::law_order_is_numeric(c, y);
    single::law_order_is_numeric(zero, c);
    lemma_parts(three);
    lemma_quotient_opposite(y, three);
    lemma_opposite(c);
    lemma_quotient_error(y, three);
    assert(0x0100_0000 * (v - 3 * c.units()) <= v + 0x0080_0000 * 3) by (nonlinear_arith)
        requires
            0x0100_0000 * (v * one - c.units() * (3 * one)) <= v * one + 0x0080_0000 * (3 * one),
            one > 0,
    {
        let gap = v + 0x0080_0000 * 3 - 0x0100_0000 * (v - 3 * c.units());
        assert(gap * one >= 0);
    }
}

/// A number a last place above two thirds.
pub proof fn lemma_two_thirds()
    ensures
        (Single { bits: 0x3F2A_AAAC }).finite(),
        3 * (Single { bits: 0x3F2A_AAAC }).units() == 2 * pow2(149) + 4 * pow2(125),
        pow2(125) > 16,
{
    lemma2_to64();
    lemma_pow2_adds(24, 125);
    lemma_pow2_strictly_increases(5, 125);
    assert(0x3F2A_AAACint / 0x0080_0000int == 126);
    assert(0x3F2A_AAACint % 0x0080_0000int == 0x002A_AAAC);
    assert(single::magnitude_units(0x3F2A_AAAC) == 0x00AA_AAAC * pow2(125));
}

/// A number added to itself is doubled without rounding.
pub proof fn lemma_doubled(x: Single)
    requires
        x.finite(),
        x.exponent() < 254,
    ensures
        x.sum(x).finite(),
        x.sum(x).units() == 2 * x.units(),
{
    let f = Format::Single;
    lemma_parts(x);
    let p = x.parts();
    let twice = if p.m < HIDDEN {
        Parts { negative: p.negative, m: (2 * p.m) as u64, e: p.e }
    } else {
        Parts { negative: p.negative, m: p.m, e: (p.e + 1) as i32 }
    };
    assert(twice.fits(f));
    lemma_encode_exact(f, twice);
    lemma_pow2_unfold((p.e + 150) as nat);
    let (m, w) = (p.m as int, over(p.e as int, -149) as int);
    assert(m * (2 * w) == 2 * (m * w) && (2 * m) * w == 2 * (m * w)) by (nonlinear_arith);
    assert(twice.m * over(twice.e as int, -149) == 2 * size_units(x));
    lemma_rescaled(twice.m as nat, twice.e as int, 2 * size_units(x));
    lemma_pattern_units(twice.m as nat, twice.e as int);
    lemma_sum_is_nearest(x, x);
    assert(x.sum(x).magnitude() == twice.bits(f));
    lemma_parts(x.sum(x));
}

/// A doubled number is halved without rounding.
pub proof fn lemma_halved(x: Single, y: Single)
    requires
        x.finite(),
        y.finite(),
        y.units() == 2 * x.units(),
    ensures
        y.product(Single { bits: 0x3F00_0000 }).key() == x.key(),
{
    let half = Single { bits: 0x3F00_0000 };
    lemma2_to64();
    lemma_pow2_adds(23, 125);
    lemma_pow2_unfold(149);
    assert(0x3F00_0000int / 0x0080_0000int == 126);
    assert(0x3F00_0000int % 0x0080_0000int == 0);
    assert(single::magnitude_units(0x3F00_0000) == HIDDEN * pow2(125));
    assert(half.units() == pow2(148));
    let (u, h) = (x.units(), pow2(148) as int);
    assert((2 * u) * h == u * (2 * h)) by (nonlinear_arith);
    lemma_product_bounds(y, half, x);
}

/// Whether a number lies between minus one and one.
pub open spec fn in_bipolar(x: Single) -> bool {
    (Single { bits: 0xBF80_0000 }).at_most(x) && x.at_most(Single { bits: 0x3F80_0000 })
}

pub proof fn lemma_in_bipolar(x: Single)
    ensures
        in_bipolar(x) ==> x.finite() && -pow2(149) <= x.units() <= pow2(149),
        x.finite() && -pow2(149) <= x.units() <= pow2(149) ==> in_bipolar(x),
{
    lemma_unit();
    if x.finite() {
        single::law_order_is_numeric(Single { bits: 0xBF80_0000 }, x);
        single::law_order_is_numeric(x, Single { bits: 0x3F80_0000 });
    }
}

/// The units of a half and of the first powers of two.
pub proof fn lemma_small_wholes()
    ensures
        2 * (Single { bits: 0x3F00_0000 }).units() == pow2(149),
        (Single { bits: 0x4000_0000 }).units() == 2 * pow2(149),
        (Single { bits: 0x4040_0000 }).units() == 3 * pow2(149),
        (Single { bits: 0x4080_0000 }).units() == 4 * pow2(149),
{
    lemma2_to64();
    lemma_three();
    lemma_pow2_adds(23, 125);
    lemma_pow2_adds(23, 127);
    lemma_pow2_adds(23, 128);
    lemma_pow2_unfold(149);
    lemma_pow2_unfold(150);
    lemma_pow2_unfold(151);
    assert(0x3F00_0000int / 0x0080_0000int == 126 && 0x3F00_0000int % 0x0080_0000int == 0);
    assert(0x4000_0000int / 0x0080_0000int == 128 && 0x4000_0000int % 0x0080_0000int == 0);
    assert(0x4080_0000int / 0x0080_0000int == 129 && 0x4080_0000int % 0x0080_0000int == 0);
    assert(single::magnitude_units(0x3F00_0000) == HIDDEN * pow2(125));
    assert(single::magnitude_units(0x4000_0000) == HIDDEN * pow2(127));
    assert(single::magnitude_units(0x4080_0000) == HIDDEN * pow2(128));
}

/// The numbers next to one and to minus one, away from zero.
pub proof fn lemma_next_above_one()
    ensures
        (Single { bits: 0x3F80_0001 }).units() == pow2(149) + pow2(126),
        (Single { bits: 0xBF80_0001 }).units() == -pow2(149) - pow2(126),
        0x0080_0000 * pow2(126) == pow2(149),
{
    lemma2_to64();
    lemma_pow2_adds(23, 126);
    assert(0x3F80_0001int / 0x0080_0000int == 127 && 0x3F80_0001int % 0x0080_0000int == 1);
    assert(0xBF80_0001int % SIGN as int == 0x3F80_0001);
    assert(single::magnitude_units(0x3F80_0001) == (HIDDEN + 1) * pow2(126));
    assert((HIDDEN + 1) * pow2(126) == HIDDEN * pow2(126) + pow2(126)) by (nonlinear_arith);
}

/// The units of one and a half.
pub proof fn lemma_one_and_a_half()
    ensures
        2 * (Single { bits: 0x3FC0_0000 }).units() == 3 * pow2(149),
{
    lemma2_to64();
    lemma_pow2_adds(22, 126);
    lemma_pow2_unfold(149);
    assert(0x3FC0_0000int / 0x0080_0000int == 127 && 0x3FC0_0000int % 0x0080_0000int == 0x0040_0000);
    assert(single::magnitude_units(0x3FC0_0000) == 0x00C0_0000 * pow2(126));
}

/// The units of some levels in decibels.
pub proof fn lemma_decibels()
    ensures
        (Single { bits: 0x4380_0000 }).units() == 256 * pow2(149),
        (Single { bits: 0x4340_0000 }).units() == 192 * pow2(149),
        (Single { bits: 0xC280_0000 }).units() == -64 * pow2(149),
        (Single { bits: 0xC040_0000 }).units() == -3 * pow2(149),
        (Single { bits: 0x40C0_0000 }).units() == 6 * pow2(149),
        (Single { bits: 0x4140_0000 }).units() == 12 * pow2(149),
        (Single { bits: 0x4210_0000 }).units() == 36 * pow2(149),
{
    lemma2_to64();
    lemma_three();
    lemma_pow2_adds(15, 134);
    lemma_pow2_adds(16, 133);
    lemma_pow2_adds(17, 132);
    lemma_pow2_adds(21, 128);
    lemma_pow2_adds(20, 129);
    lemma_pow2_adds(18, 131);
    assert(0x4380_0000int / 0x0080_0000int == 135 && 0x4380_0000int % 0x0080_0000int == 0);
    assert(0x4340_0000int / 0x0080_0000int == 134 && 0x4340_0000int % 0x0080_0000int == 0x0040_0000);
    assert(0x4280_0000int / 0x0080_0000int == 133 && 0x4280_0000int % 0x0080_0000int == 0);
    assert(0x40C0_0000int / 0x0080_0000int == 129 && 0x40C0_0000int % 0x0080_0000int == 0x0040_0000);
    assert(0x4140_0000int / 0x0080_0000int == 130 && 0x4140_0000int % 0x0080_0000int == 0x0040_0000);
    assert(0x4210_0000int / 0x0080_0000int == 132 && 0x4210_0000int % 0x0080_0000int == 0x0010_0000);
    assert(0xC280_0000int % SIGN as int == 0x4280_0000);
    assert(0xC040_0000int % SIGN as int == 0x4040_0000);
    assert(single::magnitude_units(0x4380_0000) == HIDDEN * pow2(134));
    assert(single::magnitude_units(0x4340_0000) == 0x00C0_0000 * pow2(133));
    assert(single::magnitude_units(0x4280_0000) == HIDDEN * pow2(132));
    assert(single::magnitude_units(0x40C0_0000) == 0x00C0_0000 * pow2(128));
    assert(single::magnitude_units(0x4140_0000) == 0x00C0_0000 * pow2(129));
    assert(single::magnitude_units(0x4210_0000) == 0x0090_0000 * pow2(131));
}

/// A sum that is over 256 by no more than half a place is not over it.
pub proof fn lemma_within_256(a: Single, b: Single)
    requires
        a.finite(),
        b.finite(),
        a.units() + b.units() >= 0,
        0x0100_0000 * (a.units() + b.units() - 256 * pow2(149)) <= 256 * pow2(149),
    ensures
        a.sum(b).at_most(Single { bits: 0x4380_0000 }),
{
    lemma_decibels();
    lemma_sum_is_nearest(a, b);
    let exact = a.units() + b.units();
    lemma2_to64();
    lemma_pow2_adds(16, 133);
    let place = pow2(133) as int;
    assert(256 * pow2(149) == 0x0100_0000 * place);
    assert(exact <= 0x0100_0001 * place);
    lemma_nearest_key_ordered(exact, 0x0100_0001 * place);
    lemma_nearest_key_ordered(0, exact);
    lemma_just_above(-16);
}

/// A sum that is over one by no more than half a place is not over it.
pub proof fn lemma_within_one(a: Single, b: Single)
    requires
        a.finite(),
        b.finite(),
        a.units() + b.units() >= 0,
        a.units() + b.units() <= 0x0100_0001 * pow2(125),
    ensures
        a.sum(b).at_most(Single { bits: 0x3F80_0000 }),
{
    lemma_unit();
    lemma_sum_is_nearest(a, b);
    let exact = a.units() + b.units();
    lemma_nearest_key_ordered(exact, 0x0100_0001 * pow2(125) as int);
    lemma_nearest_key_ordered(0, exact);
    lemma_just_above(-24);
}

/// The units of the parts of a generated velocity.
pub proof fn lemma_velocities()
    ensures
        (Single { bits: 0x3F59_999A }).units() == 0x00D9_999A * pow2(125),
        4 * (Single { bits: 0x3E19_999A }).units() == 0x0099_999A * pow2(125),
        4 * (Single { bits: 0x3E80_0000 }).units() == pow2(149),
        4 * (Single { bits: 0x3F40_0000 }).units() == 3 * pow2(149),
        2 * (Single { bits: 0x3F00_0000 }).units() == pow2(149),
        pow2(149) == 0x0100_0000 * pow2(125),
{
    lemma2_to64();
    lemma_small_wholes();
    lemma_pow2_adds(2, 123);
    lemma_pow2_adds(24, 125);
    lemma_pow2_adds(23, 124);
    lemma_pow2_adds(2, 147);
    assert(0x3F59_999Aint / 0x0080_0000int == 126 && 0x3F59_999Aint % 0x0080_0000int == 0x0059_999A);
    assert(0x3E19_999Aint / 0x0080_0000int == 124 && 0x3E19_999Aint % 0x0080_0000int == 0x0019_999A);
    assert(0x3E80_0000int / 0x0080_0000int == 125 && 0x3E80_0000int % 0x0080_0000int == 0);
    assert(0x3F40_0000int / 0x0080_0000int == 126 && 0x3F40_0000int % 0x0080_0000int == 0x0040_0000);
    assert(single::magnitude_units(0x3F59_999A) == 0x00D9_999A * pow2(125));
    assert(single::magnitude_units(0x3E19_999A) == 0x0099_999A * pow2(123));
    assert(single::magnitude_units(0x3E80_0000) == HIDDEN * pow2(124));
    assert(single::magnitude_units(0x3F40_0000) == 0x00C0_0000 * pow2(125));
}

/// How far a quotient of whole numbers is from the exact one, in units.
pub proof fn lemma_ratio_error(n: nat, d: nat)
    requires
        n <= 0x0100_0000,
        0 < d <= 0x0100_0000,
    ensures
        ({
            let r = Single { bits: single::ratio_bits(n, d) as u32 };
            let exact = n * pow2(149);
            &&& r.finite()
            &&& 0x0100_0000 * (r.units() * d - exact) <= exact + 0x0080_0000 * d
            &&& 0x0100_0000 * (exact - r.units() * d) <= exact + 0x0080_0000 * d
        }),
{
    lemma_whole_finite(n as int);
    lemma2_to64();
    assert(over(0, 0) == 1);
    assert((n * 1) * 1 <= (n * 1) * d) by (nonlinear_arith)
        requires
            d >= 1,
    ;
    lemma_encode_ordered(Format::Single, n, d, 0, n, 1, 0);
    let r = Single { bits: single::ratio_bits(n, d) as u32 };
    let lo = floor(0x0080_0000, -149, n, d, 0);
    lemma_rounding_error(n, d, 0, lo);
    lemma_over(0, -149, lo);
    let (u, w, g) = (r.units(), over(0, -149) as int, over(-149, lo) as int);
    assert(u == single::magnitude_units(single::ratio_bits(n, d)));
    let (x, y, k) = (u * d, n * w, 0x0080_0000 * d);
    assert(u * (d * g) == x * g && n * (w * g) == y * g && 0x0080_0000 * (d * g) == k * g)
        by (nonlinear_arith)
        requires
            x == u * d,
            y == n * w,
            k == 0x0080_0000 * d,
    ;
    assert(0x0100_0000 * (x - y) <= y + k && 0x0100_0000 * (y - x) <= y + k) by (nonlinear_arith)
        requires
            0x0100_0000 * (x * g - y * g) <= y * g + k * g,
            0x0100_0000 * (y * g - x * g) <= y * g + k * g,
            g > 0,
    ;
}

/// An integer over 24 bits has a full mantissa left once its extra bits are off.
proof fn lemma_extra_bits_full(p: nat)
    ensures
        single::extra_bits(p) > 0 ==> p >= 0x0080_0000 * pow2(single::extra_bits(p)),
    decreases p,
{
    lemma2_to64();
    if p >= 0x0100_0000 {
        lemma_extra_bits_full(p / 2);
        lemma_pow2_unfold(single::extra_bits(p));
    }
}

/// How far an integer rounded to 24 bits is from itself.
proof fn lemma_round24_error(p: nat)
    ensures
        0x0100_0000 * (single::round24(p) - p) <= p,
        0x0100_0000 * (p - single::round24(p)) <= p,
{
    let u = pow2(single::extra_bits(p));
    lemma2_to64();
    lemma_pow2_pos(single::extra_bits(p));
    lemma_extra_bits_full(p);
    lemma_fundamental_div_mod(p as int, u as int);
    let (m, a, b) = (rounding::nearest(p, u), p / u, p % u);
    assert(2 * (m * u) <= 2 * p + u && 2 * p <= 2 * (m * u) + u) by (nonlinear_arith)
        requires
            p == u * a + b,
            0 <= b < u,
            m == (if 2 * b > u || (2 * b == u && a % 2 == 1) { a + 1 } else { a }),
    ;
}

/// What is left of a number between zero and one when it is kept in whole 255ths, in
/// units: the part below the next 255th, and the rounding.
proof fn lemma_byte_error(x: Single)
    requires
        in_unit(x),
    ensures
        ({
            let (b, u, w) = (x.scaled(255), x.units(), pow2(149) as int);
            &&& 0 <= b <= 255
            &&& 0 <= u <= w
            &&& 0x0100_0000 * (b * w - 255 * u) <= 255 * u
            &&& 0x0100_0000 * (255 * u - (b + 1) * w) <= 255 * u
        }),
{
    lemma_unit();
    lemma_in_unit(x);
    lemma_parts(x);
    assert(x.magnitude() <= single::ONE_BITS);
    single::lemma_scaled_at_most(x, 255);
    let (m, e) = (x.mantissa(), x.exponent());
    let p = (m as nat) * 255;
    let r = single::round24(p) as int;
    let (d, g) = (pow2((150 - e) as nat) as int, pow2((e - 1) as nat) as int);
    lemma_pow2_adds((150 - e) as nat, (e - 1) as nat);
    lemma_pow2_pos((150 - e) as nat);
    lemma_pow2_pos((e - 1) as nat);
    lemma_round24_error(p);
    lemma_fundamental_div_mod(r, d);
    let (b, u, w) = (x.scaled(255), x.units(), pow2(149) as int);
    assert(0 * g == 0);
    assert(u == m * g);
    assert(b * w <= r * g <= (b + 1) * w) by (nonlinear_arith)
        requires
            r == d * b + r % d,
            0 <= r % d < d,
            w == d * g,
            g > 0,
    ;
    assert(0x0100_0000 * (r * g - 255 * u) <= 255 * u && 0x0100_0000 * (255 * u - r * g) <= 255 * u)
        by (nonlinear_arith)
        requires
            u == m * g,
            0x0100_0000 * (r - m * 255) <= m * 255,
            0x0100_0000 * (m * 255 - r) <= m * 255,
            g > 0,
    ;
}

/// Whether two numbers lie within a 255th of each other, but for a millionth.
pub open spec fn within_a_255th(a: Single, b: Single) -> bool {
    &&& 255_000_000 * (a.units() - b.units()) <= 1_000_255 * pow2(149)
    &&& 255_000_000 * (b.units() - a.units()) <= 1_000_255 * pow2(149)
}

/// A number between zero and one that is kept in whole 255ths comes back within a 255th.
pub proof fn lemma_byte_round_trip(x: Single)
    requires
        in_unit(x),
    ensures
        within_a_255th(x, Single { bits: single::ratio_bits(x.scaled(255) as nat, 255) as u32 }),
{
    lemma_byte_error(x);
    let b = x.scaled(255);
    lemma_ratio_error(b as nat, 255);
    lemma2_to64();
    lemma_pow2_strictly_increases(64, 149);
    let w = pow2(149) as int;
    assert(0 <= b * w <= 255 * w && (b + 1) * w == b * w + w) by (nonlinear_arith)
        requires
            0 <= b <= 255,
            w >= 0,
    ;
}

/// An unsigned integer is nearest to a finite number, and to none below zero.
pub proof fn lemma_whole_finite(n: int)
    requires
        0 <= n <= u64::MAX,
    ensures
        Single::nearest_to(n).finite(),
        !Single::nearest_to(n).negative(),
        Single::nearest_to(n).units() >= 0,
{
    let f = Format::Single;
    let top = Parts { negative: false, m: 0x0080_0000, e: 41 };
    lemma2_to64();
    lemma2_to64_rest();
    lemma_pow2_adds(23, 41);
    assert(over(0, 0) == 1 && over(41, 0) == pow2(41));
    assert((n as nat * over(0, 0)) * 1 <= (0x0080_0000 * over(41, 0)) * 1) by (nonlinear_arith)
        requires
            over(0, 0) == 1,
            over(41, 0) == pow2(41),
            0x0080_0000 * pow2(41) == pow2(64),
            pow2(64) > u64::MAX,
            0 <= n <= u64::MAX,
    ;
    lemma_encode_ordered(f, n as nat, 1, 0, 0x0080_0000, 1, 41);
    lemma_encode_exact(f, top);
    lemma_parts(Single::nearest_to(n));
}

/// Nothing and nothing make nothing, and so does nothing less nothing.
pub proof fn lemma_nothing_and_nothing(a: Single, b: Single)
    requires
        a.magnitude() == 0,
        b.magnitude() == 0,
    ensures
        a.sum(b).magnitude() == 0,
        a.difference(b).magnitude() == 0,
{
    lemma_sum_with_zero(a, b);
    assert(b.opposite().magnitude() == 0);
    lemma_sum_with_zero(a, b.opposite());
}

/// The units of the ends of the reverb's range of decays.
pub proof fn lemma_decays()
    ensures
        (Single { bits: 0x3E4C_CCCD }).units() == 0x00CC_CCCD * pow2(123),
        (Single { bits: 0x3F40_0000 }).units() == 0x0300_0000 * pow2(123),
        (Single { bits: 0x3F73_3334 }).units() == 0x03CC_CCD0 * pow2(123),
{
    lemma2_to64();
    lemma_pow2_adds(2, 123);
    assert(0x3E4C_CCCDint / 0x0080_0000int == 124 && 0x3E4C_CCCDint % 0x0080_0000int == 0x004C_CCCD);
    assert(0x3F40_0000int / 0x0080_0000int == 126 && 0x3F40_0000int % 0x0080_0000int == 0x0040_0000);
    assert(0x3F73_3334int / 0x0080_0000int == 126 && 0x3F73_3334int % 0x0080_0000int == 0x0073_3334);
    assert(single::magnitude_units(0x3E4C_CCCD) == 0x00CC_CCCD * pow2(123));
    assert(single::magnitude_units(0x3F40_0000) == 0x00C0_0000 * pow2(125));
    assert(single::magnitude_units(0x3F73_3334) == 0x00F3_3334 * pow2(125));
}

/// A positive integer is nearest to a positive number.
pub proof fn lemma_whole_positive(n: int)
    requires
        1 <= n <= u64::MAX,
    ensures
        Single::nearest_to(n).finite(),
        Single::nearest_to(n).units() > 0,
{
    let f = Format::Single;
    let one = Parts { negative: false, m: 0x0080_0000, e: -23i32 };
    lemma2_to64();
    assert((0x0080_0000 * over(-23, -23)) * 1 <= (n as nat * over(0, -23)) * 1) by (nonlinear_arith)
        requires
            over(-23, -23) == 1,
            over(0, -23) == 0x0080_0000,
            n >= 1,
    ;
    lemma_encode_exact(f, one);
    lemma_encode_ordered(f, 0x0080_0000, 1, -23, n as nat, 1, 0);
    lemma_whole_finite(n);
    lemma_parts(Single::nearest_to(n));
}

/// The units of the times that the controls of the effects take, in milliseconds.
proof fn lemma_effect_times()
    ensures
        64 * (Single { bits: 0x3C80_0000 }).units() == pow2(149),
        (Single { bits: 0x41C8_0000 }).units() == 25 * pow2(149),
        (Single { bits: 0x42F0_0000 }).units() == 120 * pow2(149),
        (Single { bits: 0x447A_0000 }).units() == 1000 * pow2(149),
{
    lemma2_to64();
    lemma_pow2_adds(29, 120);
    lemma_pow2_adds(19, 130);
    lemma_pow2_adds(17, 132);
    lemma_pow2_adds(14, 135);
    assert(0x3C80_0000int / 0x0080_0000int == 121 && 0x3C80_0000int % 0x0080_0000int == 0);
    assert(0x41C8_0000int / 0x0080_0000int == 131 && 0x41C8_0000int % 0x0080_0000int == 0x0048_0000);
    assert(0x42F0_0000int / 0x0080_0000int == 133 && 0x42F0_0000int % 0x0080_0000int == 0x0070_0000);
    assert(0x447A_0000int / 0x0080_0000int == 136 && 0x447A_0000int % 0x0080_0000int == 0x007A_0000);
    assert(single::magnitude_units(0x3C80_0000) == 0x0080_0000 * pow2(120));
    assert(single::magnitude_units(0x41C8_0000) == 0x00C8_0000 * pow2(130));
    assert(single::magnitude_units(0x42F0_0000) == 0x00F0_0000 * pow2(132));
    assert(single::magnitude_units(0x447A_0000) == 0x00FA_0000 * pow2(135));
}

/// The time that a control of an effect takes, in seconds, is a positive number.
pub proof fn lemma_effect_time(ms: Single)
    requires
        ms.bits == 0x41C8_0000 || ms.bits == 0x42F0_0000,
    ensures
        (Single { bits: 0 }).below(ms.quotient(Single { bits: 0x447A_0000 })),
        ms.quotient(Single { bits: 0x447A_0000 }).finite(),
{
    let (thousand, one, least) = (
        Single { bits: 0x447A_0000 },
        Single { bits: 0x3F80_0000 },
        Single { bits: 0x3C80_0000 },
    );
    lemma_effect_times();
    lemma_unit();
    let (u, v, c, w) = (ms.units(), thousand.units(), least.units(), pow2(149) as int);
    assert(c * v <= u * w <= w * v) by (nonlinear_arith)
        requires
            64 * c == w,
            v == 1000 * w,
            u == 25 * w || u == 120 * w,
    ;
    lemma_pow2_pos(149);
    lemma_quotient_bounds(ms, thousand, least);
    lemma_quotient_bounds(ms, thousand, one);
}

/// Whether a number is a value in units, rounded: off by a part in two to the 24th at most.
pub open spec fn rounded(x: Single, exact: int) -> bool {
    let size = if exact < 0 {
        -exact
    } else {
        exact
    };
    &&& x.finite()
    &&& 0x0100_0000 * (x.units() - exact) <= size
    &&& 0x0100_0000 * (exact - x.units()) <= size
}

/// A number's weight in a product or a quotient.
pub proof fn lemma_weight(x: Single)
    requires
        x.finite(),
    ensures
        x.parts().e >= -149,
        x.parts().e <= 104,
        size_units(x) == x.parts().m * over(x.parts().e as int, -149),
        over(x.parts().e as int, -149) > 0,
{
    lemma_parts(x);
    lemma_pow2_pos((x.parts().e + 149) as nat);
    let (m, w) = (x.mantissa(), over(x.parts().e as int, -149) as int);
    assert(m * w >= 0) by (nonlinear_arith)
        requires
            m >= 0,
            w >= 0,
    ;
}

proof fn lemma_regrouped(m: int, n: int, u: int, v: int)
    ensures
        (m * n) * (u * v) == (m * u) * (n * v),
{
    assert((m * n) * (u * v) == (m * u) * (n * v)) by (nonlinear_arith);
}

/// The sign and the size of a product.
proof fn lemma_product_parts(a: Single, b: Single)
    requires
        a.finite(),
        b.finite(),
    ensures
        a.product(b).magnitude() == arith::product_bits(Format::Single, a.parts(), b.parts()),
        a.product(b).negative() == (a.negative() != b.negative()),
        a.product(b).magnitude() <= INFINITE,
{
    reveal(Single::product);
    lemma_encode_positive(
        Format::Single,
        (a.parts().m * b.parts().m) as nat,
        1,
        a.parts().e + b.parts().e,
    );
}

/// The sign and the size of a quotient.
pub proof fn lemma_quotient_parts(a: Single, b: Single)
    requires
        a.finite(),
        b.finite(),
        b.magnitude() != 0,
    ensures
        a.quotient(b).magnitude() == arith::quotient_bits(Format::Single, a.parts(), b.parts()),
        a.quotient(b).negative() == (a.negative() != b.negative()),
        a.quotient(b).magnitude() <= INFINITE,
{
    reveal(Single::quotient);
    lemma_encode_positive(
        Format::Single,
        a.parts().m as nat,
        b.parts().m as nat,
        a.parts().e - b.parts().e,
    );
}

/// Two numbers of one sign and one size are one number.
pub proof fn lemma_sign_and_size(a: Single, b: Single)
    requires
        a.magnitude() == b.magnitude(),
        a.negative() == b.negative(),
    ensures
        a == b,
{
}

/// Products keep the order of the exact products.
pub proof fn lemma_products_ordered(a: Single, b: Single, c: Single, d: Single)
    requires
        a.finite(),
        b.finite(),
        c.finite(),
        d.finite(),
        size_units(a) * size_units(b) <= size_units(c) * size_units(d),
    ensures
        a.product(b).magnitude() <= c.product(d).magnitude() <= INFINITE,
{
    let f = Format::Single;
    lemma_weight(a);
    lemma_weight(b);
    lemma_weight(c);
    lemma_weight(d);
    let (p, q, r, t) = (a.parts(), b.parts(), c.parts(), d.parts());
    let (j, k) = (p.e + q.e, r.e + t.e);
    let (ma, mb, mc, md) = (p.m as int, q.m as int, r.m as int, t.m as int);
    lemma_pow2_adds((p.e + 149) as nat, (q.e + 149) as nat);
    lemma_pow2_adds((r.e + 149) as nat, (t.e + 149) as nat);
    let (wa, wb, wc, wd) = (
        over(p.e as int, -149) as int,
        over(q.e as int, -149) as int,
        over(r.e as int, -149) as int,
        over(t.e as int, -149) as int,
    );
    assert(over(j, -298) == wa * wb && over(k, -298) == wc * wd);
    lemma_regrouped(ma, mb, wa, wb);
    lemma_regrouped(mc, md, wc, wd);
    assert(ma * mb >= 0 && mc * md >= 0) by (nonlinear_arith)
        requires
            ma >= 0,
            mb >= 0,
            mc >= 0,
            md >= 0,
    ;
    let (x, y) = ((ma * mb) as nat, (mc * md) as nat);
    assert((x * over(j, -298)) * 1 <= (y * over(k, -298)) * 1);
    lemma_no_more_from(x, 1, j, y, 1, k, -298);
    lemma_encode_ordered(f, x, 1, j, y, 1, k);
    lemma_product_parts(a, b);
    lemma_product_parts(c, d);
}

/// Quotients keep the order of the exact quotients.
pub proof fn lemma_quotients_ordered(a: Single, b: Single, c: Single, d: Single)
    requires
        a.finite(),
        b.finite(),
        c.finite(),
        d.finite(),
        b.magnitude() != 0,
        d.magnitude() != 0,
        size_units(a) * size_units(d) <= size_units(c) * size_units(b),
    ensures
        a.quotient(b).magnitude() <= c.quotient(d).magnitude() <= INFINITE,
{
    let f = Format::Single;
    lemma_weight(a);
    lemma_weight(b);
    lemma_weight(c);
    lemma_weight(d);
    lemma_parts(b);
    lemma_parts(d);
    let (p, q, r, t) = (a.parts(), b.parts(), c.parts(), d.parts());
    let (j, k) = (p.e - q.e, r.e - t.e);
    let (wa, wb, wc, wd) = (
        over(p.e as int, -149) as int,
        over(q.e as int, -149) as int,
        over(r.e as int, -149) as int,
        over(t.e as int, -149) as int,
    );
    let (wj, wk, big) = (over(j, -298) as int, over(k, -298) as int, pow2(298) as int);
    lemma_pow2_pos(298);
    lemma_pow2_adds((p.e + 149) as nat, 298);
    lemma_pow2_adds((r.e + 149) as nat, 298);
    lemma_pow2_adds((j + 298) as nat, (q.e + 149) as nat);
    lemma_pow2_adds((k + 298) as nat, (t.e + 149) as nat);
    assert(wj * wb == wa * big && wk * wd == wc * big);
    let (left, right) = ((p.m * wj) * t.m, (r.m * wk) * q.m);
    let (s, u) = (size_units(a) * size_units(d), size_units(c) * size_units(b));
    assert(left * (wb * wd) == s * big) by (nonlinear_arith)
        requires
            left == (p.m * wj) * t.m,
            wj * wb == wa * big,
            s == (p.m * wa) * (t.m * wd),
    ;
    assert(right * (wb * wd) == u * big) by (nonlinear_arith)
        requires
            right == (r.m * wk) * q.m,
            wk * wd == wc * big,
            u == (r.m * wc) * (q.m * wb),
    ;
    assert(left <= right) by (nonlinear_arith)
        requires
            left * (wb * wd) == s * big,
            right * (wb * wd) == u * big,
            s <= u,
            wb > 0,
            wd > 0,
            big > 0,
    ;
    lemma_no_more_from(p.m as nat, q.m as nat, j, r.m as nat, t.m as nat, k, -298);
    lemma_encode_ordered(f, p.m as nat, q.m as nat, j, r.m as nat, t.m as nat, k);
    lemma_quotient_parts(a, b);
    lemma_quotient_parts(c, d);
}

/// A sum that is nothing is a sum of opposite values.
pub proof fn lemma_sum_error_of_nothing(a: Single, b: Single)
    requires
        a.finite(),
        b.finite(),
        a.sum(b).key() == 0,
    ensures
        a.units() == -b.units(),
{
    lemma_unit();
    lemma_sum_error(a, b);
    lemma_parts(a.sum(b));
}

/// Nothing times a finite number is nothing.
pub proof fn lemma_zero_product(a: Single)
    requires
        a.finite(),
    ensures
        (Single { bits: 0 }).product(a).finite(),
        (Single { bits: 0 }).product(a).units() == 0,
{
    let zero = Single { bits: 0 };
    lemma_unit();
    assert(0 * a.units() == 0 && 0 * pow2(149) == 0);
    lemma_product_bounds(zero, a, zero);
    lemma_parts(zero.product(a));
}

/// Sums keep the order of the exact sums.
pub proof fn lemma_sums_ordered(a: Single, b: Single, c: Single, d: Single)
    requires
        a.finite(),
        b.finite(),
        c.finite(),
        d.finite(),
        a.units() + b.units() <= c.units() + d.units(),
    ensures
        a.sum(b).at_most(c.sum(d)),
{
    lemma_sum_is_nearest(a, b);
    lemma_sum_is_nearest(c, d);
    lemma_nearest_key_ordered(a.units() + b.units(), c.units() + d.units());
}

} // verus!
