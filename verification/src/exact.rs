//! What arithmetic on numbers comes to, exactly where it is exact, and to within a few parts
//! in two to the 24th where it is not.

use crate::arith::{Format, Parts};
use crate::bounds;
use crate::rounding;
use crate::single;
use crate::single::{Single, HIDDEN};
use vstd::arithmetic::power2::*;
use vstd::prelude::*;

verus! {

/// The value of an integer, in units.
pub open spec fn whole(n: int) -> int {
    n * pow2(149)
}

/// An integer of 24 bits is its own nearest number.
pub proof fn lemma_whole(n: int)
    requires
        0 <= n < 0x0100_0000,
    ensures
        Single::nearest_to(n).finite(),
        !Single::nearest_to(n).negative(),
        Single::nearest_to(n).units() == whole(n),
{
    bounds::lemma_whole_finite(n);
    if n > 0 {
        let f = Format::Single;
        let h = HIDDEN as nat;
        let k = n as nat;
        let d = rounding::doublings(h, k, 1);
        lemma2_to64();
        rounding::lemma_doublings(h, k, 1);
        let w = pow2(d) as int;
        assert(h * 1 == h);
        lemma_pow2_pos(d);
        assert(w <= n * w) by (nonlinear_arith)
            requires
                n >= 1,
                w >= 0,
        ;
        if d >= 24 {
            if d > 24 {
                lemma_pow2_strictly_increases(24, d);
            }
            assert(false);
        }
        let m = (n * w) as u64;
        let p = Parts { negative: false, m, e: (-d) as i32 };
        assert(p.fits(f));
        bounds::lemma_encode_exact(f, p);
        assert(bounds::over(0, -(d as int)) == w && bounds::over(-(d as int), -(d as int)) == 1);
        assert((k * bounds::over(0, -(d as int))) * 1 == (m as nat * 1) * 1);
        assert((m as nat * bounds::over(-(d as int), -(d as int))) * 1 == m as nat);
        assert(bounds::no_more(k, 1, 0, m as nat, 1, -(d as int)));
        assert(bounds::no_more(m as nat, 1, -(d as int), k, 1, 0));
        bounds::lemma_encode_ordered(f, k, 1, 0, m as nat, 1, -(d as int));
        bounds::lemma_encode_ordered(f, m as nat, 1, -(d as int), k, 1, 0);
        bounds::lemma_pattern_units(m as nat, -(d as int));
        lemma_pow2_adds(d, (149 - d) as nat);
        assert((n * w) * pow2((149 - d) as nat) == n * (w * pow2((149 - d) as nat)))
            by (nonlinear_arith);
    } else {
        assert(whole(0) == 0);
        assert(Single::nearest_to(0).bits == 0);
        bounds::lemma_unit();
    }
}

/// Two numbers with one key, and not zero, are one number.
pub proof fn lemma_one_key(a: Single, b: Single)
    requires
        a.key() == b.key(),
        a.key() != 0,
    ensures
        a == b,
{
}

/// A sum that is a number is that number.
pub proof fn lemma_exact_sum(a: Single, b: Single, x: Single)
    requires
        a.finite(),
        b.finite(),
        x.finite(),
        x.units() == a.units() + b.units(),
    ensures
        a.sum(b).key() == x.key(),
        x.units() != 0 ==> a.sum(b) == x,
        a.sum(b).finite(),
        a.sum(b).units() == x.units(),
{
    bounds::lemma_sum_bounds(a, b, x);
    single::law_order_is_numeric(x, x);
    lemma_key_units(a.sum(b), x);
}

/// A product that is a number is that number.
pub proof fn lemma_exact_product(a: Single, b: Single, x: Single)
    requires
        a.finite(),
        b.finite(),
        x.finite(),
        x.units() * pow2(149) == a.units() * b.units(),
    ensures
        a.product(b).key() == x.key(),
        x.units() != 0 ==> a.product(b) == x,
        a.product(b).finite(),
        a.product(b).units() == x.units(),
{
    bounds::lemma_product_bounds(a, b, x);
    lemma_key_units(a.product(b), x);
}

/// A quotient that is a number is that number.
pub proof fn lemma_exact_quotient(a: Single, b: Single, x: Single)
    requires
        a.finite(),
        b.finite(),
        x.finite(),
        b.units() > 0,
        x.units() * b.units() == a.units() * pow2(149),
    ensures
        a.quotient(b).key() == x.key(),
        x.units() != 0 ==> a.quotient(b) == x,
        a.quotient(b).finite(),
        a.quotient(b).units() == x.units(),
{
    bounds::lemma_quotient_bounds(a, b, x);
    lemma_key_units(a.quotient(b), x);
}

proof fn lemma_key_units(a: Single, x: Single)
    requires
        x.finite(),
        a.key() == x.key(),
    ensures
        a.finite(),
        a.units() == x.units(),
        x.units() != 0 ==> a == x,
{
    bounds::lemma_unit();
    single::law_order_is_numeric(x, Single { bits: 0 });
    single::law_order_is_numeric(Single { bits: 0 }, x);
    if x.key() != 0 {
        lemma_one_key(a, x);
    } else {
        single::law_order_is_numeric(a, Single { bits: 0 });
        single::law_order_is_numeric(Single { bits: 0 }, a);
    }
}

/// Whether a result is within so many parts in two to the 24th of what it stands for.
pub open spec fn close(got: int, exact: int, parts: int) -> bool {
    &&& 0x0100_0000 * (got - exact) <= parts * exact
    &&& 0x0100_0000 * (exact - got) <= parts * exact
}

/// What is close to something close is close.
pub proof fn lemma_close_chain(x: int, y: int, j: int, z: int, k: int)
    requires
        close(x, y, j),
        close(y, z, k),
        0 <= j <= 1024,
        0 <= k <= 1024,
        0 <= z,
    ensures
        close(x, z, j + k + 1),
{
    let t = 0x0100_0000int;
    assert(j * y * t <= j * z * t + j * k * z && j * k * z <= t * z) by (nonlinear_arith)
        requires
            t * y - t * z <= k * z,
            0 <= j <= 1024,
            0 <= k <= 1024,
            0 <= z,
            t == 0x0100_0000,
    ;
    assert(t * (t * (x - y)) <= t * (j * y) && t * (t * (y - x)) <= t * (j * y)) by (nonlinear_arith)
        requires
            t * (x - y) <= j * y,
            t * (y - x) <= j * y,
            t == 0x0100_0000,
    ;
    assert(t * (t * (x - z)) <= t * ((j + k + 1) * z)) by (nonlinear_arith)
        requires
            t * (t * (x - y)) <= t * (j * y),
            t * (y - z) <= k * z,
            j * y * t <= j * z * t + j * k * z,
            j * k * z <= t * z,
            t == 0x0100_0000,
    ;
    assert(t * (t * (z - x)) <= t * ((j + k + 1) * z)) by (nonlinear_arith)
        requires
            t * (t * (y - x)) <= t * (j * y),
            t * (z - y) <= k * z,
            j * y * t <= j * z * t + j * k * z,
            j * k * z <= t * z,
            t == 0x0100_0000,
    ;
}

/// A product of close things is close.
pub proof fn lemma_close_times(x: int, y: int, k: int, c: int)
    requires
        close(x, y, k),
        0 <= c,
    ensures
        close(x * c, y * c, k),
{
    let t = 0x0100_0000int;
    assert(t * (x * c - y * c) <= k * (y * c) && t * (y * c - x * c) <= k * (y * c))
        by (nonlinear_arith)
        requires
            t * (x - y) <= k * y,
            t * (y - x) <= k * y,
            0 <= c,
    ;
}

/// What is close times something is close.
pub proof fn lemma_close_over(x: int, y: int, k: int, c: int)
    requires
        close(x * c, y * c, k),
        0 < c,
    ensures
        close(x, y, k),
{
    let t = 0x0100_0000int;
    assert(t * (x - y) <= k * y && t * (y - x) <= k * y) by (nonlinear_arith)
        requires
            t * (x * c - y * c) <= k * (y * c),
            t * (y * c - x * c) <= k * (y * c),
            0 < c,
    ;
}

/// A product of two numbers that are not negative is close to the exact one, unless it is
/// next to nothing.
pub proof fn lemma_product_close(a: Single, b: Single)
    requires
        a.finite(),
        b.finite(),
        a.product(b).finite(),
        a.units() >= 0,
        b.units() >= 0,
        a.units() * b.units() >= HIDDEN * pow2(149),
    ensures
        a.product(b).units() >= 0,
        close(whole(a.product(b).units()), a.units() * b.units(), 2),
{
    let zero = Single { bits: 0 };
    bounds::lemma_unit();
    assert(0 * pow2(149) == 0);
    bounds::lemma_product_bounds(a, b, zero);
    single::law_order_is_numeric(zero, a.product(b));
    bounds::lemma_product_error(a, b);
}

/// So is a quotient.
pub proof fn lemma_quotient_close(a: Single, b: Single)
    requires
        a.finite(),
        b.finite(),
        a.quotient(b).finite(),
        a.units() >= 0,
        b.units() > 0,
        whole(a.units()) >= HIDDEN * b.units(),
    ensures
        a.quotient(b).units() >= 0,
        close(a.quotient(b).units() * b.units(), whole(a.units()), 2),
{
    let zero = Single { bits: 0 };
    bounds::lemma_unit();
    let (u, v, w) = (a.units(), b.units(), pow2(149) as int);
    assert(u * w >= 0 * v) by (nonlinear_arith)
        requires
            u >= 0,
            w >= 0,
    ;
    bounds::lemma_quotient_bounds(a, b, zero);
    single::law_order_is_numeric(zero, a.quotient(b));
    assert(b.magnitude() != 0) by {
        if b.magnitude() == 0 {
            single::law_order_is_numeric(b, zero);
        }
    }
    bounds::lemma_quotient_error(a, b);
}

/// Twice and four times a number up to one are exact.
pub proof fn lemma_small_multiples(t: Single)
    requires
        bounds::in_unit(t),
    ensures
        (Single { bits: 0x4000_0000 }).product(t).finite(),
        (Single { bits: 0x4000_0000 }).product(t).units() == 2 * t.units(),
        (Single { bits: 0x4080_0000 }).product(t).finite(),
        (Single { bits: 0x4080_0000 }).product(t).units() == 4 * t.units(),
{
    bounds::lemma_in_unit(t);
    bounds::lemma_small_wholes();
    assert(t.exponent() <= 127);
    bounds::lemma_doubled(t);
    let x = t.sum(t);
    let (u, w) = (t.units(), pow2(149) as int);
    assert((2 * u) * w == (2 * w) * u && (4 * u) * w == (4 * w) * u) by (nonlinear_arith);
    lemma_exact_product(Single { bits: 0x4000_0000 }, t, x);
    bounds::lemma_unit();
    single::law_order_is_numeric(x, Single { bits: 0x4000_0000 });
    single::law_order_is_numeric(Single { bits: 0 }, x);
    assert(x.magnitude() <= 0x4000_0000);
    assert(x.exponent() <= 128);
    bounds::lemma_doubled(x);
    lemma_exact_product(Single { bits: 0x4080_0000 }, t, x.sum(x));
}

/// Sums of opposite values are opposite.
pub proof fn lemma_opposite_sums(a: Single, b: Single, c: Single, d: Single)
    requires
        a.finite(),
        b.finite(),
        c.finite(),
        d.finite(),
        a.units() + b.units() == -(c.units() + d.units()),
    ensures
        a.sum(b).key() == -c.sum(d).key(),
{
    bounds::lemma_sum_is_nearest(a, b);
    bounds::lemma_sum_is_nearest(c, d);
}

/// A number times one is that number.
pub proof fn lemma_times_one(x: Single)
    requires
        !x.nan(),
    ensures
        x.product(Single { bits: 0x3F80_0000 }) == x,
{
    let one = Single { bits: 0x3F80_0000 };
    bounds::lemma_unit();
    if x.finite() {
        assert(x.units() * pow2(149) == x.units() * one.units());
        lemma_exact_product(x, one, x);
        reveal(Single::product);
        bounds::lemma_product_bounds(x, one, x);
        bounds::lemma_encode_positive(
            Format::Single,
            (x.parts().m * one.parts().m) as nat,
            1,
            x.parts().e + one.parts().e,
        );
    } else {
        reveal(Single::product);
    }
}

/// A product of three numbers that are not negative is close to the exact one.
pub proof fn lemma_triple_close(a: Single, b: Single, c: Single)
    requires
        a.finite(),
        b.finite(),
        c.finite(),
        a.product(b).finite(),
        a.product(b).product(c).finite(),
        a.units() >= 0,
        b.units() >= 0,
        c.units() >= 0,
        a.units() * b.units() >= HIDDEN * pow2(149),
        a.product(b).units() * c.units() >= HIDDEN * pow2(149),
    ensures
        a.product(b).product(c).units() >= 0,
        close(
            whole(whole(a.product(b).product(c).units())),
            a.units() * b.units() * c.units(),
            5,
        ),
{
    let p = a.product(b);
    let r = p.product(c);
    lemma_product_close(a, b);
    lemma_product_close(p, c);
    lemma_pow2_pos(149);
    let w = pow2(149) as int;
    let (u, v, x, y, z) = (a.units(), b.units(), c.units(), p.units(), r.units());
    lemma_close_times(y * w, u * v, 2, x);
    lemma_close_times(z * w, y * x, 2, w);
    assert((y * w) * x == (y * x) * w) by (nonlinear_arith);
    assert(0 <= (u * v) * x) by (nonlinear_arith)
        requires
            0 <= u,
            0 <= v,
            0 <= x,
    ;
    lemma_close_chain((z * w) * w, (y * x) * w, 2, (u * v) * x, 2);
}

/// Two numbers of one value give one sum with a third, but for the sign of nothing.
pub proof fn lemma_sum_by_value(a: Single, b: Single, c: Single)
    requires
        a.finite(),
        b.finite(),
        c.finite(),
        a.units() == b.units(),
    ensures
        a.sum(c).key() == b.sum(c).key(),
        !a.sum(c).nan(),
        a.sum(c).key() != 0 ==> a.sum(c) == b.sum(c),
{
    bounds::lemma_sum_is_nearest(a, c);
    bounds::lemma_sum_is_nearest(b, c);
    if a.sum(c).key() != 0 {
        lemma_one_key(a.sum(c), b.sum(c));
    }
}

/// The number that is so many times a power of two, where 24 bits are enough for it.
pub proof fn lemma_scaled_whole(n: int, e: int) -> (x: Single)
    requires
        0 < n < 0x0100_0000,
        -120 <= e <= 80,
    ensures
        x.finite(),
        !x.negative(),
        x.units() == n * bounds::over(e, -149),
{
    let f = Format::Single;
    let h = HIDDEN as nat;
    let d = rounding::doublings(h, n as nat, 1);
    lemma2_to64();
    rounding::lemma_doublings(h, n as nat, 1);
    let w = pow2(d) as int;
    assert(h * 1 == h);
    lemma_pow2_pos(d);
    assert(w <= n * w) by (nonlinear_arith)
        requires
            n >= 1,
            w >= 0,
    ;
    if d >= 24 {
        if d > 24 {
            lemma_pow2_strictly_increases(24, d);
        }
        assert(false);
    }
    let m = (n * w) as u64;
    let p = Parts { negative: false, m, e: (e - d) as i32 };
    assert(p.fits(f));
    bounds::lemma_encode_exact(f, p);
    bounds::lemma_pattern_units(m as nat, e - d);
    lemma_pow2_adds(d, (e - d + 149) as nat);
    let v = pow2((e - d + 149) as nat) as int;
    assert((n * w) * v == n * (w * v)) by (nonlinear_arith);
    Single { bits: p.bits(f) as u32 }
}

/// One taken from a number between one and two leaves the rest of it, exactly.
pub proof fn lemma_less_one(x: Single)
    requires
        x.finite(),
        pow2(149) <= x.units() <= 2 * pow2(149),
    ensures
        x.difference(Single { bits: 0x3F80_0000 }).finite(),
        x.difference(Single { bits: 0x3F80_0000 }).units() == x.units() - pow2(149),
{
    let (zero, one, two) = (
        Single { bits: 0 },
        Single { bits: 0x3F80_0000 },
        Single { bits: 0x4000_0000 },
    );
    bounds::lemma_unit();
    bounds::lemma_small_wholes();
    bounds::lemma_opposite(one);
    single::law_order_is_numeric(one, x);
    single::law_order_is_numeric(x, two);
    single::law_order_is_numeric(two, x);
    if x.magnitude() == 0x4000_0000 {
        lemma_exact_sum(x, one.opposite(), one);
    } else {
        let k = x.magnitude() - 0x3F80_0000;
        lemma2_to64();
        lemma_pow2_adds(23, 126);
        assert(x.magnitude() / HIDDEN as int == 127 && x.magnitude() % HIDDEN as int == k);
        let w = pow2(126) as int;
        assert((HIDDEN + k) * w == HIDDEN * w + k * w) by (nonlinear_arith);
        if k == 0 {
            assert(0 * w == 0);
            lemma_exact_sum(x, one.opposite(), zero);
        } else {
            let y = lemma_scaled_whole(k, -23);
            lemma_exact_sum(x, one.opposite(), y);
        }
    }
}

/// Closeness goes both ways.
pub proof fn lemma_close_back(x: int, y: int, k: int)
    requires
        close(x, y, k),
        0 <= k <= 1024,
        0 <= y,
    ensures
        close(y, x, k + 1),
        0 <= x,
{
    let t = 0x0100_0000int;
    assert(k * y <= (k + 1) * x) by (nonlinear_arith)
        requires
            t * (y - x) <= k * y,
            0 <= k <= 1024,
            0 <= y,
            t == 0x0100_0000,
    ;
    assert(0 <= x) by (nonlinear_arith)
        requires
            t * (y - x) <= k * y,
            0 <= k <= 1024,
            0 <= y,
            t == 0x0100_0000,
    ;
}

} // verus!
