//! Rounding a rational number to a fixed number of significant bits.
//!
//! A binary floating-point format is given by the value `h` of the leading bit
//! of a full mantissa and by the exponent `low` of its smallest last place.

use vstd::arithmetic::div_mod::*;
use vstd::arithmetic::power2::*;
use vstd::prelude::*;

verus! {

/// The quotient `n / d` rounded to the nearest integer, ties to even.
pub open spec fn nearest(n: nat, d: nat) -> nat
    recommends
        d > 0,
{
    let q = n / d;
    let r = n % d;
    if 2 * r > d || (2 * r == d && q % 2 == 1) {
        q + 1
    } else {
        q
    }
}

/// How many doublings of `n` bring `n / d` up to a full mantissa.
pub open spec fn doublings(h: nat, n: nat, d: nat) -> nat
    decreases
        (if n < h * d {
            h * d - n
        } else {
            0
        }),
{
    if n == 0 || n >= h * d {
        0
    } else {
        1 + doublings(h, 2 * n, d)
    }
}

/// How many doublings of `d` bring `n / d` down to a full mantissa.
pub open spec fn halvings(h: nat, n: nat, d: nat) -> nat
    decreases
        (if n >= d {
            n - d
        } else {
            0
        }),
{
    if d == 0 || h == 0 || n < 2 * (h * d) {
        0
    } else {
        proof {
            assert(2 * (h * d) >= 2 * d) by (nonlinear_arith)
                requires
                    h >= 1,
            ;
        }
        1 + halvings(h, n, 2 * d)
    }
}

/// The exponent of the last place of the number nearest to `(n / d) * 2^k`: a
/// full mantissa, but nothing finer than the format holds.
pub open spec fn quantum(h: nat, low: int, n: nat, d: nat, k: int) -> int {
    let q = k + halvings(h, n, d) - doublings(h, n, d);
    if q < low {
        low
    } else {
        q
    }
}

/// The mantissa of the number nearest to `(n / d) * 2^k`, ties to even.
pub open spec fn mantissa(h: nat, low: int, n: nat, d: nat, k: int) -> nat {
    let q = quantum(h, low, n, d, k);
    if q <= k {
        nearest(n * pow2((k - q) as nat), d)
    } else {
        nearest(n, d * pow2((q - k) as nat))
    }
}

/// The pattern of the number nearest to `(n / d) * 2^k`, held to the pattern
/// `top` of infinity. The exponent field counts up from `low`, and the leading
/// bit of a full mantissa carries into it.
pub open spec fn encode(h: nat, low: int, top: int, n: nat, d: nat, k: int) -> int {
    if n == 0 {
        0
    } else {
        let bits = (quantum(h, low, n, d, k) - low) * h + mantissa(h, low, n, d, k);
        if bits > top {
            top
        } else {
            bits
        }
    }
}

/// Rounding a quotient never carries it past an integer above it.
pub proof fn lemma_nearest_at_most(n: nat, d: nat, c: nat)
    requires
        d > 0,
        n <= c * d,
    ensures
        nearest(n, d) <= c,
{
    let q = n / d;
    let r = n % d;
    assert(n == q * d + r && r < d && q <= c && (q == c ==> r == 0)) by (nonlinear_arith)
        requires
            q == n / d,
            r == n % d,
            d > 0,
            n <= c * d,
    ;
}

/// Rounding a quotient never carries it below an integer under it.
pub proof fn lemma_nearest_at_least(n: nat, d: nat, c: nat)
    requires
        d > 0,
        c * d <= n,
    ensures
        c <= nearest(n, d),
{
    let q = n / d;
    assert(c <= q) by (nonlinear_arith)
        requires
            q == n / d,
            d > 0,
            c * d <= n,
    ;
}

/// A quotient less than half a place away from an integer rounds to it.
pub proof fn lemma_rounds_to(x: nat, d: nat, m: nat, rest: int)
    requires
        d > 0,
        x == m * d + rest,
        -d < 2 * rest < d,
    ensures
        nearest(x, d) == m,
{
    if rest >= 0 {
        lemma_fundamental_div_mod_converse(x as int, d as int, m as int, rest);
    } else {
        assert(x == (m - 1) * d + (d + rest)) by (nonlinear_arith)
            requires
                x == m * d + rest,
        ;
        lemma_fundamental_div_mod_converse(x as int, d as int, m - 1, d + rest);
    }
}

/// Doubling stops once the quotient has a full mantissa, and no later.
pub proof fn lemma_doublings(h: nat, n: nat, d: nat)
    requires
        0 < n < 2 * (h * d),
    ensures
        h * d <= n * pow2(doublings(h, n, d)) < 2 * (h * d),
    decreases 2 * (h * d) - n,
{
    lemma2_to64();
    if n < h * d {
        lemma_doublings(h, 2 * n, d);
        let s = doublings(h, 2 * n, d);
        lemma_pow2_unfold(s + 1);
        assert((2 * n) * pow2(s) == n * (2 * pow2(s))) by (nonlinear_arith);
    } else {
        assert(n * pow2(0) == n);
    }
}

/// Doubling the divisor stops once the quotient has a full mantissa.
pub proof fn lemma_halvings(h: nat, n: nat, d: nat)
    requires
        d > 0,
        h > 0,
    ensures
        n < 2 * (h * (d * pow2(halvings(h, n, d)))),
        halvings(h, n, d) > 0 ==> h * (d * pow2(halvings(h, n, d))) <= n,
        halvings(h, n, d) > 0 <==> n >= 2 * (h * d),
        halvings(h, n, d) > 0 ==> doublings(h, n, d) == 0,
    decreases
        (if n >= d {
            n - d
        } else {
            0
        }),
{
    lemma2_to64();
    assert(h * (2 * d) == 2 * (h * d)) by (nonlinear_arith);
    assert(h * d >= d) by (nonlinear_arith)
        requires
            h >= 1,
    ;
    if n >= 2 * (h * d) {
        lemma_halvings(h, n, 2 * d);
        let s = halvings(h, n, 2 * d);
        lemma_pow2_unfold(s + 1);
        assert((2 * d) * pow2(s) == d * (2 * pow2(s))) by (nonlinear_arith);
        if s == 0 {
            assert(d * pow2(1) == 2 * d);
        }
    } else {
        assert(d * pow2(0) == d);
    }
}

/// A mantissa is full at most, or just rounded past that.
pub proof fn lemma_mantissa_fits(h: nat, low: int, n: nat, d: nat, k: int)
    requires
        n > 0,
        d > 0,
        h > 0,
    ensures
        mantissa(h, low, n, d, k) <= 2 * h,
{
    let ups = doublings(h, n, d);
    let downs = halvings(h, n, d);
    let q = quantum(h, low, n, d, k);
    lemma_halvings(h, n, d);
    lemma2_to64();
    if n < 2 * (h * d) {
        lemma_doublings(h, n, d);
    }
    assert((2 * h) * d == 2 * (h * d)) by (nonlinear_arith);
    if q <= k {
        let t = (k - q) as nat;
        assert(t <= ups);
        if t < ups {
            lemma_pow2_strictly_increases(t, ups);
        }
        assert(n * pow2(t) <= n * pow2(ups)) by (nonlinear_arith)
            requires
                pow2(t) <= pow2(ups),
        ;
        assert(n * pow2(t) <= (2 * h) * d);
        lemma_nearest_at_most(n * pow2(t), d, 2 * h);
    } else {
        let t = (q - k) as nat;
        assert(t >= downs - ups);
        lemma_pow2_pos(t);
        if downs < t {
            lemma_pow2_strictly_increases(downs, t);
        }
        let big = d * pow2(t);
        assert(n <= (2 * h) * big) by (nonlinear_arith)
            requires
                n < 2 * (h * (d * pow2(downs))),
                pow2(downs) <= pow2(t),
                big == d * pow2(t),
        ;
        assert(big > 0) by (nonlinear_arith)
            requires
                d > 0,
                pow2(t) > 0,
                big == d * pow2(t),
        ;
        lemma_nearest_at_most(n, big, 2 * h);
    }
}

/// `x` doubled `t` times.
pub fn double(x: u128, t: u32) -> (r: u128)
    requires
        x * pow2(t as nat) < 0x4000_0000_0000_0000_0000_0000_0000_0000,
    ensures
        r == x * pow2(t as nat),
{
    let mut r: u128 = x;
    let mut i: u32 = 0;
    proof {
        lemma2_to64();
        assert(x * pow2(0) == x);
    }
    while i < t
        invariant
            i <= t,
            r == x * pow2(i as nat),
            x * pow2(t as nat) < 0x4000_0000_0000_0000_0000_0000_0000_0000,
        decreases t - i,
    {
        proof {
            lemma_pow2_unfold((i + 1) as nat);
            assert(x * pow2((i + 1) as nat) == 2 * (x * pow2(i as nat))) by (nonlinear_arith)
                requires
                    pow2((i + 1) as nat) == 2 * pow2(i as nat),
            ;
            if i + 1 < t {
                lemma_pow2_strictly_increases((i + 1) as nat, t as nat);
            }
            assert(x * pow2((i + 1) as nat) <= x * pow2(t as nat)) by (nonlinear_arith)
                requires
                    pow2((i + 1) as nat) <= pow2(t as nat),
                    x >= 0,
            ;
        }
        r = r * 2;
        i = i + 1;
    }
    r
}

/// `nearest`, computed.
fn quotient_to_even(n: u128, d: u128) -> (m: u128)
    requires
        0 < d < 0x4000_0000_0000_0000_0000_0000_0000_0000,
        n < 0x4000_0000_0000_0000_0000_0000_0000_0000,
    ensures
        m == nearest(n as nat, d as nat),
{
    let q: u128 = n / d;
    let r: u128 = n % d;
    assert(q <= n) by (nonlinear_arith)
        requires
            q == n as int / d as int,
            d >= 1,
            n >= 0,
    ;
    if 2 * r > d || (2 * r == d && q % 2 == 1) {
        q + 1
    } else {
        q
    }
}

fn count_doublings(h: u128, n: u128, d: u128) -> (s: i32)
    requires
        0 < h <= 0x10_0000_0000_0000,
        0 < n,
        0 < d < 0x1000_0000_0000_0000,
    ensures
        s == doublings(h as nat, n as nat, d as nat),
        0 <= s <= 112,
{
    let mut m: u128 = n;
    let mut s: i32 = 0;
    proof {
        lemma2_to64();
        assert(n * pow2(0) == n);
        assert(h * d <= 0x10_0000_0000_0000 * 0x1000_0000_0000_0000) by (nonlinear_arith)
            requires
                0 <= h <= 0x10_0000_0000_0000,
                0 <= d <= 0x1000_0000_0000_0000,
        ;
    }
    let full: u128 = h * d;
    while m < full
        invariant
            full == h * d,
            full <= 0x10_0000_0000_0000 * 0x1000_0000_0000_0000,
            0 < m,
            m < 2 * full || s == 0,
            s + doublings(h as nat, m as nat, d as nat) == doublings(h as nat, n as nat, d as nat),
            m == n * pow2(s as nat),
            n > 0,
            0 <= s <= 112,
        decreases 2 * full - m,
    {
        proof {
            lemma_pow2_unfold((s + 1) as nat);
            assert(n * (2 * pow2(s as nat)) == 2 * (n * pow2(s as nat))) by (nonlinear_arith);
            assert(n * pow2(s as nat) >= pow2(s as nat)) by (nonlinear_arith)
                requires
                    n >= 1,
            ;
            if s == 112 {
                lemma2_to64();
                lemma2_to64_rest();
                lemma_pow2_adds(64, 48);
            }
        }
        m = m * 2;
        s = s + 1;
    }
    s
}

fn count_halvings(h: u128, n: u128, d: u128) -> (s: i32)
    requires
        0 < h <= 0x10_0000_0000_0000,
        n < 0x40_0000_0000_0000_0000_0000_0000_0000,
        0 < d < 0x1000_0000_0000_0000,
    ensures
        s == halvings(h as nat, n as nat, d as nat),
        0 <= s <= 118,
        d * pow2(s as nat) <= n || s == 0,
{
    let mut e: u128 = d;
    let mut s: i32 = 0;
    proof {
        lemma2_to64();
        assert(d * pow2(0) == d);
        assert(h * d <= 0x10_0000_0000_0000 * 0x1000_0000_0000_0000) by (nonlinear_arith)
            requires
                0 <= h <= 0x10_0000_0000_0000,
                0 <= d <= 0x1000_0000_0000_0000,
        ;
    }
    let mut full: u128 = 2 * (h * d);
    while n >= full
        invariant
            0 < h,
            n < 0x40_0000_0000_0000_0000_0000_0000_0000,
            0 < d,
            0 < e,
            full == 2 * (h * e),
            full <= 2 * n || full <= 2 * 0x10_0000_0000_0000 * 0x1000_0000_0000_0000,
            s + halvings(h as nat, n as nat, e as nat) == halvings(h as nat, n as nat, d as nat),
            e == d * pow2(s as nat),
            e <= n || s == 0,
            0 <= s <= 118,
        decreases 2 * n - full,
    {
        proof {
            assert(2 * e <= full) by (nonlinear_arith)
                requires
                    full == 2 * (h * e),
                    h >= 1,
                    e >= 0,
            ;
            assert(h * (2 * e) == 2 * (h * e)) by (nonlinear_arith);
            lemma_pow2_unfold((s + 1) as nat);
            assert(d * (2 * pow2(s as nat)) == 2 * (d * pow2(s as nat))) by (nonlinear_arith);
            assert(d * pow2(s as nat) >= pow2(s as nat)) by (nonlinear_arith)
                requires
                    d >= 1,
            ;
            if s == 118 {
                lemma2_to64();
                lemma2_to64_rest();
                lemma_pow2_adds(64, 54);
            }
        }
        e = e * 2;
        full = full * 2;
        s = s + 1;
    }
    s
}

/// `n` over `d` doubled `t` times, rounded.
fn quotient_scaled(n: u128, d: u128, t: u32) -> (m: u128)
    requires
        n < 0x40_0000_0000_0000_0000_0000_0000_0000,
        0 < d < 0x1000_0000_0000_0000,
    ensures
        m == nearest(n as nat, d as nat * pow2(t as nat)),
{
    let mut e: u128 = d;
    let mut i: u32 = 0;
    proof {
        lemma2_to64();
        assert(d * pow2(0) == d);
    }
    while i < t
        invariant
            i <= t,
            0 < e,
            e == d * pow2(i as nat),
            n < 0x40_0000_0000_0000_0000_0000_0000_0000,
            e < 0x1000_0000_0000_0000 || e <= 4 * n,
        decreases t - i,
    {
        if e > 2 * n {
            proof {
                let big = d as nat * pow2(t as nat);
                lemma_pow2_adds(i as nat, (t - i) as nat);
                lemma_pow2_pos((t - i) as nat);
                assert(big >= e) by (nonlinear_arith)
                    requires
                        big == d * pow2(t as nat),
                        e == d * pow2(i as nat),
                        pow2(t as nat) == pow2(i as nat) * pow2((t - i) as nat),
                        pow2((t - i) as nat) >= 1,
                        e >= 0,
                ;
                lemma_basic_div(n as int, big as int);
                lemma_small_mod(n as nat, big);
            }
            return 0;
        }
        proof {
            lemma_pow2_unfold((i + 1) as nat);
            assert(d * (2 * pow2(i as nat)) == 2 * (d * pow2(i as nat))) by (nonlinear_arith);
        }
        e = e * 2;
        i = i + 1;
    }
    quotient_to_even(n, e)
}

/// The mantissa and the last place of the number nearest to `(n / d) * 2^k`.
pub fn pack(h: u128, low: i32, n: u128, d: u128, k: i32) -> (p: (u64, i32))
    requires
        0 < h <= 0x10_0000_0000_0000,
        -5000 <= low <= 0,
        0 < n < 0x40_0000_0000_0000_0000_0000_0000_0000,
        0 < d < 0x1000_0000_0000_0000,
        -5000 <= k <= 5000,
    ensures
        p.0 == mantissa(h as nat, low as int, n as nat, d as nat, k as int),
        p.1 == quantum(h as nat, low as int, n as nat, d as nat, k as int),
        p.0 <= 2 * h,
        low <= p.1 <= 6000,
{
    let ups: i32 = count_doublings(h, n, d);
    let downs: i32 = count_halvings(h, n, d);
    let q0: i32 = k + downs - ups;
    let q: i32 = if q0 < low {
        low
    } else {
        q0
    };
    proof {
        lemma_mantissa_fits(h as nat, low as int, n as nat, d as nat, k as int);
        lemma_halvings(h as nat, n as nat, d as nat);
    }
    let m: u128 = if q <= k {
        let t: u32 = (k - q) as u32;
        proof {
            lemma2_to64();
            if t < ups {
                lemma_pow2_strictly_increases(t as nat, ups as nat);
            }
            assert(n * pow2(t as nat) <= n * pow2(ups as nat)) by (nonlinear_arith)
                requires
                    pow2(t as nat) <= pow2(ups as nat),
                    n >= 0,
            ;
            if n < 2 * (h * d) {
                lemma_doublings(h as nat, n as nat, d as nat);
                assert(h * d <= 0x10_0000_0000_0000 * 0x1000_0000_0000_0000) by (nonlinear_arith)
                    requires
                        0 <= h <= 0x10_0000_0000_0000,
                        0 <= d <= 0x1000_0000_0000_0000,
                ;
            } else {
                assert(n * pow2(0) == n);
            }
        }
        quotient_to_even(double(n, t), d)
    } else {
        quotient_scaled(n, d, (q - k) as u32)
    };
    (m as u64, q)
}

} // verus!
