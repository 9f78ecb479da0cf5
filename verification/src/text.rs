//! Numbers as the panel writes them.

use crate::arith::Parts;
use crate::params::of;
use crate::rounding;
use crate::single;
use crate::single::Single;
use crate::ui;
use crate::ui::{decimals, shows_reduction};
use vstd::arithmetic::power2::*;
use vstd::prelude::*;
use vstd::string::StringExecFns;

verus! {

/// A decimal digit.
pub open spec fn digit(n: nat) -> char {
    if n == 0 {
        '0'
    } else if n == 1 {
        '1'
    } else if n == 2 {
        '2'
    } else if n == 3 {
        '3'
    } else if n == 4 {
        '4'
    } else if n == 5 {
        '5'
    } else if n == 6 {
        '6'
    } else if n == 7 {
        '7'
    } else if n == 8 {
        '8'
    } else {
        '9'
    }
}

/// An integer in decimal, with no leading zeros.
pub open spec fn digits(n: nat) -> Seq<char>
    decreases n,
{
    if n < 10 {
        seq![digit(n)]
    } else {
        digits(n / 10).push(digit(n % 10))
    }
}

/// The last `w` digits of an integer.
pub open spec fn last_digits(n: nat, w: nat) -> Seq<char>
    decreases w,
{
    if w == 0 {
        Seq::empty()
    } else {
        last_digits(n / 10, (w - 1) as nat).push(digit(n % 10))
    }
}

/// Ten to a power.
pub open spec fn ten_to(d: nat) -> nat
    decreases d,
{
    if d == 0 {
        1
    } else {
        10 * ten_to((d - 1) as nat)
    }
}

/// How many units of the last of `d` decimals a finite number has, its sign aside: to the
/// nearest, ties to even.
pub open spec fn last_units(x: Single, d: nat) -> nat {
    rounding::nearest(
        (single::magnitude_units(x.magnitude()) * ten_to(d)) as nat,
        pow2(149),
    )
}

/// A finite number with `d` decimals, its sign aside.
pub open spec fn unsigned_text(x: Single, d: nat) -> Seq<char> {
    let n = last_units(x, d);
    digits(n / ten_to(d)) + (if d == 0 {
        Seq::empty()
    } else {
        seq!['.'] + last_digits(n % ten_to(d), d)
    })
}

/// A number with `d` decimals.
pub open spec fn fixed_text(x: Single, d: nat) -> Seq<char> {
    if x.nan() {
        "NaN"@
    } else {
        (if x.negative() {
            "-"@
        } else {
            Seq::empty()
        }) + (if x.finite() {
            unsigned_text(x, d)
        } else {
            "inf"@
        })
    }
}

fn digit_str(n: u128) -> (s: &'static str)
    requires
        n < 10,
    ensures
        s@ == seq![digit(n as nat)],
{
    proof {
        reveal_strlit("0");
        reveal_strlit("1");
        reveal_strlit("2");
        reveal_strlit("3");
        reveal_strlit("4");
        reveal_strlit("5");
        reveal_strlit("6");
        reveal_strlit("7");
        reveal_strlit("8");
        reveal_strlit("9");
    }
    let s: &'static str = if n == 0 {
        "0"
    } else if n == 1 {
        "1"
    } else if n == 2 {
        "2"
    } else if n == 3 {
        "3"
    } else if n == 4 {
        "4"
    } else if n == 5 {
        "5"
    } else if n == 6 {
        "6"
    } else if n == 7 {
        "7"
    } else if n == 8 {
        "8"
    } else {
        "9"
    };
    assert(s@ =~= seq![digit(n as nat)]);
    s
}

fn push_digits(s: &mut String, n: u128)
    ensures
        final(s)@ == old(s)@ + digits(n as nat),
    decreases n,
{
    if n >= 10 {
        push_digits(s, n / 10);
    }
    s.append(digit_str(n % 10));
    assert(s@ =~= old(s)@ + digits(n as nat));
}

fn push_last_digits(s: &mut String, n: u128, w: usize)
    ensures
        final(s)@ == old(s)@ + last_digits(n as nat, w as nat),
    decreases w,
{
    if w > 0 {
        push_last_digits(s, n / 10, w - 1);
        s.append(digit_str(n % 10));
    }
    assert(s@ =~= old(s)@ + last_digits(n as nat, w as nat));
}

/// Scaling a quotient up and down at once does not change what it rounds to.
proof fn lemma_nearest_scaled(n: nat, d: nat, k: nat)
    requires
        d > 0,
        k > 0,
    ensures
        rounding::nearest(n * k, d * k) == rounding::nearest(n, d),
{
    let q = n / d;
    let r = n % d;
    vstd::arithmetic::div_mod::lemma_fundamental_div_mod(n as int, d as int);
    assert(n * k == q * (d * k) + r * k) by (nonlinear_arith)
        requires
            n == d * q + r,
    ;
    assert(0 <= r * k < d * k) by (nonlinear_arith)
        requires
            0 <= r < d,
            k > 0,
    ;
    vstd::arithmetic::div_mod::lemma_fundamental_div_mod_converse(
        (n * k) as int,
        (d * k) as int,
        q as int,
        (r * k) as int,
    );
    assert((2 * (r * k) > d * k) == (2 * r > d)) by (nonlinear_arith)
        requires
            k > 0,
    ;
    assert((2 * (r * k) == d * k) == (2 * r == d)) by (nonlinear_arith)
        requires
            k > 0,
    ;
}

/// The exact value of a finite number, taken apart.
proof fn lemma_units(x: Single)
    requires
        x.finite(),
    ensures
        x.mantissa() >= 0,
        1 <= x.exponent() <= 254,
        single::magnitude_units(x.magnitude()) == x.mantissa() * pow2(
            (x.exponent() - 1) as nat,
        ),
{
    lemma2_to64();
    let m = x.magnitude();
    if m < single::HIDDEN {
        assert(m * pow2(0) == m);
    }
}

/// The units of a number that is whole.
proof fn lemma_whole_units(x: Single, d: nat)
    requires
        x.finite(),
        x.exponent() >= 150,
    ensures
        last_units(x, d) == x.mantissa() * pow2((x.exponent() - 150) as nat) * ten_to(d),
{
    lemma_units(x);
    let up = (x.exponent() - 150) as nat;
    let m = x.mantissa() as nat;
    lemma_pow2_adds(up, 149);
    lemma_pow2_pos(149);
    let n = m * pow2(up) * ten_to(d);
    assert(m * pow2(up + 149) * ten_to(d) == n * pow2(149)) by (nonlinear_arith)
        requires
            pow2(up + 149) == pow2(up) * pow2(149),
            n == m * pow2(up) * ten_to(d),
    ;
    lemma_nearest_scaled(n, 1, pow2(149));
    assert(rounding::nearest(n, 1) == n);
}

/// The units of a number with a fraction.
proof fn lemma_part_units(x: Single, d: nat)
    requires
        x.finite(),
        x.exponent() < 150,
    ensures
        last_units(x, d) == rounding::nearest(
            (x.mantissa() * ten_to(d)) as nat,
            pow2((150 - x.exponent()) as nat),
        ),
{
    lemma_units(x);
    let down = (150 - x.exponent()) as nat;
    let k = (x.exponent() - 1) as nat;
    let m = x.mantissa() as nat;
    lemma_pow2_adds(down, k);
    lemma_pow2_pos(down);
    lemma_pow2_pos(k);
    assert(m * pow2(k) * ten_to(d) == (m * ten_to(d)) * pow2(k)) by (nonlinear_arith);
    lemma_nearest_scaled(m * ten_to(d), pow2(down), pow2(k));
}

/// Ten to a small power.
fn ten_power(d: usize) -> (n: u128)
    requires
        d <= 3,
    ensures
        n == ten_to(d as nat),
        1 <= n <= 1000,
{
    proof {
        reveal_with_fuel(ten_to, 5);
    }
    if d == 0 {
        1
    } else if d == 1 {
        10
    } else if d == 2 {
        100
    } else {
        1000
    }
}

/// A number doubled so many times.
fn doubled(m: u128, up: u32) -> (n: u128)
    requires
        m < 0x100_0000,
        up <= 104,
    ensures
        n == m * pow2(up as nat),
{
    let mut n: u128 = m;
    let mut i: u32 = 0;
    proof {
        lemma2_to64();
    }
    while i < up
        invariant
            i <= up <= 104,
            m < 0x100_0000,
            n == m * pow2(i as nat),
        decreases up - i,
    {
        proof {
            lemma_pow2_unfold((i + 1) as nat);
            lemma2_to64();
            lemma_pow2_adds(24, 104);
            lemma_pow2_adds(64, 64);
            if i + 1 < 104 {
                lemma_pow2_strictly_increases((i + 1) as nat, 104);
            }
            assert(m * pow2((i + 1) as nat) == 2 * (m * pow2(i as nat))) by (nonlinear_arith)
                requires
                    pow2((i + 1) as nat) == 2 * pow2(i as nat),
            ;
            assert(m * pow2((i + 1) as nat) <= 0xFF_FFFF * pow2(104)) by (nonlinear_arith)
                requires
                    m <= 0xFF_FFFF,
                    pow2((i + 1) as nat) <= pow2(104),
            ;
            assert(0xFF_FFFF * pow2(104) < pow2(128));
            assert(pow2(128) == u128::MAX + 1);
        }
        n = n * 2;
        i = i + 1;
    }
    n
}

/// A finite number's whole part and what is left of it in units of the last decimal, once
/// rounded to these.
fn rounded(x: Single, d: usize) -> (r: (u128, u128))
    requires
        x.finite(),
        d <= 3,
    ensures
        r.0 == last_units(x, d as nat) / ten_to(d as nat),
        r.1 == last_units(x, d as nat) % ten_to(d as nat),
{
    let p: Parts = x.take_apart();
    let ten: u128 = ten_power(d);
    proof {
        lemma2_to64();
    }
    if p.e >= 0 {
        let whole: u128 = doubled(p.m as u128, p.e as u32);
        proof {
            lemma_whole_units(x, d as nat);
            vstd::arithmetic::div_mod::lemma_div_multiples_vanish(whole as int, ten as int);
            vstd::arithmetic::div_mod::lemma_mod_multiples_basic(whole as int, ten as int);
            vstd::arithmetic::mul::lemma_mul_is_commutative(whole as int, ten as int);
        }
        (whole, 0)
    } else {
        let down: u32 = (-p.e) as u32;
        assert(p.m * ten <= 0x100_0000 * 1000) by (nonlinear_arith)
            requires
                0 <= p.m <= 0x100_0000,
                0 <= ten <= 1000,
        ;
        let n: u128 = (p.m as u128) * ten;
        proof {
            lemma_part_units(x, d as nat);
            lemma_pow2_pos(down as nat);
        }
        if down >= 64 {
            proof {
                if down > 64 {
                    lemma_pow2_strictly_increases(64, down as nat);
                }
                vstd::arithmetic::div_mod::lemma_small_mod(n as nat, pow2(down as nat));
                vstd::arithmetic::div_mod::lemma_basic_div(n as int, pow2(down as nat) as int);
                assert(last_units(x, d as nat) == 0);
            }
            return (0, 0);
        }
        let per: u128 = doubled(1, down);
        let q: u128 = n / per;
        let left: u128 = n % per;
        proof {
            lemma_pow2_strictly_increases(down as nat, 64);
            vstd::arithmetic::div_mod::lemma_mod_bound(n as int, per as int);
        }
        let units: u128 = if 2 * left > per || (2 * left == per && q % 2 == 1) {
            q + 1
        } else {
            q
        };
        (units / ten, units % ten)
    }
}

/// Writes a number with so many decimals.
pub fn fixed(x: Single, d: usize) -> (s: String)
    requires
        d <= 3,
    ensures
        s@ == fixed_text(x, d as nat),
{
    proof {
        reveal_strlit("");
        reveal_strlit(".");
    }
    if x.is_nan() {
        return String::from_str("NaN");
    }
    let mut s: String = if x.is_negative() {
        String::from_str("-")
    } else {
        String::from_str("")
    };
    let ghost sign = s@;
    assert(!x.negative() ==> sign =~= Seq::empty());
    if !x.is_finite() {
        s.append("inf");
        return s;
    }
    let (whole, left): (u128, u128) = rounded(x, d);
    push_digits(&mut s, whole);
    if d > 0 {
        s.append(".");
        push_last_digits(&mut s, left, d);
    }
    assert(s@ =~= sign + unsigned_text(x, d as nat));
    s
}

/// A value as the panel shows it, with its unit.
pub fn format_value(value: Single, unit: &str) -> (s: String)
    ensures
        s@ == fixed_text(value, ui::shown_decimals(value)) + (if unit@.len() == 0 {
            Seq::empty()
        } else {
            " "@ + unit@
        }),
{
    let text: String = fixed(value, decimals(value));
    if unit.is_empty() {
        assert(text@ + Seq::<char>::empty() =~= text@);
        text
    } else {
        let s: String = text.concat(" ").concat(unit);
        assert(s@ =~= fixed_text(value, ui::shown_decimals(value)) + (" "@ + unit@));
        s
    }
}

/// The gain reduction readout. The compressor reports a positive count of decibels
/// removed; the meter shows it as the negative number a level meter would, and nothing at
/// all rather than a rounded zero when it is not working.
pub fn gain_reduction_label(gr_db: Single) -> (s: String)
    ensures
        s@ == (if gr_db.below(of(0x3D4C_CCCD)) {
            "--"@
        } else {
            "-"@ + fixed_text(gr_db, 1) + " dB"@
        }),
{
    if !shows_reduction(gr_db) {
        String::from_str("--")
    } else {
        let text: String = fixed(gr_db, 1);
        String::from_str("-").concat(text.as_str()).concat(" dB")
    }
}

/// The number that some digits write.
pub open spec fn number(s: Seq<char>) -> nat
    decreases s.len(),
{
    if s.len() == 0 {
        0
    } else {
        10 * number(s.drop_last()) + digit_value(s.last())
    }
}

pub open spec fn digit_value(c: char) -> nat {
    choose|n: nat| n < 10 && #[trigger] digit(n) == c
}

proof fn lemma_digit_value(n: nat)
    requires
        n < 10,
    ensures
        digit_value(digit(n)) == n,
{
    assert(digit(n) == digit(n));
}

/// The digits of an integer read back as that integer, and do not begin with a zero.
pub proof fn law_digits_read_back(n: nat)
    ensures
        number(digits(n)) == n,
        digits(n).len() >= 1,
        n > 0 ==> digits(n)[0] != '0',
    decreases n,
{
    lemma_digit_value(n % 10);
    if n < 10 {
        assert(digits(n).drop_last() =~= Seq::empty());
        assert(number(Seq::empty()) == 0);
    } else {
        law_digits_read_back(n / 10);
        assert(digits(n).drop_last() =~= digits(n / 10));
    }
}

/// The last digits of an integer are as many as asked for, leading zeros included, and read
/// back as what they stand for.
pub proof fn law_last_digits_read_back(n: nat, w: nat)
    ensures
        last_digits(n, w).len() == w,
        number(last_digits(n, w)) == n % ten_to(w),
    decreases w,
{
    if w == 0 {
    } else {
        let less = (w - 1) as nat;
        let ten = ten_to(less);
        lemma_digit_value(n % 10);
        law_last_digits_read_back(n / 10, less);
        assert(last_digits(n, w).drop_last() =~= last_digits(n / 10, less));
        lemma_ten_to(less);
        vstd::arithmetic::div_mod::lemma_breakdown(n as int, 10, ten as int);
    }
}

proof fn lemma_ten_to(d: nat)
    ensures
        ten_to(d) >= 1,
    decreases d,
{
    if d > 0 {
        lemma_ten_to((d - 1) as nat);
    }
}

} // verus!
