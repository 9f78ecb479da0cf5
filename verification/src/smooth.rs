//! Smoothing for continuous parameters.

use crate::bounds;
use crate::curve;
use crate::curve::{smoothing_over, Curve};
use crate::params::of;
use crate::single;
use crate::single::Single;
use vstd::arithmetic::power2::*;
use vstd::prelude::*;

verus! {

/// A one-pole smoother for a continuous parameter.
///
/// Runs at control rate, once per block, not per sample: that is far above any
/// knob movement, and much cheaper.
#[derive(Debug, Clone, Copy, PartialEq, Eq, Structural)]
pub struct Smoothed {
    pub value: Single,
    pub target: Single,
    pub coef: Single,
}

/// How many steps a time constant in milliseconds takes.
pub open spec fn steps_in(time_ms: Single, control_rate: Single) -> Single {
    time_ms.quotient(of(0x447A_0000)).product(control_rate)
}

impl Smoothed {
    /// The smoother one step on: so much closer to its target, and on it once it
    /// is next to it, so that a parameter that should be zero really is.
    pub open spec fn advanced(self) -> Smoothed {
        let value = self.target.sum(self.value.difference(self.target).product(self.coef));
        Smoothed {
            value: if value.difference(self.target).size().below(of(0x33D6_BF95)) {
                self.target
            } else {
                value
            },
            ..self
        }
    }

    /// A smoother at rest on a value.
    pub fn new(initial: Single, coef: Single) -> (s: Smoothed)
        ensures
            s == (Smoothed { value: initial, target: initial, coef }),
    {
        Smoothed { value: initial, target: initial, coef }
    }

    /// How many control-rate steps a time constant takes, if it takes more than
    /// one; otherwise the smoother jumps, and its coefficient is zero.
    pub fn time_steps(time_ms: Single, control_rate: Single) -> (n: Option<Single>)
        ensures
            n == (if steps_in(time_ms, control_rate).at_most(of(0x3F80_0000)) {
                None
            } else {
                Some(steps_in(time_ms, control_rate))
            }),
    {
        let steps: Single = time_ms.over(of(0x447A_0000)).times(control_rate);
        if steps.le(of(0x3F80_0000)) {
            None
        } else {
            Some(steps)
        }
    }

    /// The coefficient of a time constant: zero, which jumps, for one of a step or
    /// less.
    pub open spec fn coef_for<F: Fn(Curve, Single) -> Single>(f: F, time_ms: Single, control_rate: Single) -> Single {
        if steps_in(time_ms, control_rate).at_most(of(0x3F80_0000)) {
            of(0)
        } else {
            curve::smoothing(f, steps_in(time_ms, control_rate))
        }
    }

    /// Sets the time constant, in milliseconds.
    pub fn set_time<F: Fn(Curve, Single) -> Single + Copy>(
        &mut self,
        time_ms: Single,
        control_rate: Single,
        f: F,
    )
        requires
            curve::gives_curves(f),
        ensures
            *final(self) == (Smoothed {
                coef: Smoothed::coef_for(f, time_ms, control_rate),
                ..*old(self)
            }),
    {
        self.coef = smoothing_over(f, Smoothed::time_steps(time_ms, control_rate));
    }

    pub fn set_target(&mut self, target: Single)
        ensures
            *final(self) == (Smoothed { target, ..*old(self) }),
    {
        self.target = target;
    }

    /// Jumps straight to a value with no ramp. For patch loads and voice starts,
    /// where there is no previous value worth gliding from.
    pub fn snap(&mut self, value: Single)
        ensures
            *final(self) == (Smoothed { value, target: value, ..*old(self) }),
    {
        self.value = value;
        self.target = value;
    }

    /// Jumps straight to wherever `set_target` last pointed.
    pub fn snap_to_target(&mut self)
        ensures
            *final(self) == (Smoothed { value: old(self).target, ..*old(self) }),
    {
        self.value = self.target;
    }

    pub fn value(&self) -> (x: Single)
        ensures
            x == self.value,
    {
        self.value
    }

    /// Advances one control-rate step.
    pub fn next(&mut self) -> (x: Single)
        ensures
            *final(self) == old(self).advanced(),
            x == final(self).value,
    {
        self.value = self.target.plus(self.value.minus(self.target).times(self.coef));
        if self.value.minus(self.target).abs().lt(of(0x33D6_BF95)) {
            self.value = self.target;
        }
        self.value
    }
}

/// A number between zero and one that moves part of the way to another stays between
/// them, rounding and all.
proof fn lemma_glide_stays_in_unit(value: Single, target: Single, coef: Single)
    requires
        bounds::in_unit(value),
        bounds::in_unit(target),
        bounds::in_unit(coef),
    ensures
        bounds::in_unit(target.sum(value.difference(target).product(coef))),
{
    let (zero, one) = (of(0), of(0x3F80_0000));
    bounds::lemma_unit();
    bounds::lemma_in_unit(value);
    bounds::lemma_in_unit(target);
    bounds::lemma_in_unit(coef);
    bounds::lemma_opposite(target);
    bounds::lemma_opposite(one);
    let d = value.difference(target);
    bounds::lemma_sum_bounds(value, target.opposite(), one);
    bounds::lemma_sum_bounds(value, target.opposite(), target.opposite());
    bounds::lemma_sum_bounds(value, target.opposite(), zero);
    assert(d.finite());
    bounds::lemma_sum_error(value, target.opposite());
    single::law_order_is_numeric(target.opposite(), d);
    single::law_order_is_numeric(d, zero);
    single::law_order_is_numeric(zero, d);
    let p = d.product(coef);
    let (v, c, w) = (d.units(), coef.units(), pow2(149) as int);
    assert((v >= 0 ==> 0 <= v * c <= v * w) && (v <= 0 ==> v * w <= v * c <= 0) && 0 * w == 0)
        by (nonlinear_arith)
        requires
            0 <= c <= w,
    ;
    bounds::lemma_product_bounds(d, coef, d);
    bounds::lemma_product_bounds(d, coef, zero);
    assert(p.finite());
    single::law_order_is_numeric(p, d);
    single::law_order_is_numeric(d, p);
    single::law_order_is_numeric(p, zero);
    single::law_order_is_numeric(zero, p);
    bounds::lemma_sum_bounds(target, p, zero);
    if v < 0 {
        bounds::lemma_sum_bounds(target, p, one);
    } else {
        lemma2_to64();
        lemma_pow2_adds(24, 125);
        bounds::lemma_within_one(target, p);
    }
}

/// A control between zero and one stays there on its way to any place between them,
/// however many steps it takes.
pub proof fn law_a_control_stays_in_range(s: Smoothed)
    requires
        bounds::in_unit(s.value),
        bounds::in_unit(s.target),
        bounds::in_unit(s.coef),
    ensures
        bounds::in_unit(s.advanced().value),
{
    lemma_glide_stays_in_unit(s.value, s.target, s.coef);
}

/// A coefficient lies between zero and one, whatever the control rate: the exponential is
/// asked for a number below zero.
pub proof fn law_a_coefficient_is_in_range<F: Fn(Curve, Single) -> Single>(
    f: F,
    time_ms: Single,
    control_rate: Single,
)
    requires
        curve::decays(f),
        of(0).below(time_ms.quotient(of(0x447A_0000))),
        time_ms.quotient(of(0x447A_0000)).finite(),
        of(0).at_most(control_rate),
    ensures
        bounds::in_unit(Smoothed::coef_for(f, time_ms, control_rate)),
{
    let (zero, one, back) = (of(0), of(0x3F80_0000), of(0xBF80_0000));
    let seconds = time_ms.quotient(of(0x447A_0000));
    let steps = steps_in(time_ms, control_rate);
    bounds::lemma_unit();
    if control_rate.finite() {
        bounds::lemma_product_bounds(seconds, control_rate, zero);
    } else {
        assert(!steps.nan()) by {
            reveal(Single::product);
        }
    }
    if !steps.at_most(one) {
        if steps.finite() {
            single::law_order_is_numeric(one, steps);
            let (v, w) = (steps.units(), pow2(149) as int);
            assert(-w * w <= 0 * v) by (nonlinear_arith);
            bounds::lemma_quotient_bounds(back, steps, zero);
        } else {
            reveal(Single::quotient);
        }
        assert(back.quotient(steps).at_most(zero));
    }
}

} // verus!
