//! ADSR envelope generators.
//!
//! The curves are exponential, because loudness perception is roughly
//! logarithmic: each stage aims at a target it will never reach and stops early
//! when it crosses the real threshold. The one-pole coefficients come from the
//! stage times; what the stages do with them is here.

use crate::bounds;
use crate::curve;
use crate::curve::{read, Curve};
use crate::params::of;
use crate::single;
use crate::single::Single;
use vstd::arithmetic::power2::*;
use vstd::prelude::*;

verus! {

/// Which segment of the envelope is running.
#[derive(Debug, Clone, Copy, PartialEq, Eq, Structural)]
pub enum EnvStage {
    /// Finished and silent. The voice owning this envelope can be reclaimed.
    Idle,
    Attack,
    Decay,
    /// Holding at the sustain level, waiting for note-off.
    Sustain,
    Release,
}

/// Envelope times in seconds, sustain as a level.
#[derive(Debug, Clone, Copy, PartialEq, Eq, Structural)]
pub struct AdsrSettings {
    pub attack: Single,
    pub decay: Single,
    /// Level held while the key is down, `0.0..=1.0`.
    pub sustain: Single,
    pub release: Single,
}

impl Default for EnvStage {
    fn default() -> (s: EnvStage)
        ensures
            s == EnvStage::Idle,
    {
        EnvStage::Idle
    }
}

impl Default for AdsrSettings {
    fn default() -> (s: AdsrSettings)
        ensures
            s.attack == of(0x3BA3_D70A),  // 5 ms
            s.decay == of(0x3E4C_CCCD),  // 0.2 s
            s.sustain == of(0x3F33_3333),  // 0.7
            s.release == of(0x3E99_999A),  // 0.3 s
    {
        AdsrSettings {
            attack: of(0x3BA3_D70A),
            decay: of(0x3E4C_CCCD),
            sustain: of(0x3F33_3333),
            release: of(0x3E99_999A),
        }
    }
}

/// One-pole coefficients of the three moving stages.
#[derive(Debug, Clone, Copy, PartialEq, Eq, Structural)]
pub struct AdsrCoefs {
    pub attack: Single,
    pub decay: Single,
    pub release: Single,
}

/// The coefficient of a stage that walks from 0 to `1 + overshoot` in `seconds`. One of
/// no length jumps to its target on the next sample.
pub open spec fn stage_coef<F: Fn(Curve, Single) -> Single>(
    f: F,
    seconds: Single,
    sample_rate: Single,
    overshoot: Single,
) -> Single {
    let samples = seconds.product(sample_rate);
    if samples.at_most(of(0)) {
        of(0)
    } else {
        curve::at(
            f,
            Curve::Exponential,
            curve::at(
                f,
                Curve::Logarithm,
                of(0x3F80_0000).sum(overshoot).quotient(overshoot),
            ).opposite().quotient(samples),
        )
    }
}

fn coef<F: Fn(Curve, Single) -> Single + Copy>(
    f: F,
    seconds: Single,
    sample_rate: Single,
    overshoot: Single,
) -> (c: Single)
    requires
        curve::gives_curves(f),
    ensures
        c == stage_coef(f, seconds, sample_rate, overshoot),
{
    let samples: Single = seconds.times(sample_rate);
    if samples.le(of(0)) {
        of(0)
    } else {
        let whole: Single = of(0x3F80_0000).plus(overshoot).over(overshoot);
        let exponent: Single = read(f, Curve::Logarithm, whole).negated().over(samples);
        read(f, Curve::Exponential, exponent)
    }
}

impl AdsrCoefs {
    /// The coefficients of an envelope's times: the attack aims at 1.3, so that it is
    /// near linear, and the falls a ten-thousandth past where they stop.
    pub open spec fn of_times<F: Fn(Curve, Single) -> Single>(
        f: F,
        settings: AdsrSettings,
        sample_rate: Single,
    ) -> AdsrCoefs {
        AdsrCoefs {
            attack: stage_coef(f, settings.attack, sample_rate, of(0x3E99_999A)),
            decay: stage_coef(f, settings.decay, sample_rate, of(0x38D1_B717)),
            release: stage_coef(f, settings.release, sample_rate, of(0x38D1_B717)),
        }
    }

    pub fn from_times<F: Fn(Curve, Single) -> Single + Copy>(
        f: F,
        settings: &AdsrSettings,
        sample_rate: Single,
    ) -> (c: AdsrCoefs)
        requires
            curve::gives_curves(f),
        ensures
            c == AdsrCoefs::of_times(f, *settings, sample_rate),
    {
        AdsrCoefs {
            attack: coef(f, settings.attack, sample_rate, of(0x3E99_999A)),
            decay: coef(f, settings.decay, sample_rate, of(0x38D1_B717)),
            release: coef(f, settings.release, sample_rate, of(0x38D1_B717)),
        }
    }
}

/// A single ADSR envelope generator.
#[derive(Debug, Clone, Copy, PartialEq, Eq, Structural)]
pub struct Adsr {
    pub stage: EnvStage,
    pub level: Single,
    pub settings: AdsrSettings,
    pub coefs: AdsrCoefs,
    pub attack_base: Single,
    pub decay_base: Single,
    pub release_base: Single,
}

/// What is left of a whole.
pub open spec fn rest(x: Single) -> Single {
    of(0x3F80_0000).difference(x)
}

impl Adsr {
    /// An envelope whose level is a level, and whose coefficients belong to its
    /// settings.
    pub open spec fn wf(self) -> bool {
        &&& bounds::in_unit(self.level)
        &&& bounds::in_unit(self.coefs.attack)
        &&& bounds::in_unit(self.coefs.decay)
        &&& bounds::in_unit(self.coefs.release)
        &&& !self.settings.sustain.nan()
        &&& self == self.with_settings(self.settings, self.coefs)
    }
}

impl Adsr {
    /// The level held while the key is down.
    pub open spec fn sustain(self) -> Single {
        self.settings.sustain.clamped(of(0), of(0x3F80_0000))
    }

    /// The envelope with other times. The stage and the level are untouched, so a
    /// knob turned in mid-note bends the curve rather than jumping it.
    pub open spec fn with_settings(self, settings: AdsrSettings, coefs: AdsrCoefs) -> Adsr {
        Adsr {
            stage: self.stage,
            level: self.level,
            settings,
            coefs,
            // 1.3, so that the attack is near linear.
            attack_base: of(0x3FA6_6666).product(rest(coefs.attack)),
            // A ten-thousandth below the sustain, and below silence.
            decay_base: settings.sustain.clamped(of(0), of(0x3F80_0000)).difference(
                of(0x38D1_B717),
            ).product(rest(coefs.decay)),
            release_base: of(0xB8D1_B717).product(rest(coefs.release)),
        }
    }

    /// The envelope one sample later.
    pub open spec fn advanced(self) -> Adsr {
        match self.stage {
            EnvStage::Idle => self,
            EnvStage::Attack => {
                let level = self.attack_base.sum(self.level.product(self.coefs.attack));
                if of(0x3F80_0000).at_most(level) {
                    Adsr { level: of(0x3F80_0000), stage: EnvStage::Decay, ..self }
                } else {
                    Adsr { level, ..self }
                }
            },
            EnvStage::Decay => {
                let level = self.decay_base.sum(self.level.product(self.coefs.decay));
                if level.at_most(self.sustain()) {
                    // With no sustain the note is over at the end of its decay,
                    // and the voice can be reused instead of holding silence.
                    Adsr {
                        level: self.sustain(),
                        stage: if self.sustain().at_most(of(0)) {
                            EnvStage::Idle
                        } else {
                            EnvStage::Sustain
                        },
                        ..self
                    }
                } else {
                    Adsr { level, ..self }
                }
            },
            // The sustain knob may move while the key is held.
            EnvStage::Sustain => Adsr { level: self.sustain(), ..self },
            EnvStage::Release => {
                let level = self.release_base.sum(self.level.product(self.coefs.release));
                if level.at_most(of(0)) {
                    Adsr { level: of(0), stage: EnvStage::Idle, ..self }
                } else {
                    Adsr { level, ..self }
                }
            },
        }
    }

    /// An envelope at rest, with the default times and the coefficients given.
    pub open spec fn fresh(self, coefs: AdsrCoefs) -> bool {
        &&& self.stage == EnvStage::Idle
        &&& self.level == of(0)
        &&& self == self.with_settings(self.settings, coefs)
        &&& self.settings.attack == of(0x3BA3_D70A)
        &&& self.settings.decay == of(0x3E4C_CCCD)
        &&& self.settings.sustain == of(0x3F33_3333)
        &&& self.settings.release == of(0x3E99_999A)
    }

    pub fn new(coefs: AdsrCoefs) -> (e: Adsr)
        ensures
            e.fresh(coefs),
            bounds::in_unit(coefs.attack) && bounds::in_unit(coefs.decay) && bounds::in_unit(
                coefs.release,
            ) ==> e.wf(),
    {
        let mut e: Adsr = Adsr {
            stage: EnvStage::Idle,
            level: of(0),
            settings: AdsrSettings::default(),
            coefs,
            attack_base: of(0),
            decay_base: of(0),
            release_base: of(0),
        };
        e.set_settings(AdsrSettings::default(), coefs);
        e
    }

    pub fn settings(&self) -> (s: AdsrSettings)
        ensures
            s == self.settings,
    {
        self.settings
    }

    /// Updates the envelope times. Safe to call every block.
    pub fn set_settings(&mut self, settings: AdsrSettings, coefs: AdsrCoefs)
        ensures
            *final(self) == old(self).with_settings(settings, coefs),
            bounds::in_unit(old(self).level) && bounds::in_unit(coefs.attack) && bounds::in_unit(
                coefs.decay,
            ) && bounds::in_unit(coefs.release) && !settings.sustain.nan() ==> final(self).wf(),
    {
        let one: Single = of(0x3F80_0000);
        self.settings = settings;
        self.coefs = coefs;
        self.attack_base = of(0x3FA6_6666).times(one.minus(coefs.attack));
        self.decay_base = settings.sustain.clamp(of(0), one).minus(of(0x38D1_B717)).times(
            one.minus(coefs.decay),
        );
        self.release_base = of(0xB8D1_B717).times(one.minus(coefs.release));
    }

    /// Starts the envelope.
    ///
    /// With `reset` the level goes back to zero first, which gives every note an
    /// identical percussive attack. Without, it is legato: the attack starts from
    /// wherever the envelope is.
    pub fn gate_on(&mut self, reset: bool)
        ensures
            *final(self) == (Adsr {
                stage: EnvStage::Attack,
                level: if reset {
                    of(0)
                } else {
                    old(self).level
                },
                ..*old(self)
            }),
            old(self).wf() ==> final(self).wf(),
    {
        if reset {
            self.level = of(0);
        }
        self.stage = EnvStage::Attack;
    }

    /// Releases the envelope. Ignored if already idle.
    pub fn gate_off(&mut self)
        ensures
            *final(self) == (Adsr {
                stage: if old(self).stage == EnvStage::Idle {
                    EnvStage::Idle
                } else {
                    EnvStage::Release
                },
                ..*old(self)
            }),
            old(self).wf() ==> final(self).wf(),
    {
        if self.stage != EnvStage::Idle {
            self.stage = EnvStage::Release;
        }
    }

    /// Cuts the envelope dead. Only for voice stealing, and even then after a
    /// fade: an instantaneous jump to zero is a click.
    pub fn hard_reset(&mut self)
        ensures
            *final(self) == (Adsr { stage: EnvStage::Idle, level: of(0), ..*old(self) }),
            old(self).wf() ==> final(self).wf(),
    {
        self.stage = EnvStage::Idle;
        self.level = of(0);
    }

    pub fn stage(&self) -> (s: EnvStage)
        ensures
            s == self.stage,
    {
        self.stage
    }

    pub fn level(&self) -> (x: Single)
        ensures
            x == self.level,
    {
        self.level
    }

    /// True while the envelope is producing sound.
    pub fn is_active(&self) -> (yes: bool)
        ensures
            yes == (self.stage != EnvStage::Idle),
    {
        self.stage != EnvStage::Idle
    }

    /// Advances one sample and returns the new level.
    pub fn next(&mut self) -> (level: Single)
        ensures
            *final(self) == old(self).advanced(),
            level == final(self).level,
            old(self).wf() ==> final(self).wf(),
    {
        proof {
            if self.wf() {
                law_level_never_leaves_unit_range(*self);
            }
        }
        let one: Single = of(0x3F80_0000);
        let zero: Single = of(0);
        match self.stage {
            EnvStage::Idle => {},
            EnvStage::Attack => {
                self.level = self.attack_base.plus(self.level.times(self.coefs.attack));
                if one.le(self.level) {
                    self.level = one;
                    self.stage = EnvStage::Decay;
                }
            },
            EnvStage::Decay => {
                self.level = self.decay_base.plus(self.level.times(self.coefs.decay));
                let sustain: Single = self.settings.sustain.clamp(zero, one);
                if self.level.le(sustain) {
                    self.level = sustain;
                    self.stage = if sustain.le(zero) {
                        EnvStage::Idle
                    } else {
                        EnvStage::Sustain
                    };
                }
            },
            EnvStage::Sustain => {
                self.level = self.settings.sustain.clamp(zero, one);
            },
            EnvStage::Release => {
                self.level = self.release_base.plus(self.level.times(self.coefs.release));
                if self.level.le(zero) {
                    self.level = zero;
                    self.stage = EnvStage::Idle;
                }
            },
        }
        self.level
    }
}

/// The stages come in order: from one sample to the next an envelope stays where
/// it is or goes one stage on, and never leaves idleness by itself.
pub proof fn law_stages_come_in_order(e: Adsr)
    ensures
        e.advanced().stage == e.stage || match e.stage {
            EnvStage::Attack => e.advanced().stage == EnvStage::Decay,
            EnvStage::Decay => e.advanced().stage == EnvStage::Sustain || e.advanced().stage
                == EnvStage::Idle,
            EnvStage::Release => e.advanced().stage == EnvStage::Idle,
            _ => false,
        },
{
}

/// An envelope that goes idle by itself is silent.
pub proof fn law_an_envelope_ends_in_silence(e: Adsr)
    requires
        e.stage != EnvStage::Idle,
        e.advanced().stage == EnvStage::Idle,
    ensures
        e.advanced().level.magnitude() == 0,
{
}

/// A decay to no sustain ends the note: it never holds silence.
pub proof fn law_zero_sustain_goes_idle_after_decay(e: Adsr)
    requires
        e.stage == EnvStage::Decay,
        e.settings.sustain.magnitude() == 0,
    ensures
        e.advanced().stage != EnvStage::Sustain,
{
}

/// The level never leaves the range from zero to one, however long the envelope
/// runs and through whatever stages: rounding carries it past neither end.
pub proof fn law_level_never_leaves_unit_range(e: Adsr)
    requires
        e.wf(),
    ensures
        e.advanced().wf(),
{
    let (zero, one, minus) = (of(0), of(0x3F80_0000), of(0xBF80_0000));
    bounds::lemma_unit();
    assert(bounds::in_unit(e.sustain()));
    match e.stage {
        EnvStage::Attack => lemma_attack(e),
        EnvStage::Decay => lemma_decay(e),
        EnvStage::Release => lemma_release(e),
        _ => {},
    }
}

proof fn lemma_attack(e: Adsr)
    requires
        e.wf(),
        e.stage == EnvStage::Attack,
    ensures
        bounds::in_unit(e.advanced().level),
{
    let (zero, one, aim) = (of(0), of(0x3F80_0000), of(0x3FA6_6666));
    let c = e.coefs.attack;
    bounds::lemma_unit();
    bounds::lemma_unit_rest(c);
    bounds::lemma_in_unit(rest(c));
    bounds::lemma_unit_product(e.level, c);
    let held = e.level.product(c);
    bounds::lemma_in_unit(held);
    single::law_order_is_numeric(zero, aim);
    let (u, v, w) = (aim.units(), rest(c).units(), pow2(149) as int);
    assert(0 <= u * v <= u * w && 0 * w == 0) by (nonlinear_arith)
        requires
            0 <= u,
            0 <= v <= w,
    ;
    bounds::lemma_product_bounds(aim, rest(c), zero);
    bounds::lemma_product_bounds(aim, rest(c), aim);
    let base = e.attack_base;
    assert(base == aim.product(rest(c)));
    single::law_order_is_numeric(zero, base);
    bounds::lemma_sum_bounds(base, held, zero);
}

proof fn lemma_decay(e: Adsr)
    requires
        e.wf(),
        e.stage == EnvStage::Decay,
    ensures
        bounds::in_unit(e.advanced().level),
{
    let (zero, one, minus, little) = (of(0), of(0x3F80_0000), of(0xBF80_0000), of(0x38D1_B717));
    let c = e.coefs.decay;
    let (s, r, base, held) = (e.sustain(), rest(c), e.decay_base, e.level.product(c));
    bounds::lemma_unit();
    bounds::lemma_unit_rest(c);
    bounds::lemma_in_unit(r);
    bounds::lemma_unit_product(e.level, c);
    bounds::lemma_in_unit(held);
    assert(bounds::in_unit(s));
    bounds::lemma_in_unit(s);
    // A little below the sustain: between minus one and one.
    let t = s.difference(little);
    bounds::lemma_opposite(little);
    single::law_order_is_numeric(zero, little);
    single::law_order_is_numeric(little, one);
    bounds::lemma_sum_bounds(s, little.opposite(), one);
    bounds::lemma_sum_bounds(s, little.opposite(), minus);
    single::law_order_is_numeric(minus, t);
    single::law_order_is_numeric(t, one);
    let (u, v, w) = (t.units(), r.units(), pow2(149) as int);
    assert(u * v <= v * w && u * v >= -w * w && -w * w == -(w * w)) by (nonlinear_arith)
        requires
            -w <= u <= w,
            0 <= v <= w,
    ;
    bounds::lemma_product_bounds(t, r, r);
    bounds::lemma_product_bounds(t, r, minus);
    assert(base == t.product(r));
    single::law_order_is_numeric(base, r);
    single::law_order_is_numeric(minus, base);
    bounds::lemma_unit_parts(c, held, base);
}

proof fn lemma_release(e: Adsr)
    requires
        e.wf(),
        e.stage == EnvStage::Release,
    ensures
        bounds::in_unit(e.advanced().level),
{
    let (zero, one, little) = (of(0), of(0x3F80_0000), of(0xB8D1_B717));
    let c = e.coefs.release;
    let (r, base, held) = (rest(c), e.release_base, e.level.product(c));
    bounds::lemma_unit();
    bounds::lemma_unit_rest(c);
    bounds::lemma_in_unit(r);
    bounds::lemma_unit_product(e.level, c);
    bounds::lemma_in_unit(held);
    single::law_order_is_numeric(little, zero);
    let (u, v, w) = (little.units(), r.units(), pow2(149) as int);
    assert(u * w <= u * v <= 0 && 0 * w == 0) by (nonlinear_arith)
        requires
            u <= 0,
            0 <= v <= w,
    ;
    bounds::lemma_product_bounds(little, r, zero);
    bounds::lemma_product_bounds(little, r, little);
    single::law_order_is_numeric(base, zero);
    bounds::lemma_sum_bounds(base, held, held);
    bounds::lemma_sum_bounds(base, held, one);
}

} // verus!
