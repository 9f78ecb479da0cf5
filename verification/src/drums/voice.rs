//! One pad's sound: a body tone that falls in pitch, and a click of noise.
//!
//! A drum is an event, not a note: it starts loud and stops by itself.

use crate::bounds;
use crate::curve;
use crate::curve::{read, Curve};
use crate::drums::pad::Pad;
use crate::note;
use crate::note::cents_to_ratio;
use crate::params::of;
use crate::rng;
use crate::rng::Rng;
use crate::single;
use crate::single::Single;
use vstd::arithmetic::power2::*;
use vstd::prelude::*;

verus! {

/// A one-shot exponential fall. It waits for no note-off: it starts at a level and
/// runs to silence on its own.
#[derive(Debug, Clone, Copy, PartialEq, Eq, Structural)]
pub struct Decay {
    pub value: Single,
    pub coef: Single,
}

impl Decay {
    /// One sample on. Below -100 dB it is silence, so that a finished voice is
    /// silent and stops feeding denormals into the mix.
    pub open spec fn fallen(self) -> Decay {
        let v = self.value.product(self.coef);
        Decay {
            value: if v.below(of(0x3727_C5AC)) {
                of(0)
            } else {
                v
            },
            ..self
        }
    }

    pub open spec fn active(self) -> bool {
        of(0).below(self.value)
    }

    pub open spec fn silent(self) -> Decay {
        Decay { value: of(0), ..self }
    }

    pub fn new() -> (d: Decay)
        ensures
            d == (Decay { value: of(0), coef: of(0) }),
    {
        Decay { value: of(0), coef: of(0) }
    }

    /// Restarts the fall. A strike during a ring simply replaces the old value.
    pub fn trigger(&mut self, level: Single, coef: Single)
        ensures
            *final(self) == (Decay { value: level, coef }),
    {
        self.coef = coef;
        self.value = level;
    }

    /// The current level, then falls.
    pub fn next(&mut self) -> (x: Single)
        ensures
            x == old(self).value,
            *final(self) == old(self).fallen(),
    {
        let out: Single = self.value;
        self.value = self.value.times(self.coef);
        if self.value.lt(of(0x3727_C5AC)) {
            self.value = of(0);
        }
        out
    }

    pub fn is_active(&self) -> (yes: bool)
        ensures
            yes == self.active(),
    {
        of(0).lt(self.value)
    }

    pub fn silence(&mut self)
        ensures
            *final(self) == old(self).silent(),
    {
        self.value = of(0);
    }
}

impl Default for Decay {
    fn default() -> (d: Decay)
        ensures
            d == (Decay { value: of(0), coef: of(0) }),
    {
        Decay::new()
    }
}

/// A sample rate that is at least one.
pub open spec fn usable_rate(sample_rate: Single) -> Single {
    sample_rate.larger(of(0x3F80_0000))
}

/// How many samples a fall takes, at least one, and never less than a millisecond.
pub open spec fn fall_time(seconds: Single, sample_rate: Single) -> Single {
    seconds.larger(of(0x3A83_126F)).product(sample_rate).larger(of(0x3F80_0000))
}

/// The coefficients of a voice's three envelopes.
#[derive(Debug, Clone, Copy, PartialEq, Eq, Structural)]
pub struct Falls {
    pub amp: Single,
    pub pitch: Single,
    pub click: Single,
}

/// One pad's worth of state. Monophonic: striking it while it rings restarts it.
#[derive(Debug, Clone)]
pub struct DrumVoice {
    pub sample_rate: Single,
    pub pad: Pad,
    pub rng: Rng,
    /// Where in its cycle the body is, in turns.
    pub phase: Single,
    pub hz: Single,
    /// Amplitude of the body tone.
    pub amp: Decay,
    /// Pitch envelope: the kick's downward thump.
    pub pitch: Decay,
    /// The short noise transient at the head of the hit.
    pub click: Decay,
}

impl DrumVoice {
    pub open spec fn wf(self) -> bool {
        self.rng.wf()
    }

    pub open spec fn active(self) -> bool {
        self.amp.active() || self.click.active()
    }

    pub open spec fn silenced(self) -> DrumVoice {
        DrumVoice {
            amp: self.amp.silent(),
            pitch: self.pitch.silent(),
            click: self.click.silent(),
            phase: of(0),
            ..self
        }
    }

    /// How far the body turns in one sample: it starts four times up, and stays below
    /// Nyquist.
    pub open spec fn step(self) -> Single {
        self.hz.product(
            of(0x3F80_0000).sum(self.pitch.value.product(of(0x4040_0000))),
        ).quotient(self.sample_rate).clamped(of(0), of(0x3EFA_E148))
    }

    /// The voice with its body turned by one sample.
    pub open spec fn turned(self) -> DrumVoice {
        let p = self.phase.sum(self.step());
        DrumVoice {
            phase: if of(0x3F80_0000).at_most(p) {
                p.difference(of(0x3F80_0000))
            } else {
                p
            },
            pitch: self.pitch.fallen(),
            ..self
        }
    }

    /// The sample, for the sine of the body.
    pub open spec fn sample(self, sine: Single) -> Single {
        sine.product(self.amp.value).sum(
            (Single {
                bits: rng::bipolar_bits((self.rng.next_word() >> 40) as int) as u32,
            }).product(self.click.value),
        )
    }

    /// The voice after a sample.
    pub open spec fn sounded(self) -> DrumVoice {
        DrumVoice {
            rng: self.rng.stepped(),
            amp: self.amp.fallen(),
            click: self.click.fallen(),
            ..self
        }
    }

    pub fn new(sample_rate: Single, seed: u64) -> (v: DrumVoice)
        ensures
            v.wf(),
            v.sample_rate == usable_rate(sample_rate),
            v.pad == Pad::Kick,
            v.rng.state() == (if seed == 0 {
                rng::SPARE_SEED
            } else {
                seed
            }),
            v.phase == of(0),
            v.hz == Pad::Kick.centre(),
            v.amp == (Decay { value: of(0), coef: of(0) }),
            v.pitch == v.amp,
            v.click == v.amp,
    {
        DrumVoice {
            sample_rate: sample_rate.max(of(0x3F80_0000)),
            pad: Pad::Kick,
            rng: Rng::new(seed),
            phase: of(0),
            hz: Pad::Kick.base_hz(),
            amp: Decay::new(),
            pitch: Decay::new(),
            click: Decay::new(),
        }
    }

    pub fn set_sample_rate(&mut self, sample_rate: Single)
        ensures
            *final(self) == (DrumVoice {
                sample_rate: usable_rate(sample_rate),
                ..old(self).silenced()
            }),
    {
        self.sample_rate = sample_rate.max(of(0x3F80_0000));
        self.silence();
    }

    /// How long the body of a pad rings, in seconds.
    pub fn ring(pad: Pad, decay_scale: Single) -> (x: Single)
        ensures
            x == pad.ring().product(decay_scale.clamped(of(0x3DCC_CCCD), of(0x4080_0000))),
    {
        pad.base_decay().times(decay_scale.clamp(of(0x3DCC_CCCD), of(0x4080_0000)))
    }

    /// How many samples a fall takes.
    pub fn fall_samples(&self, seconds: Single) -> (n: Single)
        ensures
            n == fall_time(seconds, self.sample_rate),
    {
        seconds.max(of(0x3A83_126F)).times(self.sample_rate).max(of(0x3F80_0000))
    }

    /// Fires the pad at a level, its pitch shifted by `ratio`.
    pub fn strike(&mut self, pad: Pad, gain: Single, ratio: Single, falls: Falls)
        ensures
            *final(self) == (DrumVoice {
                pad,
                hz: pad.centre().product(ratio),
                phase: of(0),
                amp: Decay { value: gain, coef: falls.amp },
                pitch: Decay { value: of(0x3F80_0000), coef: falls.pitch },
                click: Decay { value: gain.product(of(0x3F00_0000)), coef: falls.click },
                ..*old(self)
            }),
            of(0).below(gain) ==> final(self).active(),
    {
        self.pad = pad;
        self.hz = pad.base_hz().times(ratio);
        self.phase = of(0);
        self.amp.trigger(gain, falls.amp);
        self.pitch.trigger(of(0x3F80_0000), falls.pitch);
        self.click.trigger(gain.times(of(0x3F00_0000)), falls.click);
    }

    /// Turns the body by one sample, and gives the angle whose sine it needs; nothing
    /// while the voice is silent.
    pub fn turn(&mut self) -> (angle: Option<Single>)
        ensures
            !old(self).active() ==> angle is None && *final(self) == *old(self),
            old(self).active() ==> {
                &&& *final(self) == old(self).turned()
                &&& angle == Some(old(self).turned().phase.product(of(0x40C9_0FDB)))
            },
    {
        if !self.amp.is_active() && !self.click.is_active() {
            return None;
        }
        let one: Single = of(0x3F80_0000);
        let bend: Single = one.plus(self.pitch.next().times(of(0x4040_0000)));
        let step: Single = self.hz.times(bend).over(self.sample_rate).clamp(of(0), of(0x3EFA_E148));
        self.phase = self.phase.plus(step);
        if one.le(self.phase) {
            self.phase = self.phase.minus(one);
        }
        Some(self.phase.times(of(0x40C9_0FDB)))
    }

    /// The sample, for the sine of the body's angle.
    pub fn sound(&mut self, sine: Single) -> (x: Single)
        requires
            old(self).wf(),
        ensures
            final(self).wf(),
            x == old(self).sample(sine),
            *final(self) == old(self).sounded(),
    {
        let body: Single = sine.times(self.amp.next());
        let click: Single = self.rng.next_bipolar().times(self.click.next());
        body.plus(click)
    }

    pub fn is_silent(&self) -> (yes: bool)
        ensures
            yes == !self.active(),
    {
        !self.amp.is_active() && !self.click.is_active()
    }

    pub fn silence(&mut self)
        ensures
            *final(self) == old(self).silenced(),
    {
        self.amp.silence();
        self.pitch.silence();
        self.click.silence();
        self.phase = of(0);
    }
}

/// The coefficient of a fall by sixty decibels in so many seconds.
pub open spec fn fall_coef<F: Fn(Curve, Single) -> Single>(f: F, seconds: Single, sample_rate: Single) -> Single {
    curve::at(f, Curve::Exponential, of(0xC0DD_0C54).quotient(fall_time(seconds, sample_rate)))
}

impl DrumVoice {
    /// The voice just struck: tuned by semitones, its ring scaled.
    pub open spec fn struck<F: Fn(Curve, Single) -> Single>(
        self,
        f: F,
        pad: Pad,
        gain: Single,
        tune: Single,
        decay_scale: Single,
    ) -> DrumVoice {
        DrumVoice {
            pad,
            hz: pad.centre().product(note::ratio_of_cents(f, tune.product(of(0x42C8_0000)))),
            phase: of(0),
            amp: Decay {
                value: gain,
                coef: fall_coef(
                    f,
                    pad.ring().product(decay_scale.clamped(of(0x3DCC_CCCD), of(0x4080_0000))),
                    self.sample_rate,
                ),
            },
            pitch: Decay {
                value: of(0x3F80_0000),
                coef: fall_coef(f, of(0x3D4C_CCCD), self.sample_rate),
            },
            click: Decay {
                value: gain.product(of(0x3F00_0000)),
                coef: fall_coef(f, of(0x3B03_126F), self.sample_rate),
            },
            ..self
        }
    }

    fn fall<F: Fn(Curve, Single) -> Single + Copy>(&self, f: F, seconds: Single) -> (c: Single)
        requires
            curve::gives_curves(f),
        ensures
            c == fall_coef(f, seconds, self.sample_rate),
    {
        read(f, Curve::Exponential, of(0xC0DD_0C54).over(self.fall_samples(seconds)))
    }

    /// Strikes a pad: fifty milliseconds of pitch drop make it read as a drum rather
    /// than a note, and two of noise as a stick.
    pub fn hit<F: Fn(Curve, Single) -> Single + Copy>(
        &mut self,
        pad: Pad,
        gain: Single,
        tune: Single,
        decay_scale: Single,
        f: F,
    )
        requires
            curve::gives_curves(f),
        ensures
            *final(self) == old(self).struck(f, pad, gain, tune, decay_scale),
    {
        let ratio: Single = cents_to_ratio(tune.times(of(0x42C8_0000)), f);
        let falls: Falls = Falls {
            amp: self.fall(f, DrumVoice::ring(pad, decay_scale)),
            pitch: self.fall(f, of(0x3D4C_CCCD)),
            click: self.fall(f, of(0x3B03_126F)),
        };
        self.strike(pad, gain, ratio, falls);
    }

    /// One sample of the voice.
    pub open spec fn heard<F: Fn(Curve, Single) -> Single>(self, f: F) -> Single {
        if self.active() {
            self.turned().sample(
                curve::at(f, Curve::Sine, self.turned().phase.product(of(0x40C9_0FDB))),
            )
        } else {
            of(0)
        }
    }

    /// The voice one sample on.
    pub open spec fn moved(self) -> DrumVoice {
        if self.active() {
            self.turned().sounded()
        } else {
            self
        }
    }

    /// The voice so many samples on.
    pub open spec fn played(self, n: int) -> DrumVoice
        decreases n,
    {
        if n <= 0 {
            self
        } else {
            self.played(n - 1).moved()
        }
    }

    /// One sample; nothing from a silent voice.
    pub fn next<F: Fn(Curve, Single) -> Single + Copy>(&mut self, f: F) -> (x: Single)
        requires
            old(self).wf(),
            curve::gives_curves(f),
        ensures
            final(self).wf(),
            x == old(self).heard(f),
            *final(self) == old(self).moved(),
    {
        match self.turn() {
            Some(angle) => self.sound(read(f, Curve::Sine, angle)),
            None => of(0),
        }
    }
}

/// A drum only falls: its envelope never rises by itself, and stays a level.
pub proof fn law_a_drum_only_falls(d: Decay)
    requires
        d.value.finite(),
        of(0).at_most(d.value),
        bounds::in_unit(d.coef),
    ensures
        d.fallen().value.at_most(d.value),
        of(0).at_most(d.fallen().value),
        d.fallen().value.finite(),
{
    let zero = of(0);
    bounds::lemma_unit();
    bounds::lemma_in_unit(d.coef);
    single::law_order_is_numeric(zero, d.value);
    let (u, c, w) = (d.value.units(), d.coef.units(), pow2(149) as int);
    assert(0 <= u * c <= u * w && 0 * w == 0) by (nonlinear_arith)
        requires
            0 <= u,
            0 <= c <= w,
    ;
    bounds::lemma_product_bounds(d.value, d.coef, d.value);
    bounds::lemma_product_bounds(d.value, d.coef, zero);
}

/// A drum that is silent stays silent: nothing but a strike starts it.
pub proof fn law_a_silent_drum_stays_silent(v: DrumVoice)
    requires
        v.amp.value.magnitude() == 0,
        v.click.value.magnitude() == 0,
        v.amp.coef.finite(),
        v.click.coef.finite(),
    ensures
        !v.active(),
        !v.sounded().active(),
        !v.silenced().active(),
{
    bounds::lemma_product_with_zero(v.amp.coef, v.amp.value);
    bounds::lemma_product_with_zero(v.click.coef, v.click.value);
}

} // verus!
