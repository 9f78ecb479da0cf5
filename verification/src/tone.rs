//! The sound of a voice: two band-limited oscillators, a sub and noise, into a
//! filter, shaped by two envelopes.
//!
//! A block begins with the modulation routed and the cutoff opened; then each sample
//! glides, is tuned, and sounds.

use crate::curve;
use crate::curve::{read, smoothing_over, Curve};
use crate::env::{Adsr, AdsrCoefs, EnvStage};
use crate::filter::{Filter, Slope, Svf, SvfMode};
use crate::lfo::LfoTarget;
use crate::note;
use crate::note::{cents_to_ratio, midi_to_hz};
use crate::order::Order;
use crate::osc;
use crate::osc::{Oscillator, Waveform};
use crate::params::{of, Params};
use crate::single::Single;
use crate::voice;
use crate::voice::{StealFade, Voice};
use vstd::prelude::*;

verus! {

/// What the low-frequency oscillator does to a voice over a block.
#[derive(Debug, Clone, Copy, PartialEq, Eq, Structural)]
pub struct Modulation {
    /// Added to the cutoff, in octaves.
    pub cutoff: Single,
    /// Added to the pitch, in semitones.
    pub pitch: Single,
    /// Multiplies the level.
    pub amp: Single,
    pub pulse_width: Single,
}

/// The oscillator's value at a depth, over a span.
pub open spec fn swing(lfo: Single, depth: Single, span: Single) -> Single {
    lfo.product(depth).product(span)
}

impl Modulation {
    /// Only the selected target moves: four octaves, twelve semitones, the whole
    /// level, or most of the pulse width.
    pub open spec fn routed(target: LfoTarget, pulse_width: Single, lfo: Single, depth: Single) -> Modulation {
        Modulation {
            cutoff: if target == LfoTarget::Cutoff {
                swing(lfo, depth, of(0x4080_0000))
            } else {
                of(0)
            },
            pitch: if target == LfoTarget::Pitch {
                swing(lfo, depth, of(0x4140_0000))
            } else {
                of(0)
            },
            amp: if target == LfoTarget::Amplitude {
                of(0x3F80_0000).difference(
                    depth.product(of(0x3F00_0000).difference(of(0x3F00_0000).product(lfo))),
                )
            } else {
                of(0x3F80_0000)
            },
            pulse_width: if target == LfoTarget::PulseWidth {
                pulse_width.sum(swing(lfo, depth, of(0x3EE6_6666))).clamped(
                    of(0x3D4C_CCCD),
                    of(0x3F73_3333),
                )
            } else {
                pulse_width
            },
        }
    }

    pub fn route(p: &Params, lfo: Single, depth: Single) -> (m: Modulation)
        ensures
            m == Modulation::routed(p.lfo_target, p.pulse_width, lfo, depth),
    {
        let zero: Single = of(0);
        let one: Single = of(0x3F80_0000);
        let half: Single = of(0x3F00_0000);
        Modulation {
            cutoff: if p.lfo_target == LfoTarget::Cutoff {
                lfo.times(depth).times(of(0x4080_0000))
            } else {
                zero
            },
            pitch: if p.lfo_target == LfoTarget::Pitch {
                lfo.times(depth).times(of(0x4140_0000))
            } else {
                zero
            },
            amp: if p.lfo_target == LfoTarget::Amplitude {
                one.minus(depth.times(half.minus(half.times(lfo))))
            } else {
                one
            },
            pulse_width: if p.lfo_target == LfoTarget::PulseWidth {
                p.pulse_width.plus(lfo.times(depth).times(of(0x3EE6_6666))).clamp(
                    of(0x3D4C_CCCD),
                    of(0x3F73_3333),
                )
            } else {
                p.pulse_width
            },
        }
    }
}

/// How far along a voice on its way out is.
#[derive(Debug, Clone, Copy, PartialEq, Eq, Structural)]
pub struct Fade {
    pub gain: Single,
    pub step: Single,
}

/// The sines of the three oscillators that have a phase.
#[derive(Debug, Clone, Copy, PartialEq, Eq, Structural)]
pub struct Sines {
    pub osc1: Single,
    pub osc2: Single,
    pub sub: Single,
}

/// The sound of one voice.
#[derive(Debug, Clone)]
pub struct Tone {
    pub sample_rate: Single,
    pub note: u8,
    pub velocity: Single,
    pub osc1: Oscillator,
    pub osc2: Oscillator,
    pub sub: Oscillator,
    pub noise: Oscillator,
    pub filter: Filter,
    pub amp_env: Adsr,
    pub filter_env: Adsr,
    /// Current pitch in semitones, which may be between notes while gliding.
    pub pitch: Single,
    /// Where the glide is heading.
    pub target_pitch: Single,
    /// Per-sample coefficient of the glide. Zero means none.
    pub glide_coef: Single,
    /// Set while fading out to make room for another note.
    pub fade: Option<Fade>,
}

/// An oscillator's sample at a level, added to a mix; a silent one is not run.
pub open spec fn mixed(mix: Single, o: Oscillator, wave: Waveform, sine: Single, level: Single) -> Single {
    if of(0).below(level) {
        mix.sum(o.sample(wave, sine).product(level))
    } else {
        mix
    }
}

/// An oscillator after that sample.
pub open spec fn run(o: Oscillator, wave: Waveform, level: Single) -> Oscillator {
    if of(0).below(level) {
        o.after(wave)
    } else {
        o
    }
}

fn mix_in(mix: Single, o: &mut Oscillator, wave: Waveform, sine: Single, level: Single) -> (x: Single)
    requires
        old(o).wf(),
    ensures
        final(o).wf(),
        x == mixed(mix, *old(o), wave, sine, level),
        *final(o) == run(*old(o), wave, level),
{
    if of(0).lt(level) {
        mix.plus(o.next(wave, sine).times(level))
    } else {
        mix
    }
}

/// An envelope cut dead.
pub open spec fn cut_env(e: Adsr) -> Adsr {
    Adsr { stage: EnvStage::Idle, level: of(0), ..e }
}

/// An envelope started.
pub open spec fn started_env(e: Adsr, reset: bool) -> Adsr {
    Adsr {
        stage: EnvStage::Attack,
        level: if reset {
            of(0)
        } else {
            e.level
        },
        ..e
    }
}

/// An envelope let go.
pub open spec fn released_env(e: Adsr) -> Adsr {
    Adsr {
        stage: if e.stage == EnvStage::Idle {
            EnvStage::Idle
        } else {
            EnvStage::Release
        },
        ..e
    }
}

/// A filter with its memory wiped.
pub open spec fn wiped(f: Filter) -> Filter {
    Filter {
        stage1: Svf { ic1eq: of(0), ic2eq: of(0), ..f.stage1 },
        stage2: Svf { ic1eq: of(0), ic2eq: of(0), ..f.stage2 },
        ..f
    }
}

impl Tone {
    pub open spec fn wf(self) -> bool {
        &&& self.osc1.wf() && self.osc2.wf() && self.sub.wf() && self.noise.wf()
        &&& of(0).at_most(osc::ceiling(self.osc1.sample_rate))
        &&& of(0).at_most(osc::ceiling(self.osc2.sample_rate))
        &&& of(0).at_most(osc::ceiling(self.sub.sample_rate))
    }

    /// A note started. With `reset` the oscillators start at scattered phases, so
    /// that a chord's attack does not sum into a click, and the filter is wiped.
    pub open spec fn started(self, note: u8, velocity: Single, from: Option<Single>, reset: bool) -> Tone {
        Tone {
            note,
            velocity: voice::unit_velocity(velocity),
            target_pitch: Single::nearest_to(note as int),
            pitch: match from {
                Some(f) => f,
                None => Single::nearest_to(note as int),
            },
            osc1: if reset {
                self.osc1.rewound()
            } else {
                self.osc1
            },
            osc2: if reset {
                self.osc2.placed(of(0x3EBD_70A4))
            } else {
                self.osc2
            },
            sub: if reset {
                self.sub.placed(of(0x3DE1_47AE))
            } else {
                self.sub
            },
            filter: if reset {
                wiped(self.filter)
            } else {
                self.filter
            },
            amp_env: started_env(self.amp_env, reset),
            filter_env: started_env(self.filter_env, reset),
            ..self
        }
    }

    /// The sound cut dead.
    pub open spec fn cut_off(self) -> Tone {
        Tone {
            amp_env: cut_env(self.amp_env),
            filter_env: cut_env(self.filter_env),
            filter: wiped(self.filter),
            fade: None,
            ..self
        }
    }

    /// The pitch one sample on. In semitones, so that the slide is even in pitch.
    pub open spec fn slid(self) -> Single {
        if of(0).below(self.glide_coef) {
            self.target_pitch.sum(
                self.pitch.difference(self.target_pitch).product(self.glide_coef),
            )
        } else {
            self.target_pitch
        }
    }

    /// The four sources, mixed.
    pub open spec fn mix(self, p: Params, sines: Sines) -> Single {
        mixed(
            mixed(
                mixed(
                    mixed(of(0), self.osc1, p.osc1_wave, sines.osc1, p.osc1_level),
                    self.osc2,
                    p.osc2_wave,
                    sines.osc2,
                    p.osc2_level,
                ),
                self.sub,
                Waveform::Pulse,
                sines.sub,
                p.sub_level,
            ),
            self.noise,
            Waveform::Noise,
            of(0),
            p.noise_level,
        )
    }

    /// The sample before any fade.
    pub open spec fn raw(self, p: Params, sines: Sines, amp: Single) -> Single {
        self.filter.passed(self.mix(p, sines)).product(
            self.amp_env.advanced().level.product(self.velocity).product(amp),
        )
    }

    /// The fade one sample on.
    pub open spec fn faded(self) -> Option<Fade> {
        match self.fade {
            Some(f) => Some(Fade { gain: f.gain.difference(f.step), ..f }),
            None => None,
        }
    }

    /// Whether the fade ends with this sample.
    pub open spec fn fade_ends(self) -> bool {
        self.faded() matches Some(f) && f.gain.at_most(of(0))
    }

    /// The sample.
    pub open spec fn sample(self, p: Params, sines: Sines, amp: Single) -> Single {
        match self.faded() {
            None => self.raw(p, sines, amp),
            Some(f) => if f.gain.at_most(of(0)) {
                of(0)
            } else {
                self.raw(p, sines, amp).product(f.gain)
            },
        }
    }

    /// The sound after a sample.
    pub open spec fn after(self, p: Params, sines: Sines) -> Tone {
        Tone {
            osc1: run(self.osc1, p.osc1_wave, p.osc1_level),
            osc2: run(self.osc2, p.osc2_wave, p.osc2_level),
            sub: run(self.sub, Waveform::Pulse, p.sub_level),
            noise: run(self.noise, Waveform::Noise, p.noise_level),
            filter_env: self.filter_env.advanced(),
            amp_env: self.amp_env.advanced(),
            filter: self.filter.after(self.mix(p, sines)),
            fade: self.faded(),
            ..self
        }
    }

    /// A voice that has played nothing yet, its filter aside.
    pub open spec fn fresh(self, sample_rate: Single, seed: u64, coefs: AdsrCoefs) -> bool {
        &&& self.sample_rate == sample_rate
        &&& self.osc1.fresh(sample_rate, (seed * 4 + 1) as u64)
        &&& self.osc2.fresh(sample_rate, (seed * 4 + 2) as u64)
        &&& self.sub.fresh(sample_rate, (seed * 4 + 3) as u64)
        &&& self.noise.fresh(sample_rate, (seed * 4 + 4) as u64)
        &&& self.note == 60
        &&& self.velocity == of(0)
        &&& self.amp_env.fresh(coefs)
        &&& self.filter_env == self.amp_env
        &&& self.pitch == of(0x4270_0000)
        &&& self.target_pitch == self.pitch
        &&& self.glide_coef == of(0)
        &&& self.fade is None
    }

    /// A silent voice. Each source has its own seed: correlated noise across voices
    /// would sum into something tonal.
    pub fn new(sample_rate: Single, seed: u64, coefs: AdsrCoefs, g: Single) -> (t: Tone)
        requires
            seed < 0x1000_0000_0000_0000,
            of(0).at_most(osc::ceiling(sample_rate)),
        ensures
            t.wf(),
            t.fresh(sample_rate, seed, coefs),
            t.filter.fresh(sample_rate, g, SvfMode::Lowpass, Slope::Db12),
    {
        let env: Adsr = Adsr::new(coefs);
        Tone {
            sample_rate,
            note: 60,
            velocity: of(0),
            osc1: Oscillator::new(sample_rate, seed * 4 + 1),
            osc2: Oscillator::new(sample_rate, seed * 4 + 2),
            sub: Oscillator::new(sample_rate, seed * 4 + 3),
            noise: Oscillator::new(sample_rate, seed * 4 + 4),
            filter: Filter::new(sample_rate, g),
            amp_env: env,
            filter_env: env,
            pitch: of(0x4270_0000),
            target_pitch: of(0x4270_0000),
            glide_coef: of(0),
            fade: None,
        }
    }

    /// The voice at another sample rate.
    pub open spec fn at_rate(self, sample_rate: Single) -> Tone {
        Tone {
            sample_rate,
            osc1: Oscillator { sample_rate, ..self.osc1 },
            osc2: Oscillator { sample_rate, ..self.osc2 },
            sub: Oscillator { sample_rate, ..self.sub },
            noise: Oscillator { sample_rate, ..self.noise },
            filter: Filter {
                stage1: Svf { sample_rate, ..self.filter.stage1 },
                stage2: Svf { sample_rate, ..self.filter.stage2 },
                ..self.filter
            },
            ..self
        }
    }

    pub fn set_sample_rate(&mut self, sample_rate: Single)
        requires
            of(0).at_most(osc::ceiling(sample_rate)),
        ensures
            *final(self) == old(self).at_rate(sample_rate),
            old(self).wf() ==> final(self).wf(),
    {
        self.sample_rate = sample_rate;
        self.osc1.set_sample_rate(sample_rate);
        self.osc2.set_sample_rate(sample_rate);
        self.sub.set_sample_rate(sample_rate);
        self.noise.set_sample_rate(sample_rate);
        self.filter.set_sample_rate(sample_rate);
    }

    /// Whether anything sounds, a release or a fade included.
    pub fn is_active(&self) -> (yes: bool)
        ensures
            yes == (self.amp_env.stage != EnvStage::Idle || self.fade is Some),
    {
        self.amp_env.is_active() || self.fade.is_some()
    }

    /// Starts a note, gliding from a pitch if one is given.
    pub fn start(&mut self, note: u8, velocity: Single, from: Option<Single>, reset: bool)
        ensures
            *final(self) == old(self).started(note, velocity, from, reset),
            old(self).wf() ==> final(self).wf(),
    {
        self.note = note;
        self.velocity = velocity.clamp(of(0), of(0x3F80_0000));
        self.target_pitch = Single::from_whole(note as u64);
        self.pitch = match from {
            Some(f) => f,
            None => self.target_pitch,
        };
        if reset {
            self.osc1.reset_phase();
            self.osc2.set_phase(of(0x3EBD_70A4));
            self.sub.set_phase(of(0x3DE1_47AE));
            self.filter.reset();
        }
        self.amp_env.gate_on(reset);
        self.filter_env.gate_on(reset);
    }

    /// Lets the key go. The voice keeps sounding through its release.
    pub fn release(&mut self)
        ensures
            *final(self) == old(self).released(),
            old(self).wf() ==> final(self).wf(),
    {
        self.amp_env.gate_off();
        self.filter_env.gate_off();
    }

    /// Cuts the sound dead. Clicks; only for panics.
    pub fn cut(&mut self)
        ensures
            *final(self) == old(self).cut_off(),
            old(self).wf() ==> final(self).wf(),
    {
        self.amp_env.hard_reset();
        self.filter_env.hard_reset();
        self.filter.reset();
        self.fade = None;
    }

    /// Starts fading out, over two milliseconds: the cut is inaudible, and the new
    /// note not perceptibly late.
    pub fn fade_out(&mut self)
        ensures
            *final(self) == old(self).fading(),
            old(self).wf() ==> final(self).wf(),
    {
        let one: Single = of(0x3F80_0000);
        let samples: Single = of(0x3B03_126F).times(self.sample_rate).max(one);
        self.fade = Some(Fade { gain: one, step: one.over(samples) });
    }

    /// Retunes the sounding voice, gliding to the new note.
    pub fn set_target_note(&mut self, note: u8)
        ensures
            *final(self) == (Tone {
                note,
                target_pitch: Single::nearest_to(note as int),
                ..*old(self)
            }),
            old(self).wf() ==> final(self).wf(),
    {
        self.note = note;
        self.target_pitch = Single::from_whole(note as u64);
    }

    /// How many samples a glide takes, or nothing if the pitch jumps.
    pub fn glide_samples(&self, seconds: Single) -> (n: Option<Single>)
        ensures
            n == (if seconds.at_most(of(0x38D1_B717)) {
                None
            } else {
                Some(seconds.product(self.sample_rate))
            }),
    {
        if seconds.le(of(0x38D1_B717)) {
            None
        } else {
            Some(seconds.times(self.sample_rate))
        }
    }

    /// Before a block: the envelopes' times, the glide, the filter's kind, and the
    /// pulse widths. Gives the opening of the cutoff in octaves.
    ///
    /// Octaves rather than Hz: one octave means the same to the ear at 200 Hz as at
    /// 4 kHz.
    pub fn begin_block(
        &mut self,
        p: &Params,
        m: &Modulation,
        amp: AdsrCoefs,
        sweep: AdsrCoefs,
        glide_coef: Single,
    ) -> (octaves: Single)
        ensures
            *final(self) == (Tone {
                amp_env: old(self).amp_env.with_settings(p.amp_env, amp),
                filter_env: old(self).filter_env.with_settings(p.filter_env, sweep),
                glide_coef,
                filter: Filter {
                    mode: p.filter_mode,
                    slope: p.filter_slope,
                    ..old(self).filter
                },
                osc1: old(self).osc1.pulsed(m.pulse_width),
                osc2: old(self).osc2.pulsed(m.pulse_width),
                sub: old(self).sub.pulsed(of(0x3F00_0000)),
                ..*old(self)
            }),
            octaves == p.filter_env_amount.product(old(self).filter_env.level).sum(
                p.filter_key_track.product(
                    Single::nearest_to(old(self).note as int).difference(
                        of(0x4270_0000),
                    ).quotient(of(0x4140_0000)),
                ),
            ).sum(
                p.filter_velocity.product(old(self).velocity).product(of(0x4000_0000)),
            ).sum(m.cutoff),
            old(self).wf() ==> final(self).wf(),
    {
        self.amp_env.set_settings(p.amp_env, amp);
        self.filter_env.set_settings(p.filter_env, sweep);
        self.glide_coef = glide_coef;
        self.filter.mode = p.filter_mode;
        self.filter.slope = p.filter_slope;
        self.osc1.set_pulse_width(m.pulse_width);
        self.osc2.set_pulse_width(m.pulse_width);
        self.sub.set_pulse_width(of(0x3F00_0000));
        let env: Single = self.filter_env.level();
        let key: Single = Single::from_whole(self.note as u64).minus(of(0x4270_0000)).over(
            of(0x4140_0000),
        );
        p.filter_env_amount.times(env).plus(p.filter_key_track.times(key)).plus(
            p.filter_velocity.times(self.velocity).times(of(0x4000_0000)),
        ).plus(m.cutoff)
    }

    /// The cutoff, for the power of two of the opening.
    pub fn cutoff(p: &Params, ratio: Single) -> (hz: Single)
        ensures
            hz == p.cutoff.product(ratio).clamped(of(0x41A0_0000), of(0x469C_4000)),
    {
        p.cutoff.times(ratio).clamp(of(0x41A0_0000), of(0x469C_4000))
    }

    /// Glides for one sample, and gives the pitch to play, in semitones.
    pub fn glide(&mut self, offset: Single) -> (pitch: Single)
        ensures
            *final(self) == (Tone { pitch: old(self).slid(), ..*old(self) }),
            pitch == old(self).slid().sum(offset),
            old(self).wf() ==> final(self).wf(),
    {
        self.pitch = if of(0).lt(self.glide_coef) {
            self.target_pitch.plus(self.pitch.minus(self.target_pitch).times(self.glide_coef))
        } else {
            self.target_pitch
        };
        self.pitch.plus(offset)
    }

    /// Tunes the three oscillators that have a pitch.
    pub fn tune(&mut self, hz1: Single, hz2: Single, hz_sub: Single)
        requires
            old(self).wf(),
        ensures
            final(self).wf(),
            *final(self) == (Tone {
                osc1: old(self).osc1.tuned(hz1),
                osc2: old(self).osc2.tuned(hz2),
                sub: old(self).sub.tuned(hz_sub),
                ..*old(self)
            }),
    {
        self.osc1.set_freq(hz1);
        self.osc2.set_freq(hz2);
        self.sub.set_freq(hz_sub);
    }

    /// One sample, and whether a fade ended with it. The rest of that block is the new
    /// note's, which starts from silence anyway.
    pub fn sound(&mut self, p: &Params, sines: Sines, amp: Single) -> (r: (Single, bool))
        requires
            old(self).wf(),
        ensures
            final(self).wf(),
            r.0 == old(self).sample(*p, sines, amp),
            r.1 == old(self).fade_ends(),
            *final(self) == old(self).after(*p, sines),
    {
        let mut mix: Single = of(0);
        mix = mix_in(mix, &mut self.osc1, p.osc1_wave, sines.osc1, p.osc1_level);
        mix = mix_in(mix, &mut self.osc2, p.osc2_wave, sines.osc2, p.osc2_level);
        mix = mix_in(mix, &mut self.sub, Waveform::Pulse, sines.sub, p.sub_level);
        mix = mix_in(mix, &mut self.noise, Waveform::Noise, of(0), p.noise_level);
        // The filter envelope runs per sample though its effect is applied per block:
        // it must stay in step with the other.
        let _sweep: Single = self.filter_env.next();
        let filtered: Single = self.filter.process(mix);
        let level: Single = self.amp_env.next().times(self.velocity).times(amp);
        let value: Single = filtered.times(level);
        match self.fade {
            None => (value, false),
            Some(f) => {
                let gain: Single = f.gain.minus(f.step);
                self.fade = Some(Fade { gain, step: f.step });
                if gain.le(of(0)) {
                    (of(0), true)
                } else {
                    (value.times(gain), false)
                }
            },
        }
    }
}

impl Tone {
    /// Whether anything sounds.
    pub open spec fn active(self) -> bool {
        self.amp_env.stage != EnvStage::Idle || self.fade is Some
    }

    /// The opening of the cutoff over a block, in octaves.
    pub open spec fn opening(self, p: Params, m: Modulation) -> Single {
        p.filter_env_amount.product(self.filter_env.level).sum(
            p.filter_key_track.product(
                Single::nearest_to(self.note as int).difference(of(0x4270_0000)).quotient(
                    of(0x4140_0000),
                ),
            ),
        ).sum(p.filter_velocity.product(self.velocity).product(of(0x4000_0000))).sum(m.cutoff)
    }

    /// The voice ready for a block: its envelopes' times, its glide, its pulse widths,
    /// and its filter at the cutoff that the block opens it to.
    pub open spec fn readied<F: Fn(Curve, Single) -> Single>(self, f: F, p: Params, m: Modulation) -> Tone {
        Tone {
            amp_env: self.amp_env.with_settings(
                p.amp_env,
                AdsrCoefs::of_times(f, p.amp_env, self.sample_rate),
            ),
            filter_env: self.filter_env.with_settings(
                p.filter_env,
                AdsrCoefs::of_times(f, p.filter_env, self.sample_rate),
            ),
            glide_coef: if p.glide.at_most(of(0x38D1_B717)) {
                of(0)
            } else {
                curve::smoothing(f, p.glide.product(self.sample_rate))
            },
            filter: (Filter {
                mode: p.filter_mode,
                slope: p.filter_slope,
                ..self.filter
            }).at_cutoff(
                f,
                p.cutoff.product(curve::at(f, Curve::TwoTo, self.opening(p, m))).clamped(
                    of(0x41A0_0000),
                    of(0x469C_4000),
                ),
                p.resonance,
            ),
            osc1: self.osc1.pulsed(m.pulse_width),
            osc2: self.osc2.pulsed(m.pulse_width),
            sub: self.sub.pulsed(of(0x3F00_0000)),
            ..self
        }
    }

    /// The voice glided and tuned for one sample. Pitch bend and vibrato add up in
    /// semitones; the sub plays an octave down.
    pub open spec fn pitched<F: Fn(Curve, Single) -> Single>(self, f: F, p: Params, m: Modulation) -> Tone {
        let base = self.slid().sum(p.pitch_bend.sum(m.pitch));
        Tone {
            pitch: self.slid(),
            osc1: self.osc1.tuned(
                note::frequency(f, base.sum(p.osc1_semitones)).product(
                    note::ratio_of_cents(f, p.osc1_detune),
                ),
            ),
            osc2: self.osc2.tuned(
                note::frequency(f, base.sum(p.osc2_semitones)).product(
                    note::ratio_of_cents(f, p.osc2_detune),
                ),
            ),
            sub: self.sub.tuned(note::frequency(f, base.difference(of(0x4140_0000)))),
            ..self
        }
    }

    /// The sines of the oscillators that play one.
    pub open spec fn sines<F: Fn(Curve, Single) -> Single>(self, f: F, p: Params) -> Sines {
        Sines {
            osc1: sine_for(f, self.osc1, p.osc1_wave),
            osc2: sine_for(f, self.osc2, p.osc2_wave),
            sub: of(0),
        }
    }

    /// One sample of the voice.
    pub open spec fn heard<F: Fn(Curve, Single) -> Single>(self, f: F, p: Params, m: Modulation) -> Single {
        let t = self.pitched(f, p, m);
        t.sample(p, t.sines(f, p), m.amp)
    }
}

/// The sine at an oscillator's phase, where its waveform is one.
pub open spec fn sine_for<F: Fn(Curve, Single) -> Single>(f: F, o: Oscillator, wave: Waveform) -> Single {
    if wave == Waveform::Sine {
        curve::at(f, Curve::Sine, o.phase.product(of(0x40C9_0FDB)))
    } else {
        of(0)
    }
}

fn sine_of<F: Fn(Curve, Single) -> Single + Copy>(f: F, o: &Oscillator, wave: Waveform) -> (x: Single)
    requires
        curve::gives_curves(f),
    ensures
        x == sine_for(f, *o, wave),
{
    if wave == Waveform::Sine {
        read(f, Curve::Sine, o.angle())
    } else {
        of(0)
    }
}

/// A voice and what the allocator knows of it, one sample on. Where a fade ends, the
/// voice is cut and the waiting note starts.
pub open spec fn moved<F: Fn(Curve, Single) -> Single>(f: F, t: Tone, v: Voice, p: Params, m: Modulation) -> (
    Tone,
    Voice,
) {
    let ready = t.pitched(f, p, m);
    let after = ready.after(p, ready.sines(f, p));
    if ready.fade_ends() {
        match v.steal_fade {
            Some(n) => (after.cut_off().started(n.note, n.velocity, None, true), v.faded()),
            None => (after.cut_off(), v),
        }
    } else {
        (after, v)
    }
}

/// A voice and what the allocator knows of it, so many samples on.
pub open spec fn played<F: Fn(Curve, Single) -> Single>(
    f: F,
    t: Tone,
    v: Voice,
    p: Params,
    m: Modulation,
    n: int,
) -> (Tone, Voice)
    decreases n,
{
    if n <= 0 {
        (t, v)
    } else {
        let (t1, v1) = played(f, t, v, p, m, n - 1);
        moved(f, t1, v1, p, m)
    }
}

/// A block with a voice's samples added to it.
pub open spec fn voiced<F: Fn(Curve, Single) -> Single>(
    f: F,
    out: Seq<Single>,
    t: Tone,
    v: Voice,
    p: Params,
    m: Modulation,
) -> Seq<Single> {
    Seq::new(out.len(), |i: int| out[i].sum(played(f, t, v, p, m, i).0.heard(f, p, m)))
}

impl Tone {
    /// Sets the glide time, in seconds. Next to nothing means the pitch jumps.
    pub fn set_glide<F: Fn(Curve, Single) -> Single + Copy>(&mut self, seconds: Single, f: F)
        requires
            curve::gives_curves(f),
        ensures
            *final(self) == (Tone {
                glide_coef: if seconds.at_most(of(0x38D1_B717)) {
                    of(0)
                } else {
                    curve::smoothing(f, seconds.product(old(self).sample_rate))
                },
                ..*old(self)
            }),
    {
        self.glide_coef = smoothing_over(f, self.glide_samples(seconds));
    }

    /// Renders a block, adding to it, and reports to the allocator how far the
    /// envelope has got. An idle voice costs nothing.
    pub fn process_block<F: Fn(Curve, Single) -> Single + Copy>(
        &mut self,
        seat: &mut Voice,
        out: &mut Vec<Single>,
        p: &Params,
        m: &Modulation,
        f: F,
    )
        requires
            old(self).wf(),
            old(self).filter.has_room(),
            curve::gives_curves(f),
        ensures
            final(self).wf(),
            final(self).filter.has_room(),
            !old(self).active() ==> {
                &&& *final(self) == *old(self)
                &&& *final(seat) == *old(seat)
                &&& final(out)@ == old(out)@
            },
            old(self).active() ==> ({
                let ready = old(self).readied(f, *p, *m);
                let (t, v) = played(f, ready, *old(seat), *p, *m, old(out)@.len() as int);
                &&& *final(self) == t
                &&& *final(seat) == (Voice {
                    stage: t.amp_env.stage,
                    level: t.amp_env.level,
                    ..v
                })
                &&& final(out)@ == voiced(f, old(out)@, ready, *old(seat), *p, *m)
            }),
    {
        if !self.is_active() {
            return ;
        }
        let glide: Single = smoothing_over(f, self.glide_samples(p.glide));
        let amp: AdsrCoefs = AdsrCoefs::from_times(f, &p.amp_env, self.sample_rate);
        let sweep: AdsrCoefs = AdsrCoefs::from_times(f, &p.filter_env, self.sample_rate);
        let octaves: Single = self.begin_block(p, m, amp, sweep, glide);
        let cutoff: Single = Tone::cutoff(p, read(f, Curve::TwoTo, octaves));
        self.filter.tune_to(cutoff, p.resonance, f);
        let ratio1: Single = cents_to_ratio(p.osc1_detune, f);
        let ratio2: Single = cents_to_ratio(p.osc2_detune, f);
        let offset: Single = p.pitch_bend.plus(m.pitch);
        let ghost ready = *self;
        assert(ready == old(self).readied(f, *p, *m));
        let mut i: usize = 0;
        while i < out.len()
            invariant
                i <= out@.len() == old(out)@.len(),
                curve::gives_curves(f),
                self.wf(),
                self.filter.has_room(),
                ratio1 == note::ratio_of_cents(f, p.osc1_detune),
                ratio2 == note::ratio_of_cents(f, p.osc2_detune),
                offset == p.pitch_bend.sum(m.pitch),
                (*self, *seat) == played(f, ready, *old(seat), *p, *m, i as int),
                forall|k: int| i <= k < out@.len() ==> out@[k] == old(out)@[k],
                forall|k: int|
                    0 <= k < i ==> #[trigger] out@[k] == voiced(
                        f,
                        old(out)@,
                        ready,
                        *old(seat),
                        *p,
                        *m,
                    )[k],
            decreases out@.len() - i,
        {
            let ghost before = *self;
            let base: Single = self.glide(offset);
            let hz1: Single = midi_to_hz(base.plus(p.osc1_semitones), f).times(ratio1);
            let hz2: Single = midi_to_hz(base.plus(p.osc2_semitones), f).times(ratio2);
            self.tune(hz1, hz2, midi_to_hz(base.minus(of(0x4140_0000)), f));
            assert(*self == before.pitched(f, *p, *m));
            let sines: Sines = Sines {
                osc1: sine_of(f, &self.osc1, p.osc1_wave),
                osc2: sine_of(f, &self.osc2, p.osc2_wave),
                sub: of(0),
            };
            let (x, ended) = self.sound(p, sines, m.amp);
            if ended {
                self.finish_fade(seat);
            }
            let y: Single = out[i].plus(x);
            out.set(i, y);
            i = i + 1;
        }
        seat.observe(self.amp_env.stage(), self.amp_env.level());
        assert(out@ =~= voiced(f, old(out)@, ready, *old(seat), *p, *m));
    }

    /// Ends a fade: cuts the voice and starts the note that waits for it.
    fn finish_fade(&mut self, seat: &mut Voice)
        ensures
            match old(seat).steal_fade {
                Some(n) => {
                    &&& *final(self) == old(self).cut_off().started(
                        n.note,
                        n.velocity,
                        None,
                        true,
                    )
                    &&& *final(seat) == old(seat).faded()
                },
                None => *final(self) == old(self).cut_off() && *final(seat) == *old(seat),
            },
            old(self).wf() ==> final(self).wf(),
    {
        self.cut();
        let waiting: Option<StealFade> = seat.steal_fade;
        match waiting {
            Some(n) => {
                self.start(n.note, n.velocity, None, true);
                seat.finish_steal();
            },
            None => {},
        }
    }
}

/// The voice an order is for, if it is for one.
pub open spec fn voice_of(order: Order) -> Option<usize> {
    match order {
        Order::StartVoice { voice, .. } => Some(voice),
        Order::RetuneVoice { voice, .. } => Some(voice),
        Order::ReleaseVoice { voice } => Some(voice),
        Order::KillVoice { voice } => Some(voice),
        Order::StealVoice { voice, .. } => Some(voice),
        _ => None,
    }
}

impl Tone {
    pub open spec fn released(self) -> Tone {
        Tone {
            amp_env: released_env(self.amp_env),
            filter_env: released_env(self.filter_env),
            ..self
        }
    }

    /// The voice on its way out, over two milliseconds.
    pub open spec fn fading(self) -> Tone {
        Tone {
            fade: Some(
                Fade {
                    gain: of(0x3F80_0000),
                    step: of(0x3F80_0000).quotient(
                        of(0x3B03_126F).product(self.sample_rate).larger(of(0x3F80_0000)),
                    ),
                },
            ),
            ..self
        }
    }

    /// The voice after an order. A stolen voice that sounds fades first.
    pub open spec fn obeyed(self, order: Order) -> Tone {
        match order {
            Order::StartVoice { note, velocity, glide_from, .. } => self.started(
                note,
                velocity,
                match glide_from {
                    Some(n) => Some(Single::nearest_to(n as int)),
                    None => None,
                },
                true,
            ),
            Order::RetuneVoice { note, velocity, .. } => Tone {
                note,
                velocity,
                target_pitch: Single::nearest_to(note as int),
                ..self
            },
            Order::ReleaseVoice { .. } => self.released(),
            Order::KillVoice { .. } => self.cut_off(),
            Order::StealVoice { note, velocity, .. } => if self.active() {
                self.fading()
            } else {
                self.started(note, velocity, None, true)
            },
            _ => self,
        }
    }

    /// Carries out an order. One that is not for a voice changes nothing.
    pub fn obey(&mut self, order: Order)
        ensures
            *final(self) == old(self).obeyed(order),
            old(self).wf() ==> final(self).wf(),
            final(self).filter.stage1.sample_rate == old(self).filter.stage1.sample_rate,
    {
        match order {
            Order::StartVoice { note, velocity, glide_from, .. } => {
                let from: Option<Single> = match glide_from {
                    Some(n) => Some(Single::from_whole(n as u64)),
                    None => None,
                };
                self.start(note, velocity, from, true);
            },
            Order::RetuneVoice { note, velocity, .. } => {
                self.set_target_note(note);
                self.velocity = velocity;
            },
            Order::ReleaseVoice { .. } => {
                self.release();
            },
            Order::KillVoice { .. } => {
                self.cut();
            },
            Order::StealVoice { note, velocity, .. } => {
                if self.is_active() {
                    self.fade_out();
                } else {
                    self.start(note, velocity, None, true);
                }
            },
            _ => {},
        }
    }
}

/// Whether the allocator knows what note a voice plays, and whether it is on its way
/// out.
pub open spec fn same_note(t: Tone, v: Voice) -> bool {
    &&& v.note == t.note
    &&& v.velocity == t.velocity
    &&& v.steal_fade is Some <==> t.fade is Some
}

/// Whether the allocator knows a voice for what it is.
pub open spec fn agree(t: Tone, v: Voice) -> bool {
    &&& same_note(t, v)
    &&& v.stage == t.amp_env.stage
    &&& v.level == t.amp_env.level
}

/// The allocator and the sound stay in step: whatever the allocator does to a voice,
/// the order it gives does the same to the sound.
pub proof fn law_orders_keep_the_allocator_and_the_sound_in_step(
    t: Tone,
    v: Voice,
    voice: usize,
    note: u8,
    velocity: Single,
    glide_from: Option<u8>,
    age: u64,
)
    requires
        agree(t, v),
    ensures
        t.active() == v.active(),
        agree(
            t.obeyed(Order::StartVoice { voice, note, velocity, glide_from }),
            v.started(note, velocity, age),
        ),
        agree(
            t.obeyed(Order::RetuneVoice { voice, note, velocity }),
            Voice { note, velocity, ..v },
        ),
        agree(t.obeyed(Order::ReleaseVoice { voice }), v.released()),
        agree(t.obeyed(Order::KillVoice { voice }), v.killed()),
        agree(
            t.obeyed(Order::StealVoice { voice, note, velocity }),
            v.stolen(note, velocity, age),
        ),
{
}

/// Rendering keeps them in step too: after any number of samples and a report, the
/// allocator knows the voice for what it is, a note that took a faded voice over
/// included.
pub proof fn law_rendering_keeps_the_allocator_and_the_sound_in_step<
    F: Fn(Curve, Single) -> Single,
>(f: F, t: Tone, v: Voice, p: Params, m: Modulation, n: int)
    requires
        same_note(t, v),
    ensures
        ({
            let (t1, v1) = played(f, t, v, p, m, n);
            agree(t1, Voice { stage: t1.amp_env.stage, level: t1.amp_env.level, ..v1 })
        }),
    decreases n,
{
    if n > 0 {
        law_rendering_keeps_the_allocator_and_the_sound_in_step(f, t, v, p, m, n - 1);
    }
}

/// Only the selected target moves: whatever the oscillator does, the others stay as
/// they would be without it.
pub proof fn law_only_the_selected_target_moves(
    target: LfoTarget,
    pulse_width: Single,
    lfo: Single,
    depth: Single,
)
    ensures
        ({
            let m = Modulation::routed(target, pulse_width, lfo, depth);
            let still = Modulation::routed(LfoTarget::Off, pulse_width, lfo, depth);
            &&& target != LfoTarget::Cutoff ==> m.cutoff == still.cutoff
            &&& target != LfoTarget::Pitch ==> m.pitch == still.pitch
            &&& target != LfoTarget::Amplitude ==> m.amp == still.amp
            &&& target != LfoTarget::PulseWidth ==> m.pulse_width == still.pulse_width
            &&& target == LfoTarget::Off ==> m == still
        }),
{
}

/// A voice cut dead makes no more sound: both its envelopes are idle and stay so.
pub proof fn law_a_cut_voice_is_idle(t: Tone)
    ensures
        t.cut_off().amp_env.advanced() == t.cut_off().amp_env,
        t.cut_off().amp_env.level == of(0),
        t.cut_off().fade is None,
        t.cut_off().cut_off() == t.cut_off(),
{
}

/// A source whose level is nothing is neither heard nor run.
pub proof fn law_a_closed_source_is_not_run(mix: Single, o: Oscillator, wave: Waveform, sine: Single, level: Single)
    requires
        level.at_most(of(0)),
    ensures
        mixed(mix, o, wave, sine, level) == mix,
        run(o, wave, level) == o,
{
}

} // verus!
