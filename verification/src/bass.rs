//! The bassline voice: one oscillator, one lowpass, and an envelope aimed at the
//! cutoff.
//!
//! A sample is made in three steps: the slide gives a pitch, the envelopes an opening in
//! octaves, and the filter the sample.

use crate::bounds;
use crate::curve;
use crate::curve::{read, smoothing_over, Curve};
use crate::env;
use crate::env::{Adsr, AdsrCoefs, AdsrSettings, EnvStage};
use crate::filter::{Filter, Slope, Svf, SvfMode};
use crate::note;
use crate::note::midi_to_hz;
use crate::order::Order;
use crate::osc;
use crate::osc::{Oscillator, Waveform};
use crate::output;
use crate::output::guard;
use crate::params::{of, BassParams};
use crate::rng;
use crate::pool::Pool;
use crate::single::Single;
use crate::tone;
use vstd::prelude::*;

verus! {

/// Both envelopes attack in three milliseconds: fast enough to click, slow enough not
/// to alias. The release is short: the sequencer decides how long a note is.
pub open spec fn amp_settings() -> AdsrSettings {
    AdsrSettings {
        attack: of(0x3B44_9BA6),
        decay: of(0),
        sustain: of(0x3F80_0000),
        release: of(0x3C03_126F),
    }
}

/// The filter sweep. No sustain, so that it finishes even under a held gate, and a
/// release like the decay, so that letting go sounds like the sweep going on.
pub open spec fn sweep_settings(decay: Single) -> AdsrSettings {
    AdsrSettings { attack: of(0x3B44_9BA6), decay, sustain: of(0), release: decay }
}

/// What the voice takes its settings to be: each finite and in its range, whatever
/// came from the control side.
#[derive(Debug, Clone, Copy, PartialEq, Eq, Structural)]
pub struct BassSettings {
    pub tune: Single,
    pub cutoff: Single,
    pub resonance: Single,
    pub env_mod: Single,
    pub decay: Single,
}

/// A value, or another where it is no finite number.
pub open spec fn sane(value: Single, fallback: Single) -> Single {
    if value.finite() {
        value
    } else {
        fallback
    }
}

fn sane_or(value: Single, fallback: Single) -> (x: Single)
    ensures
        x == sane(value, fallback),
{
    if value.is_finite() {
        value
    } else {
        fallback
    }
}

impl BassSettings {
    pub open spec fn of_params(p: BassParams) -> BassSettings {
        BassSettings {
            tune: sane(p.tune, of(0)).clamped(of(0xC140_0000), of(0x4140_0000)),
            cutoff: sane(p.cutoff, of(0x4396_0000)).clamped(of(0x41A0_0000), of(0x469C_4000)),
            resonance: sane(p.resonance, of(0x3F33_3333)).clamped(of(0), of(0x3F80_0000)),
            env_mod: sane(p.env_mod, of(0x4040_0000)).clamped(of(0), of(0x40C0_0000)),
            decay: sane(p.decay, of(0x3E99_999A)).clamped(of(0x3CA3_D70A), of(0x4000_0000)),
        }
    }

    pub fn from_params(p: &BassParams) -> (s: BassSettings)
        ensures
            s == BassSettings::of_params(*p),
    {
        BassSettings {
            tune: sane_or(p.tune, of(0)).clamp(of(0xC140_0000), of(0x4140_0000)),
            cutoff: sane_or(p.cutoff, of(0x4396_0000)).clamp(of(0x41A0_0000), of(0x469C_4000)),
            resonance: sane_or(p.resonance, of(0x3F33_3333)).clamp(of(0), of(0x3F80_0000)),
            env_mod: sane_or(p.env_mod, of(0x4040_0000)).clamp(of(0), of(0x40C0_0000)),
            decay: sane_or(p.decay, of(0x3E99_999A)).clamp(of(0x3CA3_D70A), of(0x4000_0000)),
        }
    }
}

/// One monophonic bassline voice.
#[derive(Debug, Clone)]
pub struct BassVoice {
    pub sample_rate: Single,
    pub osc: Oscillator,
    pub filter: Filter,
    pub amp_env: Adsr,
    pub filter_env: Adsr,
    /// The note the voice is playing, as MIDI.
    pub note: u8,
    pub gate: bool,
    /// Latched at note-on: editing the step in mid-note must not change the note
    /// already sounding.
    pub accented: bool,
    /// Current pitch in semitones, which may sit between notes during a slide.
    pub pitch: Single,
    /// Where a slide is heading.
    pub target_pitch: Single,
    /// Per-sample coefficient of the slide. Zero means jump.
    pub glide_coef: Single,
    /// The frequency the oscillator was last set to.
    pub current_hz: Single,
}

impl BassVoice {
    pub open spec fn wf(self) -> bool {
        &&& self.osc.wf()
        &&& of(0).at_most(osc::ceiling(self.osc.sample_rate))
    }

    /// The pitch one sample on.
    pub open spec fn slid(self) -> Single {
        if of(0).below(self.glide_coef) {
            self.target_pitch.sum(
                self.pitch.difference(self.target_pitch).product(self.glide_coef),
            )
        } else {
            self.target_pitch
        }
    }

    pub open spec fn silenced(self) -> BassVoice {
        BassVoice {
            gate: false,
            amp_env: Adsr {
                stage: EnvStage::Idle,
                level: of(0),
                ..self.amp_env
            },
            filter_env: Adsr {
                stage: EnvStage::Idle,
                level: of(0),
                ..self.filter_env
            },
            filter: Filter {
                stage1: Svf {
                    ic1eq: of(0),
                    ic2eq: of(0),
                    ..self.filter.stage1
                },
                stage2: Svf {
                    ic1eq: of(0),
                    ic2eq: of(0),
                    ..self.filter.stage2
                },
                ..self.filter
            },
            ..self
        }
    }

    /// A bass that has played nothing yet, its filter and its pitch aside.
    pub open spec fn fresh(self, sample_rate: Single, seed: u64, amp: AdsrCoefs, sweep: AdsrCoefs) -> bool {
        &&& self.sample_rate == sample_rate
        &&& self.osc.fresh(sample_rate, seed)
        &&& self.amp_env == self.amp_env.with_settings(amp_settings(), amp)
        &&& self.amp_env.stage == EnvStage::Idle
        &&& self.amp_env.level == of(0)
        &&& self.filter_env.fresh(sweep)
        &&& self.note == 40
        &&& !self.gate
        &&& !self.accented
        &&& self.pitch == of(0x4220_0000)
        &&& self.target_pitch == of(0x4220_0000)
        &&& self.glide_coef == of(0)
    }

    /// A silent voice. The filter is a 24 dB lowpass and nothing else: making either
    /// selectable would be a different instrument.
    pub fn new(
        sample_rate: Single,
        seed: u64,
        amp: AdsrCoefs,
        sweep: AdsrCoefs,
        g: Single,
        hz: Single,
    ) -> (v: BassVoice)
        requires
            of(0).at_most(osc::ceiling(sample_rate)),
        ensures
            v.wf(),
            v.fresh(sample_rate, seed, amp, sweep),
            v.filter.fresh(sample_rate, g, SvfMode::Lowpass, Slope::Db24),
            v.current_hz == hz,
    {
        let mut filter: Filter = Filter::new(sample_rate, g);
        filter.mode = SvfMode::Lowpass;
        filter.slope = Slope::Db24;
        let mut amp_env: Adsr = Adsr::new(amp);
        amp_env.set_settings(
            AdsrSettings {
                attack: of(0x3B44_9BA6),
                decay: of(0),
                sustain: of(0x3F80_0000),
                release: of(0x3C03_126F),
            },
            amp,
        );
        BassVoice {
            sample_rate,
            osc: Oscillator::new(sample_rate, seed),
            filter,
            amp_env,
            filter_env: Adsr::new(sweep),
            note: 40,
            gate: false,
            accented: false,
            pitch: of(0x4220_0000),
            target_pitch: of(0x4220_0000),
            glide_coef: of(0),
            current_hz: hz,
        }
    }

    /// The voice at another sample rate.
    pub open spec fn at_rate<F: Fn(Curve, Single) -> Single>(self, f: F, sample_rate: Single) -> BassVoice {
        BassVoice {
            sample_rate,
            osc: Oscillator { sample_rate, ..self.osc },
            filter: Filter {
                stage1: Svf { sample_rate, ..self.filter.stage1 },
                stage2: Svf { sample_rate, ..self.filter.stage2 },
                ..self.filter
            },
            amp_env: self.amp_env.with_settings(
                self.amp_env.settings,
                AdsrCoefs::of_times(f, self.amp_env.settings, sample_rate),
            ),
            filter_env: self.filter_env.with_settings(
                self.filter_env.settings,
                AdsrCoefs::of_times(f, self.filter_env.settings, sample_rate),
            ),
            ..self
        }
    }

    /// Reconfigures for a new sample rate, the envelopes' times included.
    pub fn set_sample_rate<F: Fn(Curve, Single) -> Single + Copy>(&mut self, sample_rate: Single, f: F)
        requires
            old(self).wf(),
            of(0).at_most(osc::ceiling(sample_rate)),
            curve::gives_curves(f),
        ensures
            final(self).wf(),
            *final(self) == old(self).at_rate(f, sample_rate),
    {
        self.sample_rate = sample_rate;
        self.osc.set_sample_rate(sample_rate);
        self.filter.set_sample_rate(sample_rate);
        let amp: AdsrSettings = self.amp_env.settings();
        let sweep: AdsrSettings = self.filter_env.settings();
        self.amp_env.set_settings(amp, AdsrCoefs::from_times(f, &amp, sample_rate));
        self.filter_env.set_settings(sweep, AdsrCoefs::from_times(f, &sweep, sample_rate));
    }

    /// The voice with a note started, at its own pitch.
    pub open spec fn started(self, note: u8, accent: bool) -> BassVoice {
        BassVoice {
            note,
            gate: true,
            accented: accent,
            pitch: Single::nearest_to(note as int),
            target_pitch: Single::nearest_to(note as int),
            amp_env: tone::started_env(self.amp_env, true),
            filter_env: tone::started_env(self.filter_env, true),
            ..self
        }
    }

    /// Starts a note, at its own pitch, tied or not.
    pub fn note_on(&mut self, note: u8, accent: bool, _slide: bool)
        ensures
            *final(self) == old(self).started(note, accent),
    {
        self.note = note;
        self.gate = true;
        self.accented = accent;
        self.target_pitch = Single::from_whole(note as u64);
        self.pitch = self.target_pitch;
        self.amp_env.gate_on(true);
        self.filter_env.gate_on(true);
    }

    /// The voice with its key let go.
    pub open spec fn let_go(self) -> BassVoice {
        BassVoice {
            gate: false,
            amp_env: tone::released_env(self.amp_env),
            filter_env: tone::released_env(self.filter_env),
            ..self
        }
    }

    pub fn note_off(&mut self)
        ensures
            *final(self) == old(self).let_go(),
    {
        self.gate = false;
        self.amp_env.gate_off();
        self.filter_env.gate_off();
    }

    /// Cuts the voice dead, envelopes and filter state together. For the transport
    /// stopping and for panic.
    pub fn silence(&mut self)
        ensures
            *final(self) == old(self).silenced(),
    {
        self.gate = false;
        self.amp_env.hard_reset();
        self.filter_env.hard_reset();
        self.filter.reset();
    }

    /// The voice after an order. One that is not for the bass changes nothing.
    pub open spec fn obeyed(self, order: Order) -> BassVoice {
        match order {
            Order::StartBass { note, accent, .. } => self.started(note, accent),
            Order::ReleaseBass => self.let_go(),
            Order::SilenceBass => self.silenced(),
            _ => self,
        }
    }

    /// Carries out an order.
    pub fn obey(&mut self, order: Order)
        ensures
            *final(self) == old(self).obeyed(order),
            old(self).wf() ==> final(self).wf(),
            final(self).filter.stage1.sample_rate == old(self).filter.stage1.sample_rate,
    {
        match order {
            Order::StartBass { note, accent, slide } => {
                self.note_on(note, accent, slide);
            },
            Order::ReleaseBass => {
                self.note_off();
            },
            Order::SilenceBass => {
                self.silence();
            },
            _ => {},
        }
    }

    pub fn is_active(&self) -> (yes: bool)
        ensures
            yes == (self.amp_env.stage != EnvStage::Idle),
    {
        self.amp_env.is_active()
    }

    /// The filter envelope's current level.
    pub fn filter_env_level(&self) -> (x: Single)
        ensures
            x == self.filter_env.level,
    {
        self.filter_env.level()
    }

    /// The frequency the oscillator is running at.
    pub fn current_hz(&self) -> (x: Single)
        ensures
            x == self.current_hz,
    {
        self.current_hz
    }

    /// How many samples a slide takes, or nothing if the pitch jumps.
    pub fn slide_samples(&self, seconds: Single) -> (n: Option<Single>)
        ensures
            n == (if !seconds.finite() || seconds.at_most(of(0x38D1_B717)) {
                None
            } else {
                Some(seconds.product(self.sample_rate))
            }),
    {
        if !seconds.is_finite() || seconds.le(of(0x38D1_B717)) {
            None
        } else {
            Some(seconds.times(self.sample_rate))
        }
    }

    /// Before a block: the sweep's time and the slide's coefficient.
    pub fn begin_block(&mut self, s: &BassSettings, sweep: AdsrCoefs, glide_coef: Single)
        ensures
            *final(self) == (BassVoice {
                filter_env: old(self).filter_env.with_settings(sweep_settings(s.decay), sweep),
                glide_coef,
                ..*old(self)
            }),
    {
        self.filter_env.set_settings(
            AdsrSettings {
                attack: of(0x3B44_9BA6),
                decay: s.decay,
                sustain: of(0),
                release: s.decay,
            },
            sweep,
        );
        self.glide_coef = glide_coef;
    }

    /// Slides for one sample, and gives the pitch to play, in semitones.
    pub fn slide(&mut self, tune: Single) -> (pitch: Single)
        ensures
            *final(self) == (BassVoice { pitch: old(self).slid(), ..*old(self) }),
            pitch == old(self).slid().sum(tune),
    {
        self.pitch = if of(0).lt(self.glide_coef) {
            self.target_pitch.plus(self.pitch.minus(self.target_pitch).times(self.glide_coef))
        } else {
            self.target_pitch
        };
        self.pitch.plus(tune)
    }

    /// Plays a frequency and moves both envelopes on. Gives how far the sweep opens
    /// the filter, in octaves: the same musical distance from any cutoff.
    pub fn open(&mut self, hz: Single, env_mod: Single) -> (octaves: Single)
        requires
            old(self).wf(),
        ensures
            final(self).wf(),
            *final(self) == (BassVoice {
                current_hz: hz,
                osc: old(self).osc.tuned(hz),
                filter_env: old(self).filter_env.advanced(),
                amp_env: old(self).amp_env.advanced(),
                ..*old(self)
            }),
            octaves == env_mod.product(old(self).filter_env.advanced().level),
    {
        self.current_hz = hz;
        self.osc.set_freq(hz);
        let env: Single = self.filter_env.next();
        let _amp: Single = self.amp_env.next();
        env_mod.times(env)
    }

    /// The cutoff, for the power of two of the opening.
    pub fn cutoff(base: Single, ratio: Single) -> (hz: Single)
        ensures
            hz == base.product(ratio).clamped(of(0x41A0_0000), of(0x469C_4000)),
    {
        base.times(ratio).clamp(of(0x41A0_0000), of(0x469C_4000))
    }

    /// The sample, for the tangent of the cutoff and the sine of the oscillator.
    /// Guarded: nonsense never leaves the voice.
    pub fn sound(&mut self, g: Single, resonance: Single, wave: Waveform, sine: Single) -> (x: Single)
        requires
            old(self).wf(),
        ensures
            final(self).wf(),
            ({
                let filter = Filter {
                    stage1: old(self).filter.stage1.tuned(g, resonance),
                    stage2: old(self).filter.stage2.tuned(g, resonance.product(of(0x3F00_0000))),
                    ..old(self).filter
                };
                let raw = old(self).osc.sample(wave, sine);
                &&& x == output::guarded(filter.passed(raw).product(old(self).amp_env.level))
                &&& *final(self) == (BassVoice {
                    osc: old(self).osc.after(wave),
                    filter: filter.after(raw),
                    ..*old(self)
                })
            }),
            x.finite(),
    {
        self.filter.set_params(g, resonance);
        let raw: Single = self.osc.next(wave, sine);
        let filtered: Single = self.filter.process(raw);
        guard(filtered.times(self.amp_env.level()))
    }
}

impl BassVoice {
    /// The voice ready for a block: the sweep's time and the slide's coefficient.
    pub open spec fn readied<F: Fn(Curve, Single) -> Single>(self, f: F, p: BassParams) -> BassVoice {
        let sweep = sweep_settings(BassSettings::of_params(p).decay);
        BassVoice {
            filter_env: self.filter_env.with_settings(
                sweep,
                AdsrCoefs::of_times(f, sweep, self.sample_rate),
            ),
            glide_coef: if !p.slide_time.finite() || p.slide_time.at_most(of(0x38D1_B717)) {
                of(0)
            } else {
                curve::smoothing(f, p.slide_time.product(self.sample_rate))
            },
            ..self
        }
    }

    /// The voice slid, tuned, its envelopes moved on, and its filter opened by the
    /// sweep, for one sample.
    pub open spec fn opened<F: Fn(Curve, Single) -> Single>(self, f: F, p: BassParams) -> BassVoice {
        let s = BassSettings::of_params(p);
        let hz = note::frequency(f, self.slid().sum(s.tune));
        let octaves = s.env_mod.product(self.filter_env.advanced().level);
        BassVoice {
            pitch: self.slid(),
            current_hz: hz,
            osc: self.osc.tuned(hz),
            filter_env: self.filter_env.advanced(),
            amp_env: self.amp_env.advanced(),
            filter: self.filter.at_cutoff(
                f,
                s.cutoff.product(curve::at(f, Curve::TwoTo, octaves)).clamped(
                    of(0x41A0_0000),
                    of(0x469C_4000),
                ),
                s.resonance,
            ),
            ..self
        }
    }

    /// What the oscillator hands the filter.
    pub open spec fn raw<F: Fn(Curve, Single) -> Single>(self, f: F, wave: Waveform) -> Single {
        self.osc.sample(
            wave,
            if wave == Waveform::Sine {
                curve::at(f, Curve::Sine, self.osc.phase.product(of(0x40C9_0FDB)))
            } else {
                of(0)
            },
        )
    }

    /// One sample of the voice.
    pub open spec fn heard<F: Fn(Curve, Single) -> Single>(self, f: F, p: BassParams) -> Single {
        let v = self.opened(f, p);
        output::guarded(v.filter.passed(v.raw(f, p.wave)).product(v.amp_env.level))
    }

    /// The voice one sample on.
    pub open spec fn moved<F: Fn(Curve, Single) -> Single>(self, f: F, p: BassParams) -> BassVoice {
        let v = self.opened(f, p);
        BassVoice { osc: v.osc.after(p.wave), filter: v.filter.after(v.raw(f, p.wave)), ..v }
    }

    /// The voice so many samples on.
    pub open spec fn played<F: Fn(Curve, Single) -> Single>(self, f: F, p: BassParams, n: int) -> BassVoice
        decreases n,
    {
        if n <= 0 {
            self
        } else {
            self.played(f, p, n - 1).moved(f, p)
        }
    }

    /// A block of so many samples of the voice.
    pub open spec fn block<F: Fn(Curve, Single) -> Single>(self, f: F, p: BassParams, n: int) -> Seq<Single> {
        Seq::new(n as nat, |i: int| self.played(f, p, i).heard(f, p))
    }

    /// Renders a block, and gives it.
    pub fn process_block<F: Fn(Curve, Single) -> Single + Copy>(
        &mut self,
        count: usize,
        p: &BassParams,
        f: F,
        pool: &mut Pool,
    ) -> (out: Vec<Single>)
        requires
            old(self).wf(),
            old(self).filter.has_room(),
            curve::gives_curves(f),
        ensures
            final(self).wf(),
            final(self).filter.has_room(),
            *final(self) == old(self).readied(f, *p).played(f, *p, count as int),
            out@ == old(self).readied(f, *p).block(f, *p, count as int),
            forall|i: int| 0 <= i < count ==> (#[trigger] out@[i]).finite(),
    {
        let s: BassSettings = BassSettings::from_params(p);
        let sweep: AdsrSettings = AdsrSettings {
            attack: of(0x3B44_9BA6),
            decay: s.decay,
            sustain: of(0),
            release: s.decay,
        };
        let coefs: AdsrCoefs = AdsrCoefs::from_times(f, &sweep, self.sample_rate);
        let glide: Single = smoothing_over(f, self.slide_samples(p.slide_time));
        self.begin_block(&s, coefs, glide);
        let ghost ready = *self;
        assert(ready == old(self).readied(f, *p));
        let mut out: Vec<Single> = pool.take();
        let mut i: usize = 0;
        while i < count
            invariant
                i <= count,
                curve::gives_curves(f),
                s == BassSettings::of_params(*p),
                self.wf(),
                self.filter.has_room(),
                *self == ready.played(f, *p, i as int),
                out@.len() == i,
                forall|k: int|
                    0 <= k < i ==> #[trigger] out@[k] == ready.block(f, *p, count as int)[k]
                        && out@[k].finite(),
            decreases count - i,
        {
            let ghost before = *self;
            let pitch: Single = self.slide(s.tune);
            let octaves: Single = self.open(midi_to_hz(pitch, f), s.env_mod);
            let cutoff: Single = BassVoice::cutoff(s.cutoff, read(f, Curve::TwoTo, octaves));
            let g: Single = read(f, Curve::Tangent, self.filter.stage1.warp_angle(cutoff));
            let sine: Single = if p.wave == Waveform::Sine {
                read(f, Curve::Sine, self.osc.angle())
            } else {
                of(0)
            };
            let x: Single = self.sound(g, s.resonance, p.wave, sine);
            assert(*self == before.moved(f, *p));
            out.push(x);
            i = i + 1;
        }
        assert(out@ =~= ready.block(f, *p, count as int));
        out
    }
}

/// Nonsense from the control side never gets through: every setting is finite and in
/// its range, so no tune can run the pitch away.
pub proof fn law_no_nonsense_gets_through(p: BassParams)
    ensures
        ({
            let s = BassSettings::of_params(p);
            &&& of(0xC140_0000).at_most(s.tune) && s.tune.at_most(of(0x4140_0000))
            &&& of(0x41A0_0000).at_most(s.cutoff) && s.cutoff.at_most(of(0x469C_4000))
            &&& bounds::in_unit(s.resonance)
            &&& of(0).at_most(s.env_mod) && s.env_mod.at_most(of(0x40C0_0000))
            &&& of(0x3CA3_D70A).at_most(s.decay) && s.decay.at_most(of(0x4000_0000))
        }),
{
}

/// The sweep finishes under a held gate: it never sustains.
pub proof fn law_the_sweep_finishes_under_a_held_gate(e: Adsr, decay: Single)
    requires
        e.settings == sweep_settings(decay),
        e.stage == EnvStage::Decay,
    ensures
        e.advanced().stage != EnvStage::Sustain,
{
    env::law_zero_sustain_goes_idle_after_decay(e);
}

/// A silenced voice is silent: nothing of it rings on.
pub proof fn law_a_silenced_voice_is_idle(v: BassVoice)
    ensures
        v.silenced().amp_env.stage == EnvStage::Idle,
        v.silenced().amp_env.advanced() == v.silenced().amp_env,
        v.silenced().amp_env.level == of(0),
        v.silenced().silenced() == v.silenced(),
{
}

} // verus!
