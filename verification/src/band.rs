//! The band: everything that makes sound on the engine's orders.

use crate::bass;
use crate::bass::BassVoice;
use crate::curve;
use crate::curve::{read, Curve};
use crate::double::Double;
use crate::drums::kit;
use crate::drums::kit::Kit;
use crate::drums::pad::PAD_COUNT;
use crate::drums::voice::DrumVoice;
use crate::env::{AdsrCoefs, AdsrSettings};
use crate::filter;
use crate::filter::{Filter, Slope, SvfMode};
use crate::lfo;
use crate::lfo::{Lfo, LfoWave};
use crate::note;
use crate::note::midi_to_hz;
use crate::order::Order;
use crate::osc;
use crate::params::{of, Params, MAX_VOICES};
use crate::pool::Pool;
use crate::single::Single;
use crate::tone;
use crate::tone::{Modulation, Tone};
use crate::voice::Voice;
use vstd::prelude::*;

verus! {

/// The band.
#[derive(Debug, Clone)]
pub struct Band {
    pub tones: Vec<Tone>,
    pub lfo: Lfo,
    pub bass: BassVoice,
    pub kit: Kit,
}

/// The voices after an order. One for no voice changes nothing.
pub open spec fn tones_obeyed(tones: Seq<Tone>, order: Order) -> Seq<Tone> {
    match tone::voice_of(order) {
        Some(v) => if v < tones.len() {
            tones.update(v as int, tones[v as int].obeyed(order))
        } else {
            tones
        },
        None => tones,
    }
}

/// The voices after the first `n` of some orders.
pub open spec fn tones_after(tones: Seq<Tone>, orders: Seq<Order>, n: int) -> Seq<Tone>
    decreases n,
{
    if n <= 0 {
        tones
    } else {
        tones_obeyed(tones_after(tones, orders, n - 1), orders[n - 1])
    }
}

/// The bass after the first `n` of some orders.
pub open spec fn bass_after(bass: BassVoice, orders: Seq<Order>, n: int) -> BassVoice
    decreases n,
{
    if n <= 0 {
        bass
    } else {
        bass_after(bass, orders, n - 1).obeyed(orders[n - 1])
    }
}

/// The drums after the first `n` of some orders.
pub open spec fn drums_after<F: Fn(Curve, Single) -> Single>(
    f: F,
    voices: Seq<DrumVoice>,
    orders: Seq<Order>,
    n: int,
) -> Seq<DrumVoice>
    decreases n,
{
    if n <= 0 {
        voices
    } else {
        kit::obeyed(f, drums_after(f, voices, orders, n - 1), orders[n - 1])
    }
}

/// Whether an order starts a note on a voice.
pub open spec fn starts(order: Order) -> bool {
    order is StartVoice || order is StealVoice
}

/// Whether any of the first `n` of some orders starts a note.
pub open spec fn any_starts(orders: Seq<Order>, n: int) -> bool
    decreases n,
{
    n > 0 && (starts(orders[n - 1]) || any_starts(orders, n - 1))
}

/// The modulation after the first `n` of some orders. Where a patch asks for it, a note
/// that starts restarts the cycle, so that every note gets the same modulation.
pub open spec fn lfo_after(l: Lfo, orders: Seq<Order>, n: int, p: Params) -> Lfo {
    if p.lfo_retrigger && any_starts(orders, n) {
        Lfo { phase: Double { bits: 0 }, ..l }
    } else {
        l
    }
}

/// The point of the curve that a low-frequency shape needs.
pub open spec fn lfo_curve<F: Fn(Curve, Single) -> Single>(f: F, l: Lfo, wave: LfoWave) -> Single {
    match wave {
        LfoWave::Sine => curve::at(
            f,
            Curve::Sine,
            lfo::turn(l.phase).product(of(0x40C9_0FDB)),
        ),
        LfoWave::SmoothRandom => curve::at(
            f,
            Curve::Cosine,
            lfo::turn(l.phase).product(of(0x4049_0FDB)),
        ),
        _ => of(0),
    }
}

/// What the modulation does over a block. The knob and the wheel add, so a patch can
/// be static until the player asks for movement, and the wheel always reaches full
/// depth.
pub open spec fn modulation<F: Fn(Curve, Single) -> Single>(f: F, l: Lfo, p: Params) -> Modulation {
    Modulation::routed(
        p.lfo_target,
        p.pulse_width,
        l.value(p.lfo_wave, lfo_curve(f, l, p.lfo_wave)),
        p.lfo_depth.sum(p.mod_wheel).smaller(of(0x3F80_0000)),
    )
}

/// One voice and its seat after a block.
pub open spec fn seat_played<F: Fn(Curve, Single) -> Single>(
    f: F,
    t: Tone,
    v: Voice,
    p: Params,
    m: Modulation,
    count: int,
) -> (Tone, Voice) {
    if t.active() {
        let (t1, v1) = tone::played(f, t.readied(f, p, m), v, p, m, count);
        (t1, Voice { stage: t1.amp_env.stage, level: t1.amp_env.level, ..v1 })
    } else {
        (t, v)
    }
}

/// A block with the first `n` voices added to it, each in turn.
pub open spec fn ensemble<F: Fn(Curve, Single) -> Single>(
    f: F,
    tones: Seq<Tone>,
    seats: Seq<Voice>,
    p: Params,
    m: Modulation,
    count: nat,
    n: int,
) -> Seq<Single>
    decreases n,
{
    if n <= 0 {
        Seq::new(count, |i: int| of(0))
    } else {
        let before = ensemble(f, tones, seats, p, m, count, n - 1);
        let t = tones[n - 1];
        if t.active() {
            tone::voiced(f, before, t.readied(f, p, m), seats[n - 1], p, m)
        } else {
            before
        }
    }
}

impl Band {
    pub open spec fn wf(self) -> bool {
        &&& self.tones@.len() == MAX_VOICES
        &&& forall|i: int| 0 <= i < MAX_VOICES ==> tone_ready(#[trigger] self.tones@[i])
        &&& self.lfo.wf()
        &&& self.bass.wf()
        &&& self.bass.filter.has_room()
        &&& self.kit.wf()
    }
}

/// Whether a voice can be rendered.
pub open spec fn tone_ready(t: Tone) -> bool {
    t.wf() && t.filter.has_room()
}

/// How many voices a patch lets sound.
pub open spec fn seats_used(p: Params) -> int {
    if p.max_voices < MAX_VOICES {
        p.max_voices as int
    } else {
        MAX_VOICES as int
    }
}

impl Band {
    /// Passes an order on to the voice it is for, if it is for one.
    fn obey_voice(&mut self, order: Order)
        requires
            old(self).wf(),
        ensures
            final(self).wf(),
            final(self).tones@ == tones_obeyed(old(self).tones@, order),
            final(self).bass == old(self).bass,
            final(self).kit == old(self).kit,
            final(self).lfo == old(self).lfo,
    {
        let voice: Option<usize> = match order {
            Order::StartVoice { voice, .. } => Some(voice),
            Order::RetuneVoice { voice, .. } => Some(voice),
            Order::ReleaseVoice { voice } => Some(voice),
            Order::KillVoice { voice } => Some(voice),
            Order::StealVoice { voice, .. } => Some(voice),
            _ => None,
        };
        match voice {
            Some(v) => {
                if v < self.tones.len() {
                    self.tones[v].obey(order);
                }
            },
            None => {},
        }
    }

    /// Carries out one order.
    fn obey<F: Fn(Curve, Single) -> Single + Copy>(&mut self, order: Order, p: &Params, f: F)
        requires
            old(self).wf(),
            curve::gives_curves(f),
        ensures
            final(self).wf(),
            final(self).tones@ == tones_obeyed(old(self).tones@, order),
            final(self).bass == old(self).bass.obeyed(order),
            final(self).kit.voices@ == kit::obeyed(f, old(self).kit.voices@, order),
            final(self).lfo == (if p.lfo_retrigger && starts(order) {
                Lfo { phase: Double { bits: 0 }, ..old(self).lfo }
            } else {
                old(self).lfo
            }),
    {
        self.obey_voice(order);
        let starting: bool = matches!(order, Order::StartVoice { .. } | Order::StealVoice { .. });
        if p.lfo_retrigger && starting {
            self.lfo.retrigger();
        }
        self.bass.obey(order);
        self.kit.obey(order, f);
    }

    /// Carries out the engine's orders, oldest first.
    pub fn carry_out<F: Fn(Curve, Single) -> Single + Copy>(
        &mut self,
        orders: &Vec<Order>,
        p: &Params,
        f: F,
    )
        requires
            old(self).wf(),
            curve::gives_curves(f),
        ensures
            final(self).wf(),
            final(self).tones@ == tones_after(old(self).tones@, orders@, orders@.len() as int),
            final(self).bass == bass_after(old(self).bass, orders@, orders@.len() as int),
            final(self).kit.voices@ == drums_after(
                f,
                old(self).kit.voices@,
                orders@,
                orders@.len() as int,
            ),
            final(self).lfo == lfo_after(old(self).lfo, orders@, orders@.len() as int, *p),
    {
        let mut i: usize = 0;
        while i < orders.len()
            invariant
                i <= orders@.len(),
                curve::gives_curves(f),
                self.wf(),
                self.tones@ == tones_after(old(self).tones@, orders@, i as int),
                self.bass == bass_after(old(self).bass, orders@, i as int),
                self.kit.voices@ == drums_after(f, old(self).kit.voices@, orders@, i as int),
                self.lfo == lfo_after(old(self).lfo, orders@, i as int, *p),
            decreases orders@.len() - i,
        {
            self.obey(orders[i], p, f);
            i = i + 1;
        }
    }

    /// Renders a block of the voices, and reports each to its seat. Only as many as
    /// the patch lets sound are run.
    pub fn play<F: Fn(Curve, Single) -> Single + Copy>(
        &mut self,
        seats: &mut [Voice; MAX_VOICES],
        count: usize,
        p: &Params,
        f: F,
        pool: &mut Pool,
    ) -> (block: Vec<Single>)
        requires
            old(self).wf(),
            curve::gives_curves(f),
        ensures
            final(self).wf(),
            ({
                let m = modulation(f, old(self).lfo, *p);
                let used = seats_used(*p);
                &&& block@ == ensemble(
                    f,
                    old(self).tones@,
                    old(seats)@,
                    *p,
                    m,
                    count as nat,
                    used,
                )
                &&& forall|i: int|
                    0 <= i < MAX_VOICES ==> (#[trigger] final(self).tones@[i], final(seats)@[i])
                        == (if i < used {
                        seat_played(f, old(self).tones@[i], old(seats)@[i], *p, m, count as int)
                    } else {
                        (old(self).tones@[i], old(seats)@[i])
                    })
            }),
            block@.len() == count,
            final(self).lfo@ == old(self).lfo@.skipped(old(self).lfo.dt, count as int),
            final(self).lfo.dt == old(self).lfo.dt,
            final(self).lfo.sample_rate == old(self).lfo.sample_rate,
            final(self).bass == old(self).bass,
            final(self).kit == old(self).kit,
    {
        let point: Single = match (p.lfo_wave, self.lfo.angle(p.lfo_wave)) {
            (LfoWave::Sine, Some(a)) => read(f, Curve::Sine, a),
            (LfoWave::SmoothRandom, Some(a)) => read(f, Curve::Cosine, a),
            _ => of(0),
        };
        let value: Single = self.lfo.next_block(p.lfo_wave, point, count);
        let depth: Single = p.lfo_depth.plus(p.mod_wheel).min(of(0x3F80_0000));
        let m: Modulation = Modulation::route(p, value, depth);
        let mut block: Vec<Single> = pool.take();
        let mut k: usize = 0;
        while k < count
            invariant
                k <= count,
                block@ == Seq::new(k as nat, |i: int| of(0)),
            decreases count - k,
        {
            block.push(of(0));
            assert(block@ =~= Seq::new(k as nat + 1, |i: int| of(0)));
            k = k + 1;
        }
        let used: usize = if p.max_voices < MAX_VOICES {
            p.max_voices
        } else {
            MAX_VOICES
        };
        let ghost mid = *self;
        let mut i: usize = 0;
        while i < used
            invariant
                i <= used <= MAX_VOICES,
                curve::gives_curves(f),
                self.wf(),
                m == modulation(f, old(self).lfo, *p),
                mid.tones@ == old(self).tones@,
                self.lfo == mid.lfo,
                self.bass == old(self).bass,
                self.kit == old(self).kit,
                block@.len() == count,
                block@ == ensemble(
                    f,
                    old(self).tones@,
                    old(seats)@,
                    *p,
                    m,
                    count as nat,
                    i as int,
                ),
                forall|j: int|
                    0 <= j < MAX_VOICES ==> (#[trigger] self.tones@[j], seats@[j]) == (if j < i {
                        seat_played(f, old(self).tones@[j], old(seats)@[j], *p, m, count as int)
                    } else {
                        (old(self).tones@[j], old(seats)@[j])
                    }),
            decreases used - i,
        {
            assert(self.tones@[i as int] == old(self).tones@[i as int]);
            self.tones[i].process_block(&mut seats[i], &mut block, p, &m, f);
            i = i + 1;
        }
        block
    }
}

/// Whether a sample rate leaves room below Nyquist for oscillators and filters.
pub open spec fn workable(sample_rate: Single) -> bool {
    &&& of(0).at_most(osc::ceiling(sample_rate))
    &&& of(0x4120_0000).at_most(filter::cutoff_ceiling(sample_rate))
}

/// A silent voice with its own seeds, its filter open to a thousand Hz.
pub open spec fn fresh_tone<F: Fn(Curve, Single) -> Single>(
    t: Tone,
    f: F,
    sample_rate: Single,
    seed: u64,
    coefs: AdsrCoefs,
) -> bool {
    &&& t.fresh(sample_rate, seed, coefs)
    &&& exists|raw: Filter| #[trigger]
        raw.fresh(sample_rate, of(0), SvfMode::Lowpass, Slope::Db12) && t.filter == raw.at_cutoff(
            f,
            of(0x447A_0000),
            of(0),
        )
}

fn new_tone<F: Fn(Curve, Single) -> Single + Copy>(sample_rate: Single, seed: u64, coefs: AdsrCoefs, f: F) -> (t:
    Tone)
    requires
        workable(sample_rate),
        seed < 0x1000_0000_0000_0000,
        curve::gives_curves(f),
    ensures
        tone_ready(t),
        !t.active(),
        fresh_tone(t, f, sample_rate, seed, coefs),
{
    let mut t: Tone = Tone::new(sample_rate, seed, coefs, of(0));
    t.filter.tune_to(of(0x447A_0000), of(0), f);
    t
}

/// The default times of an envelope.
pub open spec fn default_times() -> AdsrSettings {
    AdsrSettings {
        attack: of(0x3BA3_D70A),
        decay: of(0x3E4C_CCCD),
        sustain: of(0x3F33_3333),
        release: of(0x3E99_999A),
    }
}

impl Band {
    /// A band that has played nothing yet, every player with a seed of its own.
    #[verifier::opaque]
    pub open spec fn fresh<F: Fn(Curve, Single) -> Single>(self, f: F, sample_rate: Single) -> bool {
        let coefs = AdsrCoefs::of_times(f, default_times(), sample_rate);
        let amp = AdsrCoefs::of_times(f, bass::amp_settings(), sample_rate);
        &&& forall|i: int|
            0 <= i < MAX_VOICES ==> fresh_tone(
                #[trigger] self.tones@[i],
                f,
                sample_rate,
                (i + 1) as u64,
                coefs,
            )
        &&& self.lfo.fresh(sample_rate, 0xA5A5)
        &&& self.bass.fresh(sample_rate, 0xB455_5EED, amp, coefs)
        &&& self.bass.current_hz == note::frequency(f, of(0x4220_0000))
        &&& exists|raw: Filter| #[trigger]
            raw.fresh(sample_rate, of(0), SvfMode::Lowpass, Slope::Db24) && self.bass.filter
                == raw.at_cutoff(f, of(0x447A_0000), of(0))
        &&& self.kit.fresh(sample_rate, 0xD61B_5EED)
    }

    /// A silent band. No two of its noises are the same.
    pub fn new<F: Fn(Curve, Single) -> Single + Copy>(sample_rate: Single, f: F) -> (b: Band)
        requires
            workable(sample_rate),
            curve::gives_curves(f),
        ensures
            b.wf(),
            b.fresh(f, sample_rate),
            !kit::rings(b.kit.voices@),
    {
        proof {
            reveal(Band::fresh);
        }
        let defaults: AdsrSettings = AdsrSettings::default();
        let coefs: AdsrCoefs = AdsrCoefs::from_times(f, &defaults, sample_rate);
        let mut tones: Vec<Tone> = Vec::with_capacity(MAX_VOICES);
        let mut i: usize = 0;
        while i < MAX_VOICES
            invariant
                i <= MAX_VOICES,
                workable(sample_rate),
                curve::gives_curves(f),
                tones@.len() == i,
                forall|k: int|
                    0 <= k < i ==> {
                        let t = #[trigger] tones@[k];
                        &&& tone_ready(t)
                        &&& !t.active()
                        &&& fresh_tone(t, f, sample_rate, (k + 1) as u64, coefs)
                    },
            decreases MAX_VOICES - i,
        {
            tones.push(new_tone(sample_rate, i as u64 + 1, coefs, f));
            i = i + 1;
        }
        let amp: AdsrSettings = AdsrSettings {
            attack: of(0x3B44_9BA6),
            decay: of(0),
            sustain: of(0x3F80_0000),
            release: of(0x3C03_126F),
        };
        let mut bass: BassVoice = BassVoice::new(
            sample_rate,
            0xB455_5EED,
            AdsrCoefs::from_times(f, &amp, sample_rate),
            coefs,
            of(0),
            midi_to_hz(of(0x4220_0000), f),
        );
        bass.filter.tune_to(of(0x447A_0000), of(0), f);
        Band {
            tones,
            lfo: Lfo::new(sample_rate, 0xA5A5),
            bass,
            kit: Kit::new(sample_rate, 0xD61B_5EED),
        }
    }
}

impl Band {
    /// Reconfigures for a new sample rate.
    pub fn set_sample_rate<F: Fn(Curve, Single) -> Single + Copy>(&mut self, sample_rate: Single, f: F)
        requires
            old(self).wf(),
            workable(sample_rate),
            curve::gives_curves(f),
        ensures
            final(self).wf(),
            forall|i: int|
                0 <= i < MAX_VOICES ==> #[trigger] final(self).tones@[i]
                    == old(self).tones@[i].at_rate(sample_rate),
            final(self).lfo == (Lfo { sample_rate, ..old(self).lfo }),
            final(self).bass == old(self).bass.at_rate(f, sample_rate),
            forall|i: int|
                0 <= i < PAD_COUNT ==> #[trigger] final(self).kit.voices@[i] == (DrumVoice {
                    sample_rate: sample_rate.larger(of(0x3F80_0000)),
                    ..old(self).kit.voices@[i].silenced()
                }),
            !kit::rings(final(self).kit.voices@),
    {
        let mut i: usize = 0;
        while i < MAX_VOICES
            invariant
                i <= MAX_VOICES,
                workable(sample_rate),
                self.wf(),
                self.lfo == old(self).lfo,
                self.bass == old(self).bass,
                self.kit == old(self).kit,
                forall|k: int| i <= k < MAX_VOICES ==> self.tones@[k] == old(self).tones@[k],
                forall|k: int|
                    0 <= k < i ==> #[trigger] self.tones@[k] == old(self).tones@[k].at_rate(
                        sample_rate,
                    ),
            decreases MAX_VOICES - i,
        {
            self.tones[i].set_sample_rate(sample_rate);
            i = i + 1;
        }
        self.lfo.set_sample_rate(sample_rate);
        self.bass.set_sample_rate(sample_rate, f);
        self.kit.set_sample_rate(sample_rate);
    }
}

/// An order touches one instrument: one to a voice leaves the bass and the drums as they
/// are, one to a pad the voices and the bass, and one to the bass the rest.
pub proof fn law_an_order_touches_one_instrument<F: Fn(Curve, Single) -> Single>(
    f: F,
    tones: Seq<Tone>,
    bass: BassVoice,
    pads: Seq<DrumVoice>,
    order: Order,
)
    ensures
        tones_obeyed(tones, order) != tones ==> bass.obeyed(order) == bass && kit::obeyed(
            f,
            pads,
            order,
        ) == pads,
        bass.obeyed(order) != bass ==> tones_obeyed(tones, order) == tones && kit::obeyed(
            f,
            pads,
            order,
        ) == pads,
        kit::obeyed(f, pads, order) != pads ==> tones_obeyed(tones, order) == tones
            && bass.obeyed(order) == bass,
{
}

/// The modulation runs on through any note unless a patch asks otherwise, and never
/// changes its rate or its random values on account of one.
pub proof fn law_only_an_asking_patch_restarts_the_modulation(
    l: Lfo,
    orders: Seq<Order>,
    n: int,
    p: Params,
)
    ensures
        !p.lfo_retrigger ==> lfo_after(l, orders, n, p) == l,
        !any_starts(orders, n) ==> lfo_after(l, orders, n, p) == l,
        lfo_after(l, orders, n, p) == (Lfo { phase: lfo_after(l, orders, n, p).phase, ..l }),
{
}

} // verus!
