//! The studio: the engine that decides, the band that plays, and the mixer.
//!
//! A callback begins with what waits in the queues, and then goes through its block in
//! chunks. Each chunk is sequenced, played, mixed, sent through the effects, and brought
//! out; at the end the callback publishes what the display shows.

use crate::band;
use crate::band::Band;
use crate::bass::BassVoice;
use crate::clock::{Clock, BLOCK};
use crate::compressor;
use crate::curve;
use crate::curve::Curve;
use crate::drums::kit;
use crate::drums::kit::DrumBuses;
use crate::drums::pad::PAD_COUNT;
use crate::drums::voice::DrumVoice;
use crate::engine;
use crate::engine::{Desk, Engine, EngineModel, Reductions};
use crate::event::EventQueue;
use crate::fx;
use crate::fx::FxChain;
use crate::lfo;
use crate::lfo::Lfo;
use crate::mixer;
use crate::mixer::Mixer;
use crate::order::Order;
use crate::output;
use crate::output::{chunk, downmix};
use crate::params::{of, Params, SharedParams, MAX_VOICES};
use crate::pool::Pool;
use crate::single::Single;
use crate::tone::Tone;
use crate::voice::Voice;
use std::mem::swap;
use vstd::prelude::*;

verus! {

/// The studio.
pub struct Studio {
    pub engine: Engine,
    pub band: Band,
    pub mixer: Mixer,
    /// The effects on the send.
    pub fx: FxChain,
    /// The drums of the chunk being rendered, if they play.
    pub drums: Option<DrumBuses>,
    /// The buffers that a chunk is rendered with.
    pub pool: Pool,
}

/// How many buffers a chunk ever has out at once, and some to spare.
pub const BUFFERS: usize = 40;

/// The drums of a chunk, to look at.
pub open spec fn drums_of<'a>(drums: Option<DrumBuses>) -> Option<&'a DrumBuses> {
    match drums {
        Some(b) => Some(&b),
        None => None,
    }
}

/// The band once it has carried out some orders.
#[verifier::ext_equal]
pub struct Told {
    pub tones: Seq<Tone>,
    pub lfo: Lfo,
    pub bass: BassVoice,
    pub pads: Seq<DrumVoice>,
}

/// What a band is told by some orders.
#[verifier::opaque]
pub open spec fn told<F: Fn(Curve, Single) -> Single>(f: F, b: Band, orders: Seq<Order>, p: Params) -> Told {
    let n = orders.len() as int;
    Told {
        tones: band::tones_after(b.tones@, orders, n),
        lfo: band::lfo_after(b.lfo, orders, n, p),
        bass: band::bass_after(b.bass, orders, n),
        pads: band::drums_after(f, b.kit.voices@, orders, n),
    }
}

impl Told {
    /// What the voices play over a chunk.
    #[verifier::opaque]
    pub open spec fn voices<F: Fn(Curve, Single) -> Single>(
        self,
        f: F,
        seats: Seq<Voice>,
        p: Params,
        count: nat,
    ) -> Seq<Single> {
        band::ensemble(
            f,
            self.tones,
            seats,
            p,
            band::modulation(f, self.lfo, p),
            count,
            band::seats_used(p),
        )
    }

    /// What the bass plays over a chunk; nothing while it is switched off.
    #[verifier::opaque]
    pub open spec fn line<F: Fn(Curve, Single) -> Single>(self, f: F, p: Params, count: nat) -> Option<
        Seq<Single>,
    > {
        if p.bass_enabled {
            Some(self.bass.readied(f, p.bass).block(f, p.bass, count as int))
        } else {
            None
        }
    }

    /// Whether some drum buses are what the pads play over a chunk.
    #[verifier::opaque]
    pub open spec fn beats<F: Fn(Curve, Single) -> Single>(
        self,
        f: F,
        drums: Option<DrumBuses>,
        p: Params,
        count: nat,
    ) -> bool {
        if kit::rings(self.pads) {
            drums matches Some(b) && {
                let n = count as int;
                &&& b.dry_l@ == kit::bus(f, self.pads, kit::bus_gains(p, true, false), p.drum_level, n)
                &&& b.dry_r@ == kit::bus(f, self.pads, kit::bus_gains(p, false, false), p.drum_level, n)
                &&& b.send_l@ == kit::bus(f, self.pads, kit::bus_gains(p, true, true), p.drum_level, n)
                &&& b.send_r@ == kit::bus(f, self.pads, kit::bus_gains(p, false, true), p.drum_level, n)
                &&& b.kick@ == kit::kick_bus(f, self.pads, p.drum_level, n)
            }
        } else {
            drums is None
        }
    }

    /// The band after a chunk, its seats with it.
    #[verifier::opaque]
    pub open spec fn played<F: Fn(Curve, Single) -> Single>(
        self,
        f: F,
        after: Band,
        seats: Seq<Voice>,
        seats_after: Seq<Voice>,
        p: Params,
        count: nat,
    ) -> bool {
        let m = band::modulation(f, self.lfo, p);
        let n = count as int;
        &&& forall|i: int|
            0 <= i < MAX_VOICES ==> (#[trigger] after.tones@[i], seats_after[i]) == (if i
                < band::seats_used(p) {
                band::seat_played(f, self.tones[i], seats[i], p, m, n)
            } else {
                (self.tones[i], seats[i])
            })
        &&& after.lfo@ == self.lfo@.skipped(self.lfo.dt, n)
        &&& after.lfo.dt == self.lfo.dt
        &&& after.bass == (if p.bass_enabled {
            self.bass.readied(f, p.bass).played(f, p.bass, n)
        } else {
            self.bass
        })
        &&& forall|i: int|
            0 <= i < PAD_COUNT ==> #[trigger] after.kit.voices@[i] == (if kit::rings(self.pads) {
                self.pads[i].played(n)
            } else {
                self.pads[i]
            })
    }
}

/// What the instruments hand the mixer.
pub struct Stems {
    pub block: Vec<Single>,
    pub line: Option<Vec<Single>>,
    pub drums: Option<DrumBuses>,
}

impl Band {
    /// Plays a chunk: carries out the orders, then renders every instrument.
    pub fn perform<F: Fn(Curve, Single) -> Single + Copy>(
        &mut self,
        orders: &Vec<Order>,
        seats: &mut [Voice; MAX_VOICES],
        count: usize,
        p: &Params,
        f: F,
        pool: &mut Pool,
    ) -> (stems: Stems)
        requires
            old(self).wf(),
            curve::gives_curves(f),
        ensures
            final(self).wf(),
            ({
                let t = told(f, *old(self), orders@, *p);
                &&& t.played(f, *final(self), old(seats)@, final(seats)@, *p, count as nat)
                &&& stems.block@ == t.voices(f, old(seats)@, *p, count as nat)
                &&& compressor::key_of(
                    match stems.line {
                        Some(l) => Some(&l),
                        None => None,
                    },
                ) == t.line(f, *p, count as nat)
                &&& t.beats(f, stems.drums, *p, count as nat)
            }),
            mixer::fits(drums_of(stems.drums), count as nat),
            stems.block@.len() == count,
            stems.line matches Some(l) ==> l@.len() == count,
    {
        proof {
            reveal(Told::voices);
            reveal(Told::line);
            reveal(Told::beats);
            reveal(Told::played);
            reveal(told);
        }
        self.carry_out(orders, p, f);
        let drums: Option<DrumBuses> = self.kit.render(count, p, f, pool);
        let block: Vec<Single> = self.play(seats, count, p, f, pool);
        let line: Option<Vec<Single>> = if p.bass_enabled {
            Some(self.bass.process_block(count, &p.bass, f, pool))
        } else {
            None
        };
        Stems { block, line, drums }
    }
}

/// The engine and what it shares once a chunk is sequenced.
#[verifier::opaque]
pub open spec fn cued(e: Engine, shared: SharedParams, frames: int, p: Params) -> Desk {
    engine::desk(e, shared).sequenced(frames, p)
}

/// Whether a chunk has been played by a band that was told so, from seats as they were,
/// and mixed.
#[verifier::opaque]
pub open spec fn chunk_sounded<F: Fn(Curve, Single) -> Single>(
    f: F,
    t: Told,
    seats: Seq<Voice>,
    before: Studio,
    after: Studio,
    count: nat,
    p: Params,
) -> bool {
    &&& t.played(f, after.band, seats, after.engine.voices@, p, count)
    &&& t.beats(f, after.drums, p, count)
    &&& after.mixer.blended(
        f,
        before.mixer,
        t.voices(f, seats, p, count),
        t.line(f, p, count),
        drums_of(after.drums),
        p,
    )
    &&& after.mixer.left@.len() == count
    &&& mixer::fits(drums_of(after.drums), count)
    &&& after.fx == before.fx
}

/// Whether a chunk has been sequenced, played and mixed.
#[verifier::opaque]
pub open spec fn chunk_played<F: Fn(Curve, Single) -> Single>(
    f: F,
    before: (Studio, SharedParams),
    after: (Studio, SharedParams),
    count: nat,
    p: Params,
) -> bool {
    let d = cued(before.0.engine, before.1, count as int, p);
    &&& engine::same_knobs(before.1, after.1)
    &&& after.0.engine.events == before.0.engine.events
    &&& after.0.engine.sample_rate == before.0.engine.sample_rate
    &&& after.0.engine@ == (EngineModel {
        voices: after.0.engine.voices@,
        orders: Seq::empty(),
        ..d.engine
    })
    &&& engine::wire(after.1) == d.wire
    &&& chunk_sounded(
        f,
        told(f, before.0.band, d.engine.orders, p),
        d.engine.voices,
        before.0,
        after.0,
        count,
        p,
    )
}

/// Whether a mixed chunk has been sent through the effects and brought out. The tempo is
/// the clock's and not the patch's: under an external clock that is what the delay must
/// lock to.
#[verifier::opaque]
pub open spec fn chunk_finished<F: Fn(Curve, Single) -> Single>(
    f: F,
    before: Studio,
    after: Studio,
    p: Params,
) -> bool {
    &&& after.engine == before.engine
    &&& after.band == before.band
    &&& after.drums == before.drums
    &&& exists|wet: (Seq<Single>, Seq<Single>)|
        {
            &&& #[trigger] after.fx.processed(
                f,
                before.fx,
                (before.mixer.send_l@, before.mixer.send_r@),
                wet,
                p,
                before.engine.clock.tempo(p.steps_per_beat),
            )
            &&& after.mixer.brought_out(
                f,
                before.mixer,
                wet.0,
                wet.1,
                drums_of(before.drums),
                p,
            )
        }
}

/// Whether a chunk has been rendered.
pub open spec fn chunk_rendered<F: Fn(Curve, Single) -> Single>(
    f: F,
    before: (Studio, SharedParams),
    after: (Studio, SharedParams),
    count: nat,
    p: Params,
) -> bool {
    exists|mid: (Studio, SharedParams)|
        {
            &&& #[trigger] chunk_played(f, before, mid, count, p)
            &&& mid.1 == after.1
            &&& chunk_finished(f, mid.0, after.0, p)
        }
}

/// What a band has been told so far.
pub open spec fn heard(b: Band) -> Told {
    Told { tones: b.tones@, lfo: b.lfo, bass: b.bass, pads: b.kit.voices@ }
}

/// A band whose oscillator runs at a patch's rate.
pub open spec fn paced(b: Band, p: Params) -> Band {
    Band {
        lfo: Lfo {
            dt: lfo::pace(p.lfo_rate, b.lfo.sample_rate),
            ..b.lfo
        },
        ..b
    }
}

/// Whether a callback has begun on a patch: the engine has caught up with the control
/// side, and the band has carried out what it ordered.
#[verifier::opaque]
pub open spec fn block_begun<F: Fn(Curve, Single) -> Single>(
    f: F,
    before: (Studio, SharedParams),
    after: (Studio, SharedParams),
    p: Params,
) -> bool {
    let start = engine::desk(before.0.engine, before.1);
    let d = start.block_begun(engine::waiting(before.0.engine.events@), p);
    &&& before.1.reads(p)
    &&& p.in_range()
    &&& after.0.engine@ == (EngineModel { orders: Seq::empty(), ..d.engine })
    &&& engine::wire(after.1) == d.wire
    &&& engine::waiting(after.0.engine.events@) == start.block_leaves(
        engine::waiting(before.0.engine.events@),
        p,
    )
    &&& engine::rooms(after.0.engine.events@) == engine::rooms(before.0.engine.events@)
    &&& after.0.engine.sample_rate == before.0.engine.sample_rate
    &&& engine::same_knobs(before.1, after.1)
    &&& heard(after.0.band) == told(f, paced(before.0.band, p), d.engine.orders, p)
    &&& after.0.mixer == before.0.mixer.aimed(p)
    &&& after.0.fx == before.0.fx
    &&& after.0.drums == before.0.drums
}

/// Whether a callback has published what the display shows, and started the meter afresh.
#[verifier::opaque]
pub open spec fn block_ended(before: (Studio, SharedParams), after: (Studio, SharedParams)) -> bool {
    let (s, shared) = (before.0, after.1);
    &&& after.0.engine == s.engine
    &&& after.0.band == s.band
    &&& after.0.mixer == (Mixer { peak: of(0), ..s.mixer })
    &&& after.0.fx == s.fx
    &&& after.0.drums == s.drums
    &&& shared.output_peak@ == before.1.output_peak@.larger(s.mixer.peak)
    &&& shared.comp_synth_gr@ == s.mixer.comp_synth.gr_db
    &&& shared.comp_master_gr@ == s.mixer.comp_master.gr_db
    &&& shared.comp_bass_gr@ == s.mixer.comp_bass.gr_db
    &&& shared == (SharedParams {
        active_voices: engine::sounding(s.engine.voices@, MAX_VOICES as int) as u32,
        current_step: engine::shown(s.engine@.melody.position) as u32,
        drum_position: engine::shown(s.engine@.drums.drums.position) as u32,
        bass_step: engine::shown(s.engine@.bass.position) as u32,
        output_peak: shared.output_peak,
        comp_synth_gr: shared.comp_synth_gr,
        comp_master_gr: shared.comp_master_gr,
        comp_bass_gr: shared.comp_bass_gr,
        ..before.1
    })
}

/// What one callback goes through: the studio and what it shares, before each chunk and
/// after the last.
pub type Takes = Seq<(Studio, SharedParams)>;

/// How many frames a chunk of a callback has.
pub open spec fn chunk_len(frames: nat, i: int) -> nat {
    if (i + 1) * BLOCK <= frames {
        BLOCK as nat
    } else {
        (frames - i * BLOCK) as nat
    }
}

/// Whether one chunk of a callback took the studio from one take to the next, and left
/// its frames.
pub open spec fn take<F: Fn(Curve, Single) -> Single>(
    f: F,
    takes: Takes,
    out: (Seq<Single>, Seq<Single>),
    frames: nat,
    p: Params,
    i: int,
) -> bool {
    &&& chunk_rendered(f, takes[i], takes[i + 1], chunk_len(frames, i), p)
    &&& fx::pieces(out, i, frames as int) == (
        takes[i + 1].0.mixer.left@,
        takes[i + 1].0.mixer.right@,
    )
}

/// Whether a callback's chunks have all been rendered.
pub open spec fn rolled<F: Fn(Curve, Single) -> Single>(
    f: F,
    takes: Takes,
    out: (Seq<Single>, Seq<Single>),
    p: Params,
) -> bool {
    let frames = out.0.len();
    &&& out.1.len() == frames
    &&& takes.len() == fx::chunks(frames) + 1
    &&& forall|i: int| 0 <= i < fx::chunks(frames) ==> #[trigger] take(f, takes, out, frames, p, i)
}

/// Whether a callback has been rendered into two channels.
pub open spec fn rendered<F: Fn(Curve, Single) -> Single>(
    f: F,
    before: (Studio, SharedParams),
    after: (Studio, SharedParams),
    out: (Seq<Single>, Seq<Single>),
) -> bool {
    exists|takes: Takes, p: Params|
        {
            &&& #[trigger] rolled(f, takes, out, p)
            &&& block_begun(f, before, takes[0], p)
            &&& block_ended(takes.last(), after)
        }
}

/// Whether every frame of two channels is legal.
pub open spec fn all_legal(out: (Seq<Single>, Seq<Single>)) -> bool {
    &&& forall|i: int| 0 <= i < out.0.len() ==> output::in_legal_range(#[trigger] out.0[i])
    &&& forall|i: int| 0 <= i < out.1.len() ==> output::in_legal_range(#[trigger] out.1[i])
}

impl Studio {
    pub open spec fn wf(self) -> bool {
        &&& self.engine.wf()
        &&& self.band.wf()
        &&& self.mixer.wf()
        &&& self.fx.wf()
    }

    /// A silent studio that drains one event queue.
    pub fn new<F: Fn(Curve, Single) -> Single + Copy>(
        sample_rate: Single,
        shared: &mut SharedParams,
        events: EventQueue,
        f: F,
    ) -> (s: Studio)
        requires
            band::workable(sample_rate),
            events.wf(),
            curve::gives_curves(f),
        ensures
            s.wf(),
            s.engine.sample_rate == sample_rate,
            s.engine.events@ == seq![events],
            s.drums is None,
            s.band.fresh(f, sample_rate),
            s.fx.fresh(f, sample_rate),
            engine::same_knobs(*old(shared), *final(shared)),
            exists|p: Params|
                #![trigger old(shared).reads(p)]
                old(shared).reads(p) && {
                    let m = EngineModel::at_rest(sample_rate, *old(shared), p);
                    &&& s.engine@ == m
                    &&& engine::wire(*final(shared)) == engine::wire(*old(shared)).with_melody(
                        m.melody,
                    ).with_bass(m.bass)
                },
            exists|p: Params|
                #![trigger old(shared).reads(p)]
                old(shared).reads(p) && s.mixer.fresh(f, sample_rate, p),
    {
        let p: Params = shared.snapshot();
        let mixer: Mixer = Mixer::new(sample_rate, &p, f);
        Studio {
            engine: Engine::new(sample_rate, shared, events),
            band: Band::new(sample_rate, f),
            mixer,
            fx: FxChain::new(sample_rate, f),
            drums: None,
            pool: Pool::new(BUFFERS, BLOCK),
        }
    }

    /// Reconfigures everything for a new sample rate. Not for the callback: call it
    /// from the setup path.
    pub fn set_sample_rate<F: Fn(Curve, Single) -> Single + Copy>(&mut self, sample_rate: Single, f: F)
        requires
            old(self).wf(),
            band::workable(sample_rate),
            curve::gives_curves(f),
        ensures
            final(self).wf(),
            final(self).engine.sample_rate == sample_rate,
            final(self).engine@ == (EngineModel {
                clock: Clock {
                    sample_rate,
                    tick_estimate_valid: false,
                    ..old(self).engine@.clock
                },
                ..old(self).engine@
            }),
            final(self).engine.events == old(self).engine.events,
            final(self).drums == old(self).drums,
            forall|i: int|
                0 <= i < MAX_VOICES ==> #[trigger] final(self).band.tones@[i]
                    == old(self).band.tones@[i].at_rate(sample_rate),
            final(self).band.lfo == (Lfo { sample_rate, ..old(self).band.lfo }),
            final(self).band.bass == old(self).band.bass.at_rate(f, sample_rate),
            forall|i: int|
                0 <= i < PAD_COUNT ==> #[trigger] final(self).band.kit.voices@[i] == (DrumVoice {
                    sample_rate: sample_rate.larger(of(0x3F80_0000)),
                    ..old(self).band.kit.voices@[i].silenced()
                }),
            final(self).mixer == old(self).mixer.at_rate(f, sample_rate),
            final(self).fx.fresh(f, sample_rate),
    {
        self.engine.set_sample_rate(sample_rate);
        self.band.set_sample_rate(sample_rate, f);
        self.mixer.set_sample_rate(sample_rate, f);
        self.fx.set_sample_rate(sample_rate, f);
    }

    /// After a callback's chunks: publishes what the display shows, and starts the
    /// meter afresh.
    pub fn publish_telemetry(&mut self, shared: &mut SharedParams)
        requires
            old(self).wf(),
        ensures
            final(self).wf(),
            block_ended((*old(self), *old(shared)), (*final(self), *final(shared))),
    {
        proof {
            reveal(block_ended);
        }
        let reductions: Reductions = Reductions {
            synth: self.mixer.comp_synth.gain_reduction_db(),
            master: self.mixer.comp_master.gain_reduction_db(),
            bass: self.mixer.comp_bass.gain_reduction_db(),
        };
        let peak: Single = self.mixer.take_peak();
        self.engine.publish_telemetry(shared, peak, reductions);
    }

    /// Everything once per callback, before any audio. What the engine orders is carried
    /// out at once, so that nothing is left over where no audio follows.
    pub fn begin_block<F: Fn(Curve, Single) -> Single + Copy>(
        &mut self,
        shared: &mut SharedParams,
        f: F,
    ) -> (p: Params)
        requires
            old(self).wf(),
            curve::gives_curves(f),
        ensures
            final(self).wf(),
            p.in_range(),
            block_begun(f, (*old(self), *old(shared)), (*final(self), *final(shared)), p),
    {
        proof {
            reveal(block_begun);
            reveal(told);
        }
        let p: Params = self.engine.begin_block(shared);
        self.band.lfo.set_rate(p.lfo_rate);
        assert(self.band == paced(old(self).band, p));
        let orders: Vec<Order> = self.engine.take_orders();
        self.band.carry_out(&orders, &p, f);
        self.engine.reuse(orders);
        self.mixer.aim(&p);
        p
    }

    /// Sequences a chunk, and takes the orders it gives.
    fn cue(&mut self, shared: &mut SharedParams, count: usize, p: &Params) -> (orders: Vec<Order>)
        requires
            old(self).wf(),
            engine::playable(*p),
        ensures
            final(self).wf(),
            engine::same_knobs(*old(shared), *final(shared)),
            final(self).engine.events == old(self).engine.events,
            final(self).engine.sample_rate == old(self).engine.sample_rate,
            final(self).band == old(self).band,
            final(self).mixer == old(self).mixer,
            final(self).fx == old(self).fx,
            ({
                let d = cued(old(self).engine, *old(shared), count as int, *p);
                &&& orders@ == d.engine.orders
                &&& final(self).engine@ == (EngineModel { orders: Seq::empty(), ..d.engine })
                &&& engine::wire(*final(shared)) == d.wire
            }),
    {
        proof {
            reveal(cued);
        }
        self.engine.sequence_chunk(shared, count, p);
        self.engine.take_orders()
    }

    /// Plays a chunk on some orders, and mixes it.
    fn sound<F: Fn(Curve, Single) -> Single + Copy>(
        &mut self,
        orders: &Vec<Order>,
        count: usize,
        p: &Params,
        f: F,
    )
        requires
            old(self).wf(),
            curve::gives_curves(f),
        ensures
            final(self).wf(),
            final(self).engine.events == old(self).engine.events,
            final(self).engine.sample_rate == old(self).engine.sample_rate,
            final(self).engine@ == (EngineModel {
                voices: final(self).engine.voices@,
                ..old(self).engine@
            }),
            chunk_sounded(
                f,
                told(f, old(self).band, orders@, *p),
                old(self).engine.voices@,
                *old(self),
                *final(self),
                count as nat,
                *p,
            ),
    {
        let ghost before = self.engine;
        let stems: Stems = self.band.perform(
            orders,
            &mut self.engine.voices,
            count,
            p,
            f,
            &mut self.pool,
        );
        assert(self.engine@ =~= (EngineModel { voices: self.engine.voices@, ..before@ }));
        let Stems { block, line, mut drums } = stems;
        self.mixer.mix(&block, line.as_ref(), drums.as_ref(), p, f, &mut self.pool);
        self.pool.give(block);
        self.pool.give_any(line);
        swap(&mut self.drums, &mut drums);
        match drums {
            Some(b) => b.give_back(&mut self.pool),
            None => {},
        }
        assert(chunk_sounded(
            f,
            told(f, old(self).band, orders@, *p),
            old(self).engine.voices@,
            *old(self),
            *self,
            count as nat,
            *p,
        )) by {
            reveal(chunk_sounded);
        }
    }

    /// Plays a chunk up to the effects: sequences it, has the band carry out what the
    /// engine orders, plays every instrument, and mixes them.
    fn play_chunk<F: Fn(Curve, Single) -> Single + Copy>(
        &mut self,
        shared: &mut SharedParams,
        count: usize,
        p: &Params,
        f: F,
    )
        requires
            old(self).wf(),
            engine::playable(*p),
            curve::gives_curves(f),
        ensures
            final(self).wf(),
            final(self).mixer.left@.len() == count,
            mixer::fits(drums_of(final(self).drums), count as nat),
            chunk_played(
                f,
                (*old(self), *old(shared)),
                (*final(self), *final(shared)),
                count as nat,
                *p,
            ),
    {
        let orders: Vec<Order> = self.cue(shared, count, p);
        self.sound(&orders, count, p, f);
        self.engine.reuse(orders);
        proof {
            reveal(chunk_sounded);
            reveal(chunk_played);
        }
    }

    /// Finishes a chunk: sends it through the effects, and leaves it in the mixer, fit for
    /// the device.
    fn finish_chunk<F: Fn(Curve, Single) -> Single + Copy>(&mut self, p: &Params, f: F)
        requires
            old(self).wf(),
            curve::gives_curves(f),
            mixer::fits(drums_of(old(self).drums), old(self).mixer.left@.len()),
        ensures
            final(self).wf(),
            final(self).mixer.left@.len() == old(self).mixer.left@.len(),
            chunk_finished(f, *old(self), *final(self), *p),
            all_legal((final(self).mixer.left@, final(self).mixer.right@)),
    {
        let tempo: Single = self.engine.clock.tempo_bpm(p.steps_per_beat);
        let mut wet_l: Vec<Single> = mixer::copy_of(&self.mixer.send_l, &mut self.pool);
        let mut wet_r: Vec<Single> = mixer::copy_of(&self.mixer.send_r, &mut self.pool);
        self.fx.process_block(&mut wet_l, &mut wet_r, p, tempo, f);
        let drums: Option<&DrumBuses> = self.drums.as_ref();
        assert(drums == drums_of(old(self).drums));
        self.mixer.finish(&wet_l, &wet_r, drums, p, f, &mut self.pool);
        assert forall|i: int| 0 <= i < self.mixer.right@.len() implies output::in_legal_range(
            #[trigger] self.mixer.right@[i],
        ) by {
            assert(output::in_legal_range(self.mixer.left@[i]));
        }
        let ghost wet = (wet_l@, wet_r@);
        self.pool.give(wet_l);
        self.pool.give(wet_r);
        proof {
            let send = (old(self).mixer.send_l@, old(self).mixer.send_r@);
            assert(self.fx.processed(f, old(self).fx, send, wet, *p, tempo));
            assert(chunk_finished(f, *old(self), *self, *p)) by {
                reveal(chunk_finished);
            }
        }
    }

    /// Renders one chunk into the mixer's two channels.
    pub fn render_chunk<F: Fn(Curve, Single) -> Single + Copy>(
        &mut self,
        shared: &mut SharedParams,
        count: usize,
        p: &Params,
        f: F,
    )
        requires
            old(self).wf(),
            engine::playable(*p),
            curve::gives_curves(f),
        ensures
            final(self).wf(),
            final(self).mixer.left@.len() == count,
            chunk_rendered(
                f,
                (*old(self), *old(shared)),
                (*final(self), *final(shared)),
                count as nat,
                *p,
            ),
            all_legal((final(self).mixer.left@, final(self).mixer.right@)),
    {
        self.play_chunk(shared, count, p, f);
        let ghost mid = (*self, *shared);
        self.finish_chunk(p, f);
        assert(chunk_played(f, (*old(self), *old(shared)), mid, count as nat, *p));
    }

    /// Renders a callback of any length, and lists its frames: folded into one channel, or
    /// in turn. What the two channels hold is for proofs alone.
    fn render<F: Fn(Curve, Single) -> Single + Copy>(
        &mut self,
        shared: &mut SharedParams,
        frames: usize,
        stereo: bool,
        out: &mut Vec<Single>,
        f: F,
    ) -> (both: Ghost<(Seq<Single>, Seq<Single>)>)
        requires
            old(self).wf(),
            curve::gives_curves(f),
        ensures
            final(self).wf(),
            both@.0.len() == frames,
            both@.1.len() == frames,
            rendered(
                f,
                (*old(self), *old(shared)),
                (*final(self), *final(shared)),
                both@,
            ),
            all_legal(both@),
            final(out)@ == listed(both@, stereo),
    {
        let p: Params = self.begin_block(shared, f);
        proof {
            engine::law_settings_in_range_are_playable(p);
        }
        let ghost mut takes: Takes = seq![(*self, *shared)];
        let ghost mut both: (Seq<Single>, Seq<Single>) = (Seq::empty(), Seq::empty());
        let mut done: usize = 0;
        out.clear();
        assert(out@ =~= listed(both, stereo));
        while done < frames
            invariant
                self.wf(),
                curve::gives_curves(f),
                engine::playable(p),
                done == both.0.len() <= frames,
                both.1.len() == both.0.len(),
                out@ == listed(both, stereo),
                takes.len() >= 1,
                takes.last() == (*self, *shared),
                block_begun(f, (*old(self), *old(shared)), takes[0], p),
                done == (if (takes.len() - 1) * BLOCK <= frames {
                    (takes.len() - 1) * BLOCK
                } else {
                    frames as int
                }),
                takes.len() >= 2 ==> (takes.len() - 2) * BLOCK < frames,
                all_legal(both),
                forall|i: int|
                    0 <= i < takes.len() - 1 ==> #[trigger] take(
                        f,
                        takes,
                        both,
                        frames as nat,
                        p,
                        i,
                    ),
            decreases frames - done,
        {
            let count: usize = chunk(frames - done);
            let ghost k = takes.len() - 1;
            let ghost before = both;
            self.render_chunk(shared, count, &p, f);
            list(out, &self.mixer.left, &self.mixer.right, stereo);
            proof {
                let new = (self.mixer.left@, self.mixer.right@);
                assert(all_legal(new));
                both = (both.0 + new.0, both.1 + new.1);
                lemma_listed_joins(before, new, stereo);
                assert(forall|i: int|
                    k * BLOCK <= i < both.0.len() ==> #[trigger] both.0[i] == new.0[i - k * BLOCK]);
                assert(forall|i: int|
                    k * BLOCK <= i < both.1.len() ==> #[trigger] both.1[i] == new.1[i - k
                        * BLOCK]);
                let earlier = takes;
                takes = takes.push((*self, *shared));
                lemma_next_take(f, earlier, takes, before, both, frames as nat, p, k);
            }
            done = done + count;
        }
        proof {
            fx::lemma_chunks(takes.len() - 1, frames as nat);
            assert(rolled(f, takes, both, p));
        }
        self.publish_telemetry(shared);
        Ghost(both)
    }

    /// Renders a callback as mono audio, in place of what the buffer holds.
    pub fn process<F: Fn(Curve, Single) -> Single + Copy>(
        &mut self,
        shared: &mut SharedParams,
        frames: usize,
        out: &mut Vec<Single>,
        f: F,
    )
        requires
            old(self).wf(),
            curve::gives_curves(f),
        ensures
            final(self).wf(),
            exists|both: (Seq<Single>, Seq<Single>)|
                {
                    &&& #[trigger] rendered(
                        f,
                        (*old(self), *old(shared)),
                        (*final(self), *final(shared)),
                        both,
                    )
                    &&& all_legal(both)
                    &&& both.0.len() == frames
                    &&& final(out)@ == folded(both)
                },
    {
        let _both: Ghost<(Seq<Single>, Seq<Single>)> = self.render(shared, frames, false, out, f);
    }

    /// Renders a callback as interleaved stereo audio, in place of what the buffer holds.
    pub fn process_stereo_interleaved<F: Fn(Curve, Single) -> Single + Copy>(
        &mut self,
        shared: &mut SharedParams,
        frames: usize,
        out: &mut Vec<Single>,
        f: F,
    )
        requires
            old(self).wf(),
            curve::gives_curves(f),
        ensures
            final(self).wf(),
            exists|both: (Seq<Single>, Seq<Single>)|
                {
                    &&& #[trigger] rendered(
                        f,
                        (*old(self), *old(shared)),
                        (*final(self), *final(shared)),
                        both,
                    )
                    &&& all_legal(both)
                    &&& both.0.len() == frames
                    &&& final(out)@ == woven(both)
                },
    {
        let _both: Ghost<(Seq<Single>, Seq<Single>)> = self.render(shared, frames, true, out, f);
    }
}

/// Two channels folded into one.
pub open spec fn folded(both: (Seq<Single>, Seq<Single>)) -> Seq<Single> {
    Seq::new(both.0.len(), |i: int| both.0[i].sum(both.1[i]).product(of(0x3F00_0000)))
}

/// Two channels, sample by sample in turn.
pub open spec fn woven(both: (Seq<Single>, Seq<Single>)) -> Seq<Single> {
    Seq::new(
        2 * both.0.len(),
        |i: int|
            if i % 2 == 0 {
                both.0[i / 2]
            } else {
                both.1[i / 2]
            },
    )
}

/// Two channels as a device wants them: in turn, or folded into one.
pub open spec fn listed(both: (Seq<Single>, Seq<Single>), stereo: bool) -> Seq<Single> {
    if stereo {
        woven(both)
    } else {
        folded(both)
    }
}

/// Two stretches listed one after the other are listed as one.
proof fn lemma_listed_joins(
    a: (Seq<Single>, Seq<Single>),
    b: (Seq<Single>, Seq<Single>),
    stereo: bool,
)
    requires
        a.0.len() == a.1.len(),
        b.0.len() == b.1.len(),
    ensures
        listed((a.0 + b.0, a.1 + b.1), stereo) == listed(a, stereo) + listed(b, stereo),
{
    assert(listed((a.0 + b.0, a.1 + b.1), stereo) =~= listed(a, stereo) + listed(b, stereo));
}

/// Adds the frames of a chunk to a list.
fn list(out: &mut Vec<Single>, left: &Vec<Single>, right: &Vec<Single>, stereo: bool)
    requires
        left@.len() == right@.len(),
    ensures
        final(out)@ == old(out)@ + listed((left@, right@), stereo),
{
    let mut i: usize = 0;
    assert(out@ =~= old(out)@ + listed((left@.take(0), right@.take(0)), stereo));
    while i < left.len()
        invariant
            i <= left@.len() == right@.len(),
            out@ == old(out)@ + listed((left@.take(i as int), right@.take(i as int)), stereo),
        decreases left@.len() - i,
    {
        if stereo {
            out.push(left[i]);
            out.push(right[i]);
        } else {
            out.push(downmix(left[i], right[i]));
        }
        i = i + 1;
        assert(out@ =~= old(out)@ + listed(
            (left@.take(i as int), right@.take(i as int)),
            stereo,
        ));
    }
    assert(left@.take(left@.len() as int) =~= left@);
    assert(right@.take(right@.len() as int) =~= right@);
}

/// The takes of a callback with one more chunk.
proof fn lemma_next_take<F: Fn(Curve, Single) -> Single>(
    f: F,
    earlier: Takes,
    takes: Takes,
    before: (Seq<Single>, Seq<Single>),
    out: (Seq<Single>, Seq<Single>),
    frames: nat,
    p: Params,
    k: int,
)
    requires
        earlier.len() == k + 1,
        k >= 0,
        takes == earlier.push(takes.last()),
        takes.len() == k + 2,
        k * BLOCK < frames,
        before.0.len() == k * BLOCK,
        before.1.len() == k * BLOCK,
        out.0 == before.0 + takes.last().0.mixer.left@,
        out.1 == before.1 + takes.last().0.mixer.right@,
        takes.last().0.mixer.left@.len() == chunk_len(frames, k),
        takes.last().0.mixer.right@.len() == chunk_len(frames, k),
        chunk_rendered(f, earlier[k], takes.last(), chunk_len(frames, k), p),
        forall|i: int| 0 <= i < k ==> #[trigger] take(f, earlier, before, frames, p, i),
    ensures
        forall|i: int| 0 <= i <= k ==> #[trigger] take(f, takes, out, frames, p, i),
{
    let len = frames as int;
    assert(fx::piece(out.0, k, len) =~= takes.last().0.mixer.left@);
    assert(fx::piece(out.1, k, len) =~= takes.last().0.mixer.right@);
    assert(takes[k] == earlier[k]);
    assert(take(f, takes, out, frames, p, k));
    assert forall|i: int| 0 <= i <= k implies #[trigger] take(f, takes, out, frames, p, i) by {
        if i < k {
            assert(take(f, earlier, before, frames, p, i));
            assert((i + 1) * BLOCK <= k * BLOCK) by (nonlinear_arith)
                requires
                    i < k,
            ;
            assert(takes[i] == earlier[i]);
            assert(takes[i + 1] == earlier[i + 1]);
            assert(fx::piece(out.0, i, len) =~= fx::piece(before.0, i, len));
            assert(fx::piece(out.1, i, len) =~= fx::piece(before.1, i, len));
        }
    }
}

/// With both effects at zero the send comes back as it went, to the bit: a chunk is brought
/// out as if there were no effects.
pub proof fn law_a_dry_studio_hears_no_effects<F: Fn(Curve, Single) -> Single>(
    f: F,
    before: Studio,
    after: Studio,
    p: Params,
)
    requires
        chunk_finished(f, before, after, p),
        p.delay_mix.magnitude() == 0,
        p.reverb_mix.magnitude() == 0,
        before.fx.primed ==> fx::dry_patch(before.fx, p),
    ensures
        after.mixer.brought_out(
            f,
            before.mixer,
            before.mixer.send_l@,
            before.mixer.send_r@,
            drums_of(before.drums),
            p,
        ),
{
    reveal(chunk_finished);
    let send = (before.mixer.send_l@, before.mixer.send_r@);
    let tempo = before.engine.clock.tempo(p.steps_per_beat);
    let wet = choose|wet: (Seq<Single>, Seq<Single>)|
        {
            &&& #[trigger] after.fx.processed(f, before.fx, send, wet, p, tempo)
            &&& after.mixer.brought_out(
                f,
                before.mixer,
                wet.0,
                wet.1,
                drums_of(before.drums),
                p,
            )
        };
    fx::law_a_dry_patch_leaves_the_signal_alone(f, before.fx, after.fx, send, wet, p, tempo);
}

/// Without drums and effects the output is mono: a chunk comes out the same on both sides.
pub proof fn law_a_dry_studio_without_drums_is_mono<F: Fn(Curve, Single) -> Single>(
    f: F,
    before: (Studio, SharedParams),
    mid: (Studio, SharedParams),
    after: Studio,
    count: nat,
    p: Params,
)
    requires
        chunk_played(f, before, mid, count, p),
        chunk_finished(f, mid.0, after, p),
        mid.0.drums is None,
        p.delay_mix.magnitude() == 0,
        p.reverb_mix.magnitude() == 0,
        mid.0.fx.primed ==> fx::dry_patch(mid.0.fx, p),
    ensures
        after.mixer.left@ == after.mixer.right@,
{
    reveal(Mixer::brought_out);
    law_a_dry_studio_hears_no_effects(f, mid.0, after, p);
    assert(mid.0.mixer.left@ == mid.0.mixer.right@ && mid.0.mixer.send_l@ == mid.0.mixer.send_r@)
        by {
        reveal(chunk_played);
        reveal(chunk_sounded);
        reveal(Mixer::blended);
        let d = cued(before.0.engine, before.1, count as int, p);
        let t = told(f, before.0.band, d.engine.orders, p);
        let block = t.voices(f, d.engine.voices, p, count);
        mixer::law_without_drums_the_mix_is_mono(f, before.0.mixer, block, t.line(f, p, count), p);
        assert(mid.0.mixer.on_desk() == before.0.mixer.mixed(
            f,
            block,
            t.line(f, p, count),
            None,
            p,
        ));
    }
    mixer::law_a_mono_mix_stays_mono(f, mid.0.mixer, mid.0.mixer.send_l@, None, p);
}

/// A callback of no frames renders nothing: it begins and ends, and all that is in between
/// stays as it is.
pub proof fn law_an_empty_callback_renders_nothing<F: Fn(Curve, Single) -> Single>(
    f: F,
    before: (Studio, SharedParams),
    after: (Studio, SharedParams),
    out: (Seq<Single>, Seq<Single>),
)
    requires
        rendered(f, before, after, out),
        out.0.len() == 0,
    ensures
        exists|mid: (Studio, SharedParams), p: Params| #[trigger]
            block_begun(f, before, mid, p) && block_ended(mid, after),
{
    let (takes, p) = choose|takes: Takes, p: Params|
        {
            &&& #[trigger] rolled(f, takes, out, p)
            &&& block_begun(f, before, takes[0], p)
            &&& block_ended(takes.last(), after)
        };
    assert(takes.len() == 1);
    assert(block_begun(f, before, takes[0], p));
}

} // verus!
