//! The mixer: every bus from the instruments to the device.
//!
//! A block is mixed in two steps, for the effects stand between them: they are an
//! insert on the send, and what they add comes back before the master compressor.

use crate::clock::BLOCK;
use crate::compressor;
use crate::compressor::Compressor;
use crate::curve;
use crate::curve::{smoothing_over, Curve};
use crate::drums::kit::DrumBuses;
use crate::output;
use crate::output::{add_return, bass_bus, finish, join, mix_in, sidechain, synth_bus, tap, DcBlocker};
use crate::params::{of, CompressorParams, Params, SidechainSource};
use crate::pool::Pool;
use crate::single::Single;
use crate::smooth::Smoothed;
use std::mem::swap;
use vstd::prelude::*;

verus! {

/// The mixer: its faders, its inserts, and the block being mixed.
#[derive(Debug, Clone)]
pub struct Mixer {
    pub master_gain: Smoothed,
    pub synth_gain: Smoothed,
    pub drum_gain: Smoothed,
    pub bass_gain: Smoothed,
    pub dc: DcBlocker,
    pub comp_synth: Compressor,
    pub comp_bass: Compressor,
    pub comp_master: Compressor,
    pub left: Vec<Single>,
    pub right: Vec<Single>,
    pub send_l: Vec<Single>,
    pub send_r: Vec<Single>,
    /// The loudest sample that has gone out.
    pub peak: Single,
}

/// The buses of a block before the effects.
#[verifier::ext_equal]
pub struct Mix {
    pub left: Seq<Single>,
    pub right: Seq<Single>,
    pub send_l: Seq<Single>,
    pub send_r: Seq<Single>,
}

/// So many samples of silence.
pub open spec fn silence(count: nat) -> Seq<Single> {
    Seq::new(count, |i: int| of(0))
}

/// What a compressor listens to, if not to its own input. Drums that do not play are
/// silence to it.
pub open spec fn key<'a>(source: SidechainSource, drums: Option<&'a DrumBuses>, count: nat) -> Option<
    Seq<Single>,
> {
    match drums {
        Some(b) => output::key_signal(source, b.dry_l@, b.dry_r@, b.kick@, count as int),
        None => output::key_signal(
            source,
            silence(count),
            silence(count),
            silence(count),
            count as int,
        ),
    }
}

/// The voices driven, blocked and at the bus level.
pub open spec fn synth_signal(dc: DcBlocker, block: Seq<Single>, drive: Single, gain: Single) -> Seq<Single> {
    Seq::new(
        block.len(),
        |i: int|
            output::blocker_after(dc, block, drive, i).passed(
                output::driven(block[i], drive),
            ).product(gain),
    )
}

/// The bass at its level.
pub open spec fn bass_signal(block: Seq<Single>, gain: Single) -> Seq<Single> {
    Seq::new(block.len(), |i: int| output::guarded(block[i].product(gain)))
}

/// A mono bus after its compressor.
pub open spec fn inserted<F: Fn(Curve, Single) -> Single>(
    f: F,
    c: Compressor,
    bus: Seq<Single>,
    key: Option<Seq<Single>>,
    p: CompressorParams,
) -> Seq<Single> {
    compressor::compressed(f, c, bus, bus, bus, key, p)
}

/// Whether the drums' buses are as long as the block.
pub open spec fn fits<'a>(drums: Option<&'a DrumBuses>, count: nat) -> bool {
    drums matches Some(b) ==> {
        &&& b.dry_l@.len() == count
        &&& b.dry_r@.len() == count
        &&& b.send_l@.len() == count
        &&& b.send_r@.len() == count
        &&& b.kick@.len() == count
    }
}

impl Mixer {
    /// The synth bus after its insert.
    pub open spec fn synth_bus<'a, F: Fn(Curve, Single) -> Single>(
        self,
        f: F,
        block: Seq<Single>,
        drums: Option<&'a DrumBuses>,
        p: Params,
    ) -> Seq<Single> {
        inserted(
            f,
            self.comp_synth,
            synth_signal(self.dc, block, p.drive, self.synth_gain.advanced().value),
            key(p.comp_synth.sidechain, drums, block.len()),
            p.comp_synth,
        )
    }

    /// The bass bus after its insert.
    pub open spec fn bass_bus<'a, F: Fn(Curve, Single) -> Single>(
        self,
        f: F,
        bass: Seq<Single>,
        drums: Option<&'a DrumBuses>,
        p: Params,
    ) -> Seq<Single> {
        inserted(
            f,
            self.comp_bass,
            bass_signal(bass, self.bass_gain.advanced().value),
            key(p.comp_bass.sidechain, drums, bass.len()),
            p.comp_bass,
        )
    }

    /// The buses of a block. Each insert stands before the send tap, so that the
    /// effects hear a bus that ducks duck. The drums join after the drive: a kick
    /// through the clipper is another instrument, and not a better one.
    pub open spec fn mixed<'a, F: Fn(Curve, Single) -> Single>(
        self,
        f: F,
        block: Seq<Single>,
        bass: Option<Seq<Single>>,
        drums: Option<&'a DrumBuses>,
        p: Params,
    ) -> Mix {
        let synth = self.synth_bus(f, block, drums, p);
        let send = output::levelled(synth, p.synth_send);
        let (bus, bus_send) = match bass {
            Some(b) => {
                let low = self.bass_bus(f, b, drums, p);
                (output::joined(synth, low), output::mixed(send, low, p.bass_send))
            },
            None => (synth, send),
        };
        match drums {
            Some(b) => {
                let gain = self.drum_gain.advanced().value;
                let to_send = gain.product(p.drum_send);
                Mix {
                    left: output::mixed(bus, b.dry_l@, gain),
                    right: output::mixed(bus, b.dry_r@, gain),
                    send_l: output::mixed(bus_send, b.send_l@, to_send),
                    send_r: output::mixed(bus_send, b.send_r@, to_send),
                }
            },
            None => Mix { left: bus, right: bus, send_l: bus_send, send_r: bus_send },
        }
    }

    /// The buses that are on the desk.
    pub open spec fn on_desk(self) -> Mix {
        Mix {
            left: self.left@,
            right: self.right@,
            send_l: self.send_l@,
            send_r: self.send_r@,
        }
    }

    /// A channel after the effects' return and before the master level.
    pub open spec fn glued<'a, F: Fn(Curve, Single) -> Single>(
        self,
        f: F,
        left_channel: bool,
        wet_l: Seq<Single>,
        wet_r: Seq<Single>,
        drums: Option<&'a DrumBuses>,
        p: Params,
    ) -> Seq<Single> {
        let l = output::returned(self.left@, wet_l, self.send_l@);
        let r = output::returned(self.right@, wet_r, self.send_r@);
        compressor::compressed(
            f,
            self.comp_master,
            if left_channel {
                l
            } else {
                r
            },
            l,
            r,
            key(p.comp_master.sidechain, drums, self.left@.len()),
            p.comp_master,
        )
    }

    /// Whether a block was mixed, with every fader a step on.
    #[verifier::opaque]
    pub open spec fn blended<'a, F: Fn(Curve, Single) -> Single>(
        self,
        f: F,
        old: Mixer,
        block: Seq<Single>,
        bass: Option<Seq<Single>>,
        drums: Option<&'a DrumBuses>,
        p: Params,
    ) -> bool {
        let bus = synth_signal(old.dc, block, p.drive, old.synth_gain.advanced().value);
        &&& self.on_desk() == old.mixed(f, block, bass, drums, p)
        &&& self == (Mixer {
            master_gain: old.master_gain.advanced(),
            synth_gain: old.synth_gain.advanced(),
            drum_gain: old.drum_gain.advanced(),
            bass_gain: old.bass_gain.advanced(),
            dc: output::blocker_after(old.dc, block, p.drive, block.len() as int),
            comp_synth: compressor::compressor_after(
                f,
                old.comp_synth,
                bus,
                bus,
                key(p.comp_synth.sidechain, drums, block.len()),
                p.comp_synth,
            ),
            comp_bass: match bass {
                Some(b) => {
                    let low = bass_signal(b, old.bass_gain.advanced().value);
                    compressor::compressor_after(
                        f,
                        old.comp_bass,
                        low,
                        low,
                        key(p.comp_bass.sidechain, drums, block.len()),
                        p.comp_bass,
                    )
                },
                None => old.comp_bass,
            },
            left: self.left,
            right: self.right,
            send_l: self.send_l,
            send_r: self.send_r,
            ..old
        })
    }

    /// Whether the block on the desk was brought out, and metered.
    #[verifier::opaque]
    pub open spec fn brought_out<'a, F: Fn(Curve, Single) -> Single>(
        self,
        f: F,
        old: Mixer,
        wet_l: Seq<Single>,
        wet_r: Seq<Single>,
        drums: Option<&'a DrumBuses>,
        p: Params,
    ) -> bool {
        &&& self.left@ == output::finished(
            old.glued(f, true, wet_l, wet_r, drums, p),
            old.master_gain.value,
        )
        &&& self.right@ == output::finished(
            old.glued(f, false, wet_l, wet_r, drums, p),
            old.master_gain.value,
        )
        &&& self == (Mixer {
            comp_master: compressor::compressor_after(
                f,
                old.comp_master,
                output::returned(old.left@, wet_l, old.send_l@),
                output::returned(old.right@, wet_r, old.send_r@),
                key(p.comp_master.sidechain, drums, old.left@.len()),
                p.comp_master,
            ),
            left: self.left,
            right: self.right,
            peak: output::metered(
                output::metered(old.peak, self.left@, self.left@.len() as int),
                self.right@,
                self.right@.len() as int,
            ),
            ..old
        })
    }

    /// An empty desk with its faders at a patch.
    #[verifier::opaque]
    pub open spec fn fresh<F: Fn(Curve, Single) -> Single>(self, f: F, sample_rate: Single, p: Params) -> bool {
        let coef = fader_coef(f, sample_rate);
        &&& self.left@.len() == 0
        &&& self.master_gain == (Smoothed { value: p.master_gain, target: p.master_gain, coef })
        &&& self.synth_gain == (Smoothed { value: p.synth_gain, target: p.synth_gain, coef })
        &&& self.drum_gain == (Smoothed { value: p.drum_gain, target: p.drum_gain, coef })
        &&& self.bass_gain == (Smoothed { value: p.bass_gain, target: p.bass_gain, coef })
        &&& self.dc == (DcBlocker { x1: of(0), y1: of(0), coef: dc_coef(sample_rate) })
        &&& self.comp_synth == (Compressor { gr_db: of(0), sample_rate })
        &&& self.comp_bass == self.comp_synth
        &&& self.comp_master == self.comp_synth
        &&& self.peak == of(0)
    }

    /// Whether a block is on the desk.
    pub open spec fn wf(self) -> bool {
        &&& self.right@.len() == self.left@.len()
        &&& self.send_l@.len() == self.left@.len()
        &&& self.send_r@.len() == self.left@.len()
    }

    /// The detector signal of a compressor.
    fn key_for(
        source: SidechainSource,
        drums: Option<&DrumBuses>,
        count: usize,
        pool: &mut Pool,
    ) -> (k: Option<Vec<Single>>)
        requires
            fits(drums, count as nat),
        ensures
            compressor::key_of(
                match k {
                    Some(d) => Some(&d),
                    None => None,
                },
            ) == key(source, drums, count as nat),
    {
        match drums {
            Some(b) => sidechain(source, &b.dry_l, &b.dry_r, &b.kick, count, pool),
            None => {
                let mut quiet: Vec<Single> = pool.take();
                let mut i: usize = 0;
                while i < count
                    invariant
                        i <= count,
                        quiet@ == silence(i as nat),
                    decreases count - i,
                {
                    quiet.push(of(0));
                    assert(quiet@ =~= silence(i as nat + 1));
                    i = i + 1;
                }
                let k: Option<Vec<Single>> = sidechain(
                    source,
                    &quiet,
                    &quiet,
                    &quiet,
                    count,
                    pool,
                );
                pool.give(quiet);
                k
            },
        }
    }
}

/// How fast a fader moves: over fifteen milliseconds, at the control rate.
pub open spec fn fader_coef<F: Fn(Curve, Single) -> Single>(f: F, sample_rate: Single) -> Single {
    Smoothed::coef_for(f, of(0x4170_0000), sample_rate.quotient(of(0x4200_0000)))
}

/// The DC blocker's corner: about ten Hz, which removes DC and rumble without touching
/// the bottom of the audible range.
pub open spec fn dc_coef(sample_rate: Single) -> Single {
    of(0x3F80_0000).difference(
        of(0x40C9_0FDB).product(of(0x4120_0000)).quotient(sample_rate),
    )
}

fn fader_speed<F: Fn(Curve, Single) -> Single + Copy>(f: F, sample_rate: Single) -> (c: Single)
    requires
        curve::gives_curves(f),
    ensures
        c == fader_coef(f, sample_rate),
{
    let control_rate: Single = sample_rate.over(of(0x4200_0000));
    smoothing_over(f, Smoothed::time_steps(of(0x4170_0000), control_rate))
}

fn dc_corner(sample_rate: Single) -> (c: Single)
    ensures
        c == dc_coef(sample_rate),
{
    of(0x3F80_0000).minus(of(0x40C9_0FDB).times(of(0x4120_0000)).over(sample_rate))
}

/// Puts a mono bus through its compressor.
fn insert<F: Fn(Curve, Single) -> Single + Copy>(
    bus: &mut Vec<Single>,
    c: &mut Compressor,
    key: Option<&Vec<Single>>,
    p: &CompressorParams,
    f: F,
    pool: &mut Pool,
)
    requires
        curve::gives_curves(f),
    ensures
        final(bus)@ == inserted(f, *old(c), old(bus)@, compressor::key_of(key), *p),
        *final(c) == compressor::compressor_after(
            f,
            *old(c),
            old(bus)@,
            old(bus)@,
            compressor::key_of(key),
            *p,
        ),
{
    let mut twin: Vec<Single> = copy_of(bus, pool);
    c.process(bus, &mut twin, key, p, f, pool);
    pool.give(twin);
}

/// The same samples again.
pub fn copy_of(bus: &Vec<Single>, pool: &mut Pool) -> (out: Vec<Single>)
    ensures
        out@ == bus@,
{
    let mut out: Vec<Single> = pool.take();
    let mut i: usize = 0;
    while i < bus.len()
        invariant
            i <= bus@.len(),
            out@ == bus@.take(i as int),
        decreases bus@.len() - i,
    {
        out.push(bus[i]);
        assert(out@ =~= bus@.take(i + 1));
        i = i + 1;
    }
    assert(out@ =~= bus@);
    out
}

impl Mixer {
    /// A mixer whose faders rest where a patch has them.
    pub fn new<F: Fn(Curve, Single) -> Single + Copy>(sample_rate: Single, p: &Params, f: F) -> (m: Mixer)
        requires
            curve::gives_curves(f),
        ensures
            m.wf(),
            m.fresh(f, sample_rate, *p),
    {
        proof {
            reveal(Mixer::fresh);
        }
        let coef: Single = fader_speed(f, sample_rate);
        let comp: Compressor = Compressor::new(sample_rate);
        Mixer {
            master_gain: Smoothed::new(p.master_gain, coef),
            synth_gain: Smoothed::new(p.synth_gain, coef),
            drum_gain: Smoothed::new(p.drum_gain, coef),
            bass_gain: Smoothed::new(p.bass_gain, coef),
            dc: DcBlocker::new(dc_corner(sample_rate)),
            comp_synth: comp,
            comp_bass: comp,
            comp_master: comp,
            left: Vec::with_capacity(BLOCK),
            right: Vec::with_capacity(BLOCK),
            send_l: Vec::with_capacity(BLOCK),
            send_r: Vec::with_capacity(BLOCK),
            peak: of(0),
        }
    }

    /// The mixer at another sample rate. The faders stay where they are.
    pub open spec fn at_rate<F: Fn(Curve, Single) -> Single>(self, f: F, sample_rate: Single) -> Mixer {
        let coef = fader_coef(f, sample_rate);
        let comp = Compressor { gr_db: of(0), sample_rate };
        Mixer {
            master_gain: Smoothed { coef, ..self.master_gain },
            synth_gain: Smoothed { coef, ..self.synth_gain },
            drum_gain: Smoothed { coef, ..self.drum_gain },
            bass_gain: Smoothed { coef, ..self.bass_gain },
            dc: DcBlocker { coef: dc_coef(sample_rate), ..self.dc },
            comp_synth: comp,
            comp_bass: comp,
            comp_master: comp,
            ..self
        }
    }

    /// Reconfigures for a new sample rate.
    pub fn set_sample_rate<F: Fn(Curve, Single) -> Single + Copy>(&mut self, sample_rate: Single, f: F)
        requires
            curve::gives_curves(f),
        ensures
            *final(self) == old(self).at_rate(f, sample_rate),
    {
        let time: Single = of(0x4170_0000);
        let control_rate: Single = sample_rate.over(of(0x4200_0000));
        self.master_gain.set_time(time, control_rate, f);
        self.synth_gain.set_time(time, control_rate, f);
        self.drum_gain.set_time(time, control_rate, f);
        self.bass_gain.set_time(time, control_rate, f);
        self.dc.coef = dc_corner(sample_rate);
        self.comp_synth.set_sample_rate(sample_rate);
        self.comp_bass.set_sample_rate(sample_rate);
        self.comp_master.set_sample_rate(sample_rate);
    }

    /// The faders set on their way to where a patch has them.
    pub open spec fn aimed(self, p: Params) -> Mixer {
        Mixer {
            master_gain: Smoothed { target: p.master_gain, ..self.master_gain },
            synth_gain: Smoothed { target: p.synth_gain, ..self.synth_gain },
            drum_gain: Smoothed { target: p.drum_gain, ..self.drum_gain },
            bass_gain: Smoothed { target: p.bass_gain, ..self.bass_gain },
            ..self
        }
    }

    /// Before a callback's blocks: where the faders are to go.
    pub fn aim(&mut self, p: &Params)
        ensures
            *final(self) == old(self).aimed(*p),
    {
        self.master_gain.set_target(p.master_gain);
        self.synth_gain.set_target(p.synth_gain);
        self.drum_gain.set_target(p.drum_gain);
        self.bass_gain.set_target(p.bass_gain);
    }

    /// Mixes a block up to the effects: the voices, the bass if it plays, and the
    /// drums if they do. Every fader moves, the bass's too while it is muted, so that
    /// switching it on does not start it with a stale ramp.
    pub fn mix<F: Fn(Curve, Single) -> Single + Copy>(
        &mut self,
        block: &Vec<Single>,
        bass: Option<&Vec<Single>>,
        drums: Option<&DrumBuses>,
        p: &Params,
        f: F,
        pool: &mut Pool,
    )
        requires
            curve::gives_curves(f),
            fits(drums, block@.len()),
            bass matches Some(b) ==> b@.len() == block@.len(),
        ensures
            final(self).wf(),
            final(self).left@.len() == block@.len(),
            final(self).blended(f, *old(self), block@, compressor::key_of(bass), drums, *p),
    {
        proof {
            reveal(Mixer::blended);
        }
        let _master: Single = self.master_gain.next();
        let synth_gain: Single = self.synth_gain.next();
        let drum_gain: Single = self.drum_gain.next();
        let bass_gain: Single = self.bass_gain.next();
        let count: usize = block.len();
        let mut bus: Vec<Single> = synth_bus(
            block,
            p.drive,
            synth_gain,
            &mut self.dc,
            pool,
        );
        assert(bus@ =~= synth_signal(old(self).dc, block@, p.drive, synth_gain));
        let synth_key: Option<Vec<Single>> = Mixer::key_for(
            p.comp_synth.sidechain,
            drums,
            count,
            pool,
        );
        insert(&mut bus, &mut self.comp_synth, synth_key.as_ref(), &p.comp_synth, f, pool);
        pool.give_any(synth_key);
        let mut send: Vec<Single> = tap(&bus, p.synth_send, pool);
        match bass {
            Some(b) => {
                let mut low: Vec<Single> = bass_bus(b, bass_gain, pool);
                let bass_key: Option<Vec<Single>> = Mixer::key_for(
                    p.comp_bass.sidechain,
                    drums,
                    count,
                    pool,
                );
                insert(&mut low, &mut self.comp_bass, bass_key.as_ref(), &p.comp_bass, f, pool);
                pool.give_any(bass_key);
                join(&mut bus, &low);
                mix_in(&mut send, &low, p.bass_send);
                pool.give(low);
            },
            None => {},
        }
        let mut other: Vec<Single> = copy_of(&bus, pool);
        let mut other_send: Vec<Single> = copy_of(&send, pool);
        match drums {
            Some(b) => {
                let to_send: Single = drum_gain.times(p.drum_send);
                mix_in(&mut bus, &b.dry_l, drum_gain);
                mix_in(&mut other, &b.dry_r, drum_gain);
                mix_in(&mut send, &b.send_l, to_send);
                mix_in(&mut other_send, &b.send_r, to_send);
            },
            None => {},
        }
        swap(&mut self.left, &mut bus);
        swap(&mut self.right, &mut other);
        swap(&mut self.send_l, &mut send);
        swap(&mut self.send_r, &mut other_send);
        pool.give(bus);
        pool.give(other);
        pool.give(send);
        pool.give(other_send);
    }

    /// Brings the block out: the effects' return, the compressor on the sum, and the
    /// master level, every sample legal.
    pub fn finish<F: Fn(Curve, Single) -> Single + Copy>(
        &mut self,
        wet_l: &Vec<Single>,
        wet_r: &Vec<Single>,
        drums: Option<&DrumBuses>,
        p: &Params,
        f: F,
        pool: &mut Pool,
    )
        requires
            old(self).wf(),
            curve::gives_curves(f),
            fits(drums, old(self).left@.len()),
            wet_l@.len() == old(self).left@.len(),
            wet_r@.len() == old(self).left@.len(),
        ensures
            final(self).wf(),
            final(self).brought_out(f, *old(self), wet_l@, wet_r@, drums, *p),
            final(self).left@.len() == old(self).left@.len(),
            forall|i: int|
                0 <= i < final(self).left@.len() ==> {
                    &&& output::in_legal_range(#[trigger] final(self).left@[i])
                    &&& output::in_legal_range(final(self).right@[i])
                },
    {
        proof {
            reveal(Mixer::brought_out);
        }
        let count: usize = self.left.len();
        add_return(&mut self.left, wet_l, &self.send_l);
        add_return(&mut self.right, wet_r, &self.send_r);
        let master_key: Option<Vec<Single>> = Mixer::key_for(
            p.comp_master.sidechain,
            drums,
            count,
            pool,
        );
        self.comp_master.process(
            &mut self.left,
            &mut self.right,
            master_key.as_ref(),
            &p.comp_master,
            f,
            pool,
        );
        pool.give_any(master_key);
        let gain: Single = self.master_gain.value();
        let top: Single = finish(&mut self.left, gain, self.peak);
        self.peak = finish(&mut self.right, gain, top);
    }

    /// Takes the peak, so that the next callback meters afresh.
    pub fn take_peak(&mut self) -> (peak: Single)
        ensures
            peak == old(self).peak,
            *final(self) == (Mixer { peak: of(0), ..*old(self) }),
    {
        let peak: Single = self.peak;
        self.peak = of(0);
        peak
    }
}

/// Until drums or effects come in, the mix is mono: both channels are the same, and so
/// are both sends.
pub proof fn law_without_drums_the_mix_is_mono<F: Fn(Curve, Single) -> Single>(
    f: F,
    m: Mixer,
    block: Seq<Single>,
    bass: Option<Seq<Single>>,
    p: Params,
)
    ensures
        m.mixed(f, block, bass, None, p).left == m.mixed(f, block, bass, None, p).right,
        m.mixed(f, block, bass, None, p).send_l == m.mixed(f, block, bass, None, p).send_r,
{
}

/// A mono mix with a mono return leaves the desk mono, whatever the master compressor
/// does: it turns both channels down together.
pub proof fn law_a_mono_mix_stays_mono<F: Fn(Curve, Single) -> Single>(
    f: F,
    m: Mixer,
    wet: Seq<Single>,
    drums: Option<&DrumBuses>,
    p: Params,
)
    requires
        m.left@ == m.right@,
        m.send_l@ == m.send_r@,
    ensures
        m.glued(f, true, wet, wet, drums, p) == m.glued(f, false, wet, wet, drums, p),
{
}

/// The drive belongs to the voices: turning it leaves the bass as it is.
pub proof fn law_the_drive_leaves_the_bass_alone<F: Fn(Curve, Single) -> Single>(
    f: F,
    m: Mixer,
    bass: Seq<Single>,
    drums: Option<&DrumBuses>,
    p: Params,
    drive: Single,
)
    ensures
        m.bass_bus(f, bass, drums, Params { drive, ..p }) == m.bass_bus(f, bass, drums, p),
{
}

} // verus!
