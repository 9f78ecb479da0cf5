//! Musical timing, internal or locked to external MIDI clock.
//!
//! The clock lives on the audio side and counts samples: timing driven from a
//! game loop would inherit the game loop's jitter, and a note landing 16 ms
//! late is audible as sloppy playing. Step boundaries are quantised to the
//! control block, well below what listeners hear as timing error.

use crate::arith;
use crate::arith::Format;
use crate::bounds;
use crate::double::Double;
use crate::params::{of, ClockSource};
use crate::single::Single;
use vstd::prelude::*;

verus! {

/// Control-rate block size, in samples.
///
/// Parameters are re-read once per block instead of per sample. 32 samples is
/// 0.7 ms at 48 kHz: far below anything audible as lag, and tighter than a
/// human can play.
pub const BLOCK: usize = 32;

/// Ticks per quarter note in the MIDI clock standard, 24, by its pattern.
pub const MIDI_CLOCK_PPQN: u32 = 0x41C0_0000;

/// The number 60 in double precision, by its pattern.
pub const SIXTY: u64 = 0x404E_0000_0000_0000;

/// The number 1 in double precision, by its pattern.
pub const ONE: u64 = 0x3FF0_0000_0000_0000;

/// The most steps one advance takes before it gives up on the remainder.
pub const MAX_ADVANCE: u32 = 64;

/// Counts musical time in samples.
#[derive(Debug, Clone, Copy, PartialEq, Eq, Structural)]
pub struct Clock {
    pub sample_rate: Single,
    pub running: bool,
    /// Position within the current step, in samples.
    pub position: Double,
    /// How long one step lasts, in samples. Derived from the tempo when
    /// internal, estimated from tick spacing when external.
    pub samples_per_step: Double,
    /// Whole MIDI ticks received since the last step boundary.
    pub ticks_since_step: Single,
    /// Samples since the last MIDI tick, for tempo estimation.
    pub samples_since_tick: Single,
    /// Smoothed estimate of samples between MIDI ticks.
    pub samples_per_tick: Single,
    /// True once a tick gap has been measured.
    pub tick_estimate_valid: bool,
}

/// What a clock advance produced.
#[derive(Debug, Clone, Copy, PartialEq, Eq, Structural)]
pub struct Advance {
    /// How many step boundaries were crossed. Normally 0 or 1; more only at
    /// extreme tempos or very long blocks.
    pub steps: u32,
}

impl Default for Advance {
    fn default() -> (a: Advance)
        ensures
            a.steps == 0,
    {
        Advance { steps: 0 }
    }
}

/// What the sequencers need to know of the clock.
#[derive(Debug, Clone, Copy, PartialEq, Eq, Structural)]
pub struct ClockView {
    pub running: bool,
    pub samples_per_step: Single,
}

/// A position with `k` steps taken off it.
pub open spec fn less_steps(position: Double, step: Double, k: nat) -> Double
    decreases k,
{
    if k == 0 {
        position
    } else {
        less_steps(position, step, (k - 1) as nat).difference(step)
    }
}

/// How many whole steps a position holds, beyond the `k` already taken off it;
/// no more than one beyond the limit.
pub open spec fn whole_steps(position: Double, step: Double, k: nat) -> nat
    decreases MAX_ADVANCE + 1 - k,
{
    if k <= MAX_ADVANCE && step.at_most(position) {
        whole_steps(position.difference(step), step, k + 1)
    } else {
        k
    }
}

/// The largest number below a positive one.
pub open spec fn just_below(x: Double) -> Double {
    Double { bits: (x.bits - 1) as u64 }
}

/// How many MIDI ticks make a step.
pub open spec fn ticks_per_step(steps_per_beat: Single) -> Single {
    of(MIDI_CLOCK_PPQN).quotient(steps_per_beat.clamped(of(0x3E80_0000), of(0x4180_0000))).larger(
        of(0x3C23_D70A),
    )
}

/// The length of a step at a tempo: a minute of samples over the beats in it
/// and the steps in a beat, never less than one sample.
pub open spec fn step_at_tempo(sample_rate: Single, bpm: Single, steps_per_beat: Single) -> Double {
    let beats = bpm.clamped(of(0x41A0_0000), of(0x4396_0000));
    let steps = steps_per_beat.clamped(of(0x3E80_0000), of(0x4180_0000));
    let beat = (Double { bits: SIXTY }).product(Double::widened(sample_rate)).quotient(
        Double::widened(beats),
    );
    beat.quotient(Double::widened(steps)).larger(Double { bits: ONE })
}

impl Clock {
    /// Whether the gap since the last tick is one a running clock can have.
    /// Anything else is a dropped packet or a stalled transport.
    pub open spec fn plausible_gap(self) -> bool {
        of(0x3F80_0000).below(self.samples_since_tick) && self.samples_since_tick.below(
            self.sample_rate,
        )
    }

    /// The estimate of the tick spacing once the present gap is counted in:
    /// the gap itself at first, a one-pole average from then on.
    pub open spec fn next_estimate(self) -> Single {
        if self.tick_estimate_valid {
            self.samples_per_tick.sum(
                self.samples_since_tick.difference(self.samples_per_tick).product(
                    of(0x3E19_999A),
                ),
            )
        } else {
            self.samples_since_tick
        }
    }

    /// The tick counter once one more tick is counted in.
    pub open spec fn next_ticks(self) -> Single {
        self.ticks_since_step.sum(of(0x3F80_0000))
    }

    /// Whether the next tick completes a step.
    pub open spec fn tick_steps(self, steps_per_beat: Single) -> bool {
        ticks_per_step(steps_per_beat).at_most(self.next_ticks())
    }

    /// The clock after one MIDI tick.
    pub open spec fn ticked(self, steps_per_beat: Single) -> Clock {
        let per_step = ticks_per_step(steps_per_beat);
        let heard = self.plausible_gap();
        let steps = self.tick_steps(steps_per_beat);
        Clock {
            sample_rate: self.sample_rate,
            running: self.running,
            position: if steps {
                Double { bits: 0 }
            } else {
                self.position
            },
            samples_per_step: if heard {
                Double::widened(self.next_estimate().product(per_step)).larger(
                    Double { bits: ONE },
                )
            } else {
                self.samples_per_step
            },
            ticks_since_step: if steps {
                self.next_ticks().difference(per_step)
            } else {
                self.next_ticks()
            },
            samples_since_tick: of(0),
            samples_per_tick: if heard {
                self.next_estimate()
            } else {
                self.samples_per_tick
            },
            tick_estimate_valid: self.tick_estimate_valid || heard,
        }
    }

    /// The position once some samples have passed.
    pub open spec fn moved(self, samples: int) -> Double {
        self.position.sum(Double::nearest_to(samples))
    }

    /// The clock once some samples have passed, and the steps it crossed.
    ///
    /// The internal clock takes off as many whole steps as there are, but gives
    /// up, and starts over, after one too many. The external one never takes a
    /// step, and waits just short of the boundary for its tick.
    pub open spec fn advanced(self, samples: int, source: ClockSource) -> (Clock, Advance) {
        if !self.running {
            (self, Advance { steps: 0 })
        } else {
            let step = self.samples_per_step;
            let moved = self.position.sum(Double::nearest_to(samples));
            let heard = Clock {
                samples_since_tick: self.samples_since_tick.sum(Single::nearest_to(samples)),
                ..self
            };
            if step.at_most(Double { bits: 0 }) {
                (heard, Advance { steps: 0 })
            } else {
                match source {
                    ClockSource::Internal => {
                        let n = whole_steps(moved, step, 0);
                        (
                            Clock {
                                position: if n > MAX_ADVANCE {
                                    Double { bits: 0 }
                                } else {
                                    less_steps(moved, step, n)
                                },
                                ..heard
                            },
                            Advance { steps: n as u32 },
                        )
                    },
                    ClockSource::ExternalMidi => (
                        Clock {
                            position: if step.at_most(moved) {
                                just_below(step)
                            } else {
                                moved
                            },
                            ..heard
                        },
                        Advance { steps: 0 },
                    ),
                }
            }
        }
    }

    /// A clock that has not started: an eighth of a second to the step, and a
    /// guess of twenty ticks to the second until ticks arrive.
    pub open spec fn at_rest(sample_rate: Single) -> Clock {
        Clock {
            sample_rate,
            running: false,
            position: Double { bits: 0 },
            samples_per_step: Double::widened(sample_rate.product(of(0x3E00_0000))),
            ticks_since_step: of(0),
            samples_since_tick: of(0),
            samples_per_tick: sample_rate.quotient(of(0x41A0_0000)),
            tick_estimate_valid: false,
        }
    }

    pub fn new(sample_rate: Single) -> (c: Clock)
        ensures
            c == Clock::at_rest(sample_rate),
    {
        Clock {
            sample_rate,
            running: false,
            position: Double { bits: 0 },
            samples_per_step: Double::from_single(sample_rate.times(of(0x3E00_0000))),
            ticks_since_step: of(0),
            samples_since_tick: of(0),
            samples_per_tick: sample_rate.over(of(0x41A0_0000)),
            tick_estimate_valid: false,
        }
    }

    pub fn set_sample_rate(&mut self, sample_rate: Single)
        ensures
            *final(self) == (Clock { sample_rate, tick_estimate_valid: false, ..*old(self) }),
    {
        self.sample_rate = sample_rate;
        self.tick_estimate_valid = false;
    }

    pub fn is_running(&self) -> (yes: bool)
        ensures
            yes == self.running,
    {
        self.running
    }

    /// Starts from the beginning of the pattern.
    pub fn start(&mut self)
        ensures
            *final(self) == old(self).started(),
    {
        self.running = true;
        self.position = Double { bits: 0 };
        self.ticks_since_step = of(0);
    }

    /// The clock, started from the beginning.
    pub open spec fn started(self) -> Clock {
        Clock { running: true, position: Double { bits: 0 }, ticks_since_step: of(0), ..self }
    }

    /// Resumes without rewinding.
    pub fn resume(&mut self)
        ensures
            *final(self) == (Clock { running: true, ..*old(self) }),
    {
        self.running = true;
    }

    pub fn stop(&mut self)
        ensures
            *final(self) == (Clock { running: false, ..*old(self) }),
    {
        self.running = false;
    }

    /// Position within the current step, `0.0..1.0`: what would round up to one, or
    /// lies beyond a step that has just become shorter, stays the largest number
    /// below it.
    pub fn phase(&self) -> (x: Single)
        ensures
            x == (if self.samples_per_step.at_most(Double { bits: 0 }) {
                of(0)
            } else {
                self.position.quotient(self.samples_per_step).narrowed().smaller(
                    of(0x3F7F_FFFF),
                )
            }),
            x.below(of(0x3F80_0000)),
            !self.position.negative() ==> of(0).at_most(x),
    {
        if self.samples_per_step.le(Double { bits: 0 }) {
            return of(0);
        }
        self.position.over(self.samples_per_step).to_single().min(of(0x3F7F_FFFF))
    }

    pub fn samples_per_step(&self) -> (x: Single)
        ensures
            x == self.samples_per_step.narrowed(),
    {
        self.samples_per_step.to_single()
    }

    /// What the sequencers need to know.
    pub open spec fn seen(self) -> ClockView {
        ClockView { running: self.running, samples_per_step: self.samples_per_step.narrowed() }
    }

    /// What the sequencers need to know.
    pub fn view(&self) -> (v: ClockView)
        ensures
            v == self.seen(),
    {
        ClockView { running: self.running, samples_per_step: self.samples_per_step.to_single() }
    }

    /// The tempo in BPM; zero until one has been set or measured.
    pub open spec fn tempo(self, steps_per_beat: Single) -> Single {
        if self.samples_per_step.at_most(Double { bits: 0 }) {
            of(0)
        } else {
            (Double { bits: SIXTY }).product(Double::widened(self.sample_rate)).quotient(
                self.samples_per_step.product(Double::widened(steps_per_beat)),
            ).narrowed()
        }
    }

    /// Best estimate of the current tempo in BPM. With an external clock this
    /// is derived from tick spacing, so it is what the source is actually
    /// running at, not what anyone typed in.
    pub fn tempo_bpm(&self, steps_per_beat: Single) -> (x: Single)
        ensures
            x == self.tempo(steps_per_beat),
    {
        if self.samples_per_step.le(Double { bits: 0 }) {
            return of(0);
        }
        let beat: Double = self.samples_per_step.times(Double::from_single(steps_per_beat));
        (Double { bits: SIXTY }).times(Double::from_single(self.sample_rate)).over(
            beat,
        ).to_single()
    }

    /// Sets the step length from a tempo. Only used by the internal clock.
    pub fn set_tempo(&mut self, bpm: Single, steps_per_beat: Single)
        ensures
            *final(self) == (Clock {
                samples_per_step: step_at_tempo(old(self).sample_rate, bpm, steps_per_beat),
                ..*old(self)
            }),
    {
        let beats: Single = bpm.clamp(of(0x41A0_0000), of(0x4396_0000));
        let steps: Single = steps_per_beat.clamp(of(0x3E80_0000), of(0x4180_0000));
        let beat: Double = (Double { bits: SIXTY }).times(
            Double::from_single(self.sample_rate),
        ).over(Double::from_single(beats));
        self.samples_per_step = beat.over(Double::from_single(steps)).max(Double { bits: ONE });
    }

    /// Feeds in one MIDI clock tick, and says whether it completes a step.
    ///
    /// The spacing between ticks updates the step-length estimate, so that gate
    /// lengths and swing do not quantise to the tick grid. An implausible gap
    /// leaves the estimate alone.
    pub fn on_midi_tick(&mut self, steps_per_beat: Single) -> (stepped: bool)
        ensures
            *final(self) == old(self).ticked(steps_per_beat),
            stepped == old(self).tick_steps(steps_per_beat),
    {
        let per_step: Single = of(MIDI_CLOCK_PPQN).over(
            steps_per_beat.clamp(of(0x3E80_0000), of(0x4180_0000)),
        ).max(of(0x3C23_D70A));
        if of(0x3F80_0000).lt(self.samples_since_tick) && self.samples_since_tick.lt(
            self.sample_rate,
        ) {
            let measured: Single = self.samples_since_tick;
            if self.tick_estimate_valid {
                // One-pole smoothing. MIDI clock jitters by a millisecond or so,
                // and reacting to every tick makes the tempo wobble.
                self.samples_per_tick = self.samples_per_tick.plus(
                    measured.minus(self.samples_per_tick).times(of(0x3E19_999A)),
                );
            } else {
                self.samples_per_tick = measured;
                self.tick_estimate_valid = true;
            }
            self.samples_per_step = Double::from_single(
                self.samples_per_tick.times(per_step),
            ).max(Double { bits: ONE });
        }
        self.samples_since_tick = of(0);
        self.ticks_since_step = self.ticks_since_step.plus(of(0x3F80_0000));
        if per_step.le(self.ticks_since_step) {
            self.ticks_since_step = self.ticks_since_step.minus(per_step);
            // Re-align to the tick, correcting any drift that accumulated while
            // interpolating between ticks.
            self.position = Double { bits: 0 };
            return true;
        }
        false
    }

    /// Advances by a block of samples and reports how many steps were crossed.
    ///
    /// With an external clock the step boundaries come from `on_midi_tick`, so
    /// this only moves the phase along for gate and swing purposes, holds it just
    /// short of the boundary if the next tick is late, and never reports a step.
    pub fn advance(&mut self, samples: usize, source: ClockSource) -> (a: Advance)
        ensures
            (*final(self), a) == old(self).advanced(samples as int, source),
            a.steps <= MAX_ADVANCE + 1,
    {
        if !self.running {
            return Advance { steps: 0 };
        }
        self.samples_since_tick = self.samples_since_tick.plus(Single::from_whole(samples as u64));
        if self.samples_per_step.le(Double { bits: 0 }) {
            return Advance { steps: 0 };
        }
        self.position = self.position.plus(Double::from_whole(samples as u64));
        let ghost moved = self.position;
        let ghost heard = *self;
        let step: Double = self.samples_per_step;
        match source {
            ClockSource::Internal => {
                let mut steps: u32 = 0;
                while step.le(self.position)
                    invariant_except_break
                        steps <= MAX_ADVANCE,
                        self.position == less_steps(moved, step, steps as nat),
                        whole_steps(moved, step, 0) == whole_steps(
                            self.position,
                            step,
                            steps as nat,
                        ),
                    invariant
                        *self == (Clock { position: self.position, ..heard }),
                    ensures
                        steps <= MAX_ADVANCE + 1,
                        steps == whole_steps(moved, step, 0),
                        steps <= MAX_ADVANCE ==> self.position == less_steps(
                            moved,
                            step,
                            steps as nat,
                        ),
                        steps == MAX_ADVANCE + 1 ==> self.position == (Double { bits: 0 }),
                    decreases MAX_ADVANCE + 1 - steps,
                {
                    self.position = self.position.minus(step);
                    steps = steps + 1;
                    // Guard against a pathological tempo and block size
                    // producing an unbounded loop.
                    if steps > MAX_ADVANCE {
                        assert(whole_steps(self.position, step, steps as nat) == steps);
                        self.position = Double { bits: 0 };
                        break ;
                    }
                }
                Advance { steps }
            },
            ClockSource::ExternalMidi => {
                // Ticks drive the steps. Hold just short of the boundary if the next
                // tick is late, rather than running ahead and then jumping back.
                if step.le(self.position) {
                    self.position = Double { bits: step.bits - 1 };
                }
                Advance { steps: 0 }
            },
        }
    }
}

/// After an advance of the internal clock less than a step is left over, unless
/// the clock gave up and started over.
pub proof fn law_less_than_a_step_is_left(c: Clock, samples: int)
    requires
        c.running,
        !c.samples_per_step.at_most(Double { bits: 0 }),
    ensures
        ({
            let (after, a) = c.advanced(samples, ClockSource::Internal);
            &&& a.steps <= MAX_ADVANCE ==> !c.samples_per_step.at_most(after.position)
            &&& a.steps > MAX_ADVANCE ==> after.position == (Double { bits: 0 })
        }),
{
    lemma_whole_steps(c.position.sum(Double::nearest_to(samples)), c.samples_per_step, 0);
}

proof fn lemma_whole_steps(position: Double, step: Double, k: nat)
    requires
        k <= MAX_ADVANCE,
    ensures
        ({
            let n = whole_steps(less_steps(position, step, k), step, k);
            &&& k <= n <= MAX_ADVANCE + 1
            &&& n <= MAX_ADVANCE ==> !step.at_most(less_steps(position, step, n))
        }),
    decreases MAX_ADVANCE - k,
{
    if k < MAX_ADVANCE {
        lemma_whole_steps(position, step, k + 1);
    } else {
        reveal_with_fuel(whole_steps, 3);
    }
}

/// A late tick finds the external clock waiting just short of the boundary: however
/// many samples pass, its position stays within the step.
pub proof fn law_a_late_tick_is_waited_for(c: Clock, samples: int)
    requires
        c.running,
        (Double { bits: 0 }).below(c.samples_per_step),
        !c.position.nan(),
        !c.position.negative(),
        0 <= samples <= usize::MAX,
    ensures
        c.advanced(samples, ClockSource::ExternalMidi).0.position.below(c.samples_per_step),
{
    let n = Double::nearest_to(samples);
    bounds::lemma_encode_positive(Format::Double, samples as nat, 1, 0);
    if c.position.finite() && n.finite() {
        let (a, b) = (c.position.parts(), n.parts());
        let x = arith::exact_sum(a, b);
        let size = (if x < 0 {
            -x
        } else {
            x
        }) as nat;
        bounds::lemma_encode_positive(Format::Double, size, 1, arith::lower(a, b));
    }
    assert(!c.moved(samples).nan());
}

/// A stopped clock does not move, and an external one never steps by itself.
pub proof fn law_only_the_internal_clock_steps(c: Clock, samples: int, source: ClockSource)
    ensures
        !c.running ==> c.advanced(samples, source) == (c, Advance { steps: 0 }),
        c.advanced(samples, ClockSource::ExternalMidi).1.steps == 0,
{
}

/// A dropped tick does not disturb the tempo: a gap that is not plausible
/// leaves the step length and the tick estimate as they were.
pub proof fn law_implausible_gap_keeps_the_tempo(c: Clock, steps_per_beat: Single)
    requires
        !c.plausible_gap(),
    ensures
        c.ticked(steps_per_beat).samples_per_step == c.samples_per_step,
        c.ticked(steps_per_beat).samples_per_tick == c.samples_per_tick,
{
}

/// A tick that completes a step realigns the clock to it, and every tick starts
/// a new gap.
pub proof fn law_step_realigns(c: Clock, steps_per_beat: Single)
    ensures
        c.tick_steps(steps_per_beat) ==> c.ticked(steps_per_beat).position == (Double { bits: 0 }),
        c.ticked(steps_per_beat).samples_since_tick == of(0),
        c.ticked(steps_per_beat).running == c.running,
{
}

} // verus!
