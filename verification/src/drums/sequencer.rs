//! The drum sequencer: one column of the grid per step, no note-off.
//!
//! A drum is a one-shot: there is no gate to hold and no note to release. What
//! it has over a melody is width: a step fires a whole column, up to eight pads
//! at once, so the swing buffer holds a column rather than a single note. It
//! does not own a clock: reading the engine's is what keeps the two tracks on
//! the same grid.

use crate::clock::{Advance, ClockView};
use crate::drums::pad::PAD_COUNT;
use crate::drums::pattern::{Cell, Column, DrumGrid, DrumPattern};
use crate::params::{of, Params};
use crate::sequencer::MAX_STEPS;
use crate::single::Single;
use vstd::prelude::*;

verus! {

/// What one block of drum sequencing produced.
///
/// `hits[i]` is the velocity a pad was struck at this block, zero meaning it
/// was not struck.
#[derive(Clone, Copy, Debug)]
pub struct DrumOutput {
    pub hits: [Single; PAD_COUNT],
    pub stepped: bool,
}

/// The output of a block, as a table.
#[verifier::ext_equal]
pub struct DrumHits {
    pub hits: Seq<Single>,
    pub stepped: bool,
}

impl DrumHits {
    /// Nothing struck.
    pub open spec fn none() -> DrumHits {
        DrumHits { hits: Seq::new(PAD_COUNT as nat, |i: int| of(0)), stepped: false }
    }

    /// A column's active cells struck.
    pub open spec fn fired(self, column: Seq<Cell>) -> DrumHits {
        DrumHits {
            hits: Seq::new(
                PAD_COUNT as nat,
                |i: int|
                    if column[i].active {
                        column[i].velocity
                    } else {
                        self.hits[i]
                    },
            ),
            stepped: self.stepped,
        }
    }
}

impl View for DrumOutput {
    type V = DrumHits;

    open spec fn view(&self) -> DrumHits {
        DrumHits { hits: self.hits@, stepped: self.stepped }
    }
}

impl Default for DrumOutput {
    fn default() -> (o: DrumOutput)
        ensures
            o@ == DrumHits::none(),
    {
        let z: Single = of(0);
        let o: DrumOutput = DrumOutput { hits: [z, z, z, z, z, z, z, z], stepped: false };
        assert(o@.hits =~= DrumHits::none().hits);
        o
    }
}

/// A column held back by swing, waiting out its delay.
#[derive(Clone, Copy, Debug)]
pub struct PendingColumn {
    pub column: Column,
    pub samples_remaining: u64,
}

/// A column held back, as a table.
pub struct Waiting {
    pub column: Seq<Cell>,
    pub samples_remaining: int,
}

/// The state of a drum sequencer.
#[verifier::ext_equal]
pub struct DrumModel {
    pub grid: DrumGrid,
    /// The step last played; none before the first.
    pub position: Option<int>,
    pub pending: Option<Waiting>,
    /// Whether the grid has changed unannounced.
    pub grid_changed: bool,
    /// The length last asked for.
    pub last_length: int,
}

impl DrumModel {
    /// A sequencer nobody has touched. Its grid has yet to be announced.
    pub open spec fn blank() -> DrumModel {
        DrumModel {
            grid: DrumGrid::blank(),
            position: None,
            pending: None,
            grid_changed: true,
            last_length: 0,
        }
    }

    pub open spec fn wf(self) -> bool {
        &&& self.grid.wf()
        &&& self.position matches Some(p) ==> 0 <= p < MAX_STEPS
        &&& self.pending matches Some(w) ==> w.column.len() == PAD_COUNT
        &&& self.last_length >= 1 ==> self.grid.len >= 1
        &&& self.last_length >= 0
    }

    /// The length knob followed, but only when it has moved. A place that now
    /// lies outside starts over.
    pub open spec fn reconciled(self, requested: int) -> DrumModel {
        if requested == self.last_length {
            self
        } else {
            let grid = self.grid.with_len(requested);
            DrumModel {
                grid,
                position: match self.position {
                    Some(p) => if p >= grid.len {
                        None
                    } else {
                        Some(p)
                    },
                    None => None,
                },
                grid_changed: true,
                last_length: requested,
                ..self
            }
        }
    }

    /// The step that comes next.
    pub open spec fn next_position(self) -> int {
        match self.position {
            Some(p) => (p + 1) % self.grid.len,
            None => 0,
        }
    }

    /// How long a column is held back: every second one, by the swing.
    pub open spec fn swing_delay(position: int, swing: Single, clock: ClockView) -> int {
        if position % 2 == 1 {
            swing.product(clock.samples_per_step).truncated()
        } else {
            0
        }
    }

    /// The next step reached and fired. A column still waiting on swing is
    /// overtaken, and fired rather than dropped.
    pub open spec fn stepped(self, clock: ClockView, swing: Single, out: DrumHits) -> (
        DrumModel,
        DrumHits,
    ) {
        let next = self.next_position();
        let moved = DrumHits { stepped: true, ..out };
        let caught = match self.pending {
            Some(w) => moved.fired(w.column),
            None => moved,
        };
        let here = DrumModel { position: Some(next), pending: None, ..self };
        let column = self.grid.cells[next];
        let delay = DrumModel::swing_delay(next, swing, clock);
        if !(exists|i: int| 0 <= i < PAD_COUNT && (#[trigger] column[i]).active) {
            (here, caught)
        } else if delay == 0 {
            (here, caught.fired(column))
        } else {
            (
                DrumModel { pending: Some(Waiting { column, samples_remaining: delay }), ..here },
                caught,
            )
        }
    }

    /// Several steps in a row.
    pub open spec fn stepped_by(
        self,
        n: nat,
        clock: ClockView,
        swing: Single,
        out: DrumHits,
    ) -> (DrumModel, DrumHits)
        decreases n,
    {
        if n == 0 {
            (self, out)
        } else {
            let (m, o) = self.stepped_by((n - 1) as nat, clock, swing, out);
            m.stepped(clock, swing, o)
        }
    }

    /// The waiting column fired if its delay runs out within some samples.
    pub open spec fn swung(self, samples: int) -> (DrumModel, DrumHits) {
        match self.pending {
            None => (self, DrumHits::none()),
            Some(w) => if w.samples_remaining <= samples {
                (DrumModel { pending: None, ..self }, DrumHits::none().fired(w.column))
            } else {
                (
                    DrumModel {
                        pending: Some(
                            Waiting {
                                column: w.column,
                                samples_remaining: w.samples_remaining - samples,
                            },
                        ),
                        ..self
                    },
                    DrumHits::none(),
                )
            },
        }
    }

    /// A block of samples played.
    pub open spec fn advanced(
        self,
        samples: int,
        adv: Advance,
        clock: ClockView,
        length: int,
        swing: Single,
    ) -> (DrumModel, DrumHits) {
        let (m, out) = self.reconciled(length).swung(samples);
        if clock.running {
            m.stepped_by(adv.steps as nat, clock, swing, out)
        } else {
            (m, out)
        }
    }

    /// One tick of an external clock played.
    pub open spec fn ticked(self, ticked: bool, clock: ClockView, length: int, swing: Single) -> (
        DrumModel,
        DrumHits,
    ) {
        let m = self.reconciled(length);
        if ticked {
            m.stepped(clock, swing, DrumHits::none())
        } else {
            (m, DrumHits::none())
        }
    }
}

/// The drum sequencer.
#[derive(Debug)]
pub struct DrumSequencer {
    pub pattern: DrumPattern,
    pub position: Option<usize>,
    pub pending: Option<PendingColumn>,
    pub grid_changed: bool,
    pub last_length_param: usize,
}

impl View for DrumSequencer {
    type V = DrumModel;

    open spec fn view(&self) -> DrumModel {
        DrumModel {
            grid: self.pattern@,
            position: match self.position {
                Some(p) => Some(p as int),
                None => None,
            },
            pending: match self.pending {
                Some(w) => Some(
                    Waiting {
                        column: w.column@,
                        samples_remaining: w.samples_remaining as int,
                    },
                ),
                None => None,
            },
            grid_changed: self.grid_changed,
            last_length: self.last_length_param as int,
        }
    }
}

impl DrumSequencer {
    pub open spec fn wf(self) -> bool {
        self@.wf() && self.pattern.wf()
    }

    pub fn new() -> (s: DrumSequencer)
        ensures
            s.wf(),
            s@ == DrumModel::blank(),
    {
        DrumSequencer {
            pattern: DrumPattern::default(),
            position: None,
            pending: None,
            grid_changed: true,
            last_length_param: 0,
        }
    }

    pub fn position(&self) -> (p: usize)
        ensures
            p == (match self@.position {
                Some(p) => p,
                None => 0,
            }),
    {
        match self.position {
            Some(p) => p,
            None => 0,
        }
    }

    pub fn grid(&self) -> (g: &DrumPattern)
        ensures
            g@ == self@.grid,
            *g == self.pattern,
    {
        &self.pattern
    }

    /// Follows the length knob. Separate from `advance` because the length has
    /// to reach the grid even on blocks where the rack is switched off.
    pub fn reconcile_length(&mut self, p: &Params)
        requires
            old(self).wf(),
        ensures
            final(self).wf(),
            final(self)@ == old(self)@.reconciled(p.drum_length as int),
            p.drum_length >= 1 ==> final(self)@.grid.len >= 1,
    {
        let requested: usize = p.drum_length;
        if requested == self.last_length_param {
            return ;
        }
        self.last_length_param = requested;
        self.pattern.set_len(requested);
        // The mirror carries the length as well as the cells, so a length move
        // has to reach the display the same way an edit does.
        self.grid_changed = true;
        match self.position {
            Some(q) => {
                if q >= self.pattern.len() {
                    self.position = None;
                }
            },
            None => {},
        }
    }

    pub fn set_cell(&mut self, step: usize, pad: usize, cell: Cell)
        requires
            old(self).wf(),
        ensures
            final(self).wf(),
            final(self)@ == (DrumModel {
                grid: old(self)@.grid.with_cell(step as int, pad as int, cell),
                grid_changed: true,
                ..old(self)@
            }),
    {
        self.pattern.set(step, pad, cell);
        self.grid_changed = true;
    }

    pub fn toggle(&mut self, step: usize, pad: usize)
        requires
            old(self).wf(),
        ensures
            final(self).wf(),
            final(self)@ == (DrumModel {
                grid: old(self)@.grid.toggled(step as int, pad as int),
                grid_changed: true,
                ..old(self)@
            }),
    {
        self.pattern.toggle(step, pad);
        self.grid_changed = true;
    }

    /// True once after any edit, so the engine knows to republish the mirror.
    pub fn take_grid_changed(&mut self) -> (changed: bool)
        requires
            old(self).wf(),
        ensures
            final(self).wf(),
            changed == old(self)@.grid_changed,
            final(self)@ == (DrumModel { grid_changed: false, ..old(self)@ }),
    {
        let changed: bool = self.grid_changed;
        self.grid_changed = false;
        changed
    }

    pub fn rewind(&mut self)
        requires
            old(self).wf(),
        ensures
            final(self).wf(),
            final(self)@ == (DrumModel { position: None, pending: None, ..old(self)@ }),
    {
        self.position = None;
        self.pending = None;
    }

    /// Advances by `samples` worth of block, stepping `adv.steps` times.
    pub fn advance(&mut self, samples: usize, adv: Advance, clock: ClockView, p: &Params) -> (out:
        DrumOutput)
        requires
            old(self).wf(),
            p.drum_length >= 1,
        ensures
            final(self).wf(),
            (final(self)@, out@) == old(self)@.advanced(
                samples as int,
                adv,
                clock,
                p.drum_length as int,
                p.seq_swing,
            ),
            final(self)@.grid.len >= 1,
    {
        let mut out: DrumOutput = DrumOutput::default();
        self.reconcile_length(p);
        let ghost sized = self@;
        // A swung column comes due partway through a block. Fire it at the top
        // of the block it lands in: 32 samples is under a millisecond.
        match self.pending {
            Some(pending) => {
                if pending.samples_remaining <= samples as u64 {
                    self.pending = None;
                    fire(&pending.column, &mut out);
                } else {
                    self.pending = Some(
                        PendingColumn {
                            column: pending.column,
                            samples_remaining: pending.samples_remaining - samples as u64,
                        },
                    );
                }
            },
            None => {},
        }
        assert((self@, out@) == sized.swung(samples as int));
        let ghost (m, o) = (self@, out@);
        if !clock.running {
            return out;
        }
        let mut k: u32 = 0;
        while k < adv.steps
            invariant
                self.wf(),
                self@.grid.len >= 1,
                k <= adv.steps,
                (self@, out@) == m.stepped_by(k as nat, clock, p.seq_swing, o),
            decreases adv.steps - k,
        {
            self.step(clock, p.seq_swing, &mut out);
            k = k + 1;
        }
        out
    }

    /// The external-clock path: one tick is one step.
    pub fn on_tick(&mut self, ticked: bool, clock: ClockView, p: &Params) -> (out: DrumOutput)
        requires
            old(self).wf(),
            p.drum_length >= 1,
        ensures
            final(self).wf(),
            (final(self)@, out@) == old(self)@.ticked(
                ticked,
                clock,
                p.drum_length as int,
                p.seq_swing,
            ),
    {
        let mut out: DrumOutput = DrumOutput::default();
        // Same first move as `advance`: until the length knob has reached the
        // grid, the pattern is empty and there is no column to read.
        self.reconcile_length(p);
        if ticked {
            self.step(clock, p.seq_swing, &mut out);
        }
        out
    }

    fn step(&mut self, clock: ClockView, swing: Single, out: &mut DrumOutput)
        requires
            old(self).wf(),
            old(self)@.grid.len >= 1,
        ensures
            final(self).wf(),
            (final(self)@, final(out)@) == old(self)@.stepped(clock, swing, old(out)@),
            final(self)@.grid == old(self)@.grid,
    {
        let next: usize = match self.position {
            Some(q) => (q + 1) % self.pattern.len,
            None => 0,
        };
        self.position = Some(next);
        out.stepped = true;
        match self.pending {
            Some(pending) => {
                self.pending = None;
                fire(&pending.column, out);
            },
            None => {},
        }
        let column: Column = self.pattern.columns[next];
        assert(column@ == old(self)@.grid.cells[next as int]);
        if !any_active(&column) {
            return ;
        }
        // Swing pushes the off-beats late. Same rule and same parameter as the
        // melodic sequencer, so the two tracks swing together.
        let delay: u64 = if next % 2 == 1 {
            swing.times(clock.samples_per_step).to_whole()
        } else {
            0
        };
        if delay == 0 {
            fire(&column, out);
        } else {
            self.pending = Some(PendingColumn { column, samples_remaining: delay });
        }
    }
}

fn any_active(column: &Column) -> (yes: bool)
    ensures
        yes == (exists|i: int| 0 <= i < PAD_COUNT && (#[trigger] column@[i]).active),
{
    let mut i: usize = 0;
    while i < PAD_COUNT
        invariant
            i <= 8,
            forall|k: int| 0 <= k < i ==> !(#[trigger] column@[k]).active,
        decreases 8 - i,
    {
        if column[i].active {
            assert(column@[i as int].active);
            return true;
        }
        i = i + 1;
    }
    false
}

/// Writes a column's active cells into the block's hits.
fn fire(column: &Column, out: &mut DrumOutput)
    ensures
        final(out)@ == old(out)@.fired(column@),
{
    let mut i: usize = 0;
    while i < PAD_COUNT
        invariant
            i <= 8,
            out.stepped == old(out).stepped,
            forall|k: int|
                0 <= k < 8 ==> #[trigger] out.hits@[k] == (if k < i && column@[k].active {
                    column@[k].velocity
                } else {
                    old(out).hits@[k]
                }),
        decreases 8 - i,
    {
        if column[i].active {
            out.hits[i] = column[i].velocity;
        }
        i = i + 1;
    }
    assert(out@.hits =~= old(out)@.fired(column@).hits);
}

/// The two tracks move together: given the same clock, a drum grid and a melody
/// step on the same blocks, whatever their lengths.
pub proof fn law_tracks_step_together(
    d: DrumModel,
    m: crate::sequencer::SeqModel,
    samples: int,
    adv: Advance,
    clock: ClockView,
    length: int,
    s: crate::sequencer::SeqSettings,
)
    requires
        clock.running,
    ensures
        d.advanced(samples, adv, clock, length, s.swing).1.stepped == (adv.steps > 0),
        m.advanced(samples, adv, clock, s).1.stepped == (adv.steps > 0),
{
    let (dm, dout) = d.reconciled(length).swung(samples);
    lemma_drums_stepped(dm, adv.steps as nat, clock, s.swing, dout);
    let n = Single::nearest_to(samples);
    let sized = m.resized(s.requested());
    let (a, x) = sized.gated(n, crate::sequencer::SeqOutput::nothing());
    let (b, y) = a.swung(n, s, clock, x);
    lemma_melody_stepped(b, adv.steps as nat, clock, s, y);
}

proof fn lemma_drums_stepped(d: DrumModel, n: nat, clock: ClockView, swing: Single, out: DrumHits)
    ensures
        d.stepped_by(n, clock, swing, out).1.stepped == (n > 0 || out.stepped),
    decreases n,
{
    if n > 0 {
        lemma_drums_stepped(d, (n - 1) as nat, clock, swing, out);
    }
}

proof fn lemma_melody_stepped(
    m: crate::sequencer::SeqModel,
    n: nat,
    clock: ClockView,
    s: crate::sequencer::SeqSettings,
    out: crate::sequencer::SeqOutput,
)
    ensures
        m.stepped_by(n, s, clock, out).1.stepped == (n > 0 || out.stepped),
    decreases n,
{
    if n > 0 {
        lemma_melody_stepped(m, (n - 1) as nat, clock, s, out);
    }
}

/// The grid wraps at its own length: every step lands inside it.
pub proof fn law_grid_wraps_at_its_own_length(
    d: DrumModel,
    clock: ClockView,
    swing: Single,
    out: DrumHits,
)
    requires
        d.wf(),
        d.grid.len >= 1,
    ensures
        d.stepped(clock, swing, out).0.position matches Some(p) && 0 <= p < d.grid.len,
{
}

} // verus!
