//! The control panel's decisions: what a click does, what is shown, and the state
//! that is the panel's own.
//!
//! Every control writes a parameter or queues an event and returns; nothing waits
//! for the audio thread.

use crate::control;
use crate::control::Synth;
use crate::drums::pad::PAD_COUNT;
use crate::drums::pattern::{Cell, DrumPattern};
use crate::event::Event;
use crate::params::{of, AtomicBool32, SharedParams};
use crate::sequencer::Pattern;
use crate::single::Single;
use vstd::prelude::*;

verus! {

// --- Pages ---

/// The panel's three top-level pages.
///
/// A patch editor, a pattern editor and a drum machine are three different jobs
/// done at three different times. Transport and mixer stay outside the tabs: they
/// are what you reach for while doing any of the three.
#[derive(Debug, Clone, Copy, PartialEq, Eq, Structural)]
pub enum Tab {
    /// Oscillators through effects: the sound itself.
    Synth,
    /// The step sequencer and its pattern slots.
    Sequencer,
    /// The drum rack.
    Drums,
}

impl Default for Tab {
    fn default() -> (t: Tab)
        ensures
            t == Tab::Synth,
    {
        Tab::Synth
    }
}

impl Tab {
    /// Left to right, in the order the signal is usually built up.
    pub const ALL: [Tab; 3] = [Tab::Synth, Tab::Sequencer, Tab::Drums];

    pub open spec fn title(self) -> Seq<char> {
        match self {
            Tab::Synth => "SYNTH"@,
            Tab::Sequencer => "SEQ"@,
            Tab::Drums => "DRUMS"@,
        }
    }

    /// The label on the tab.
    pub fn name(self) -> (s: &'static str)
        ensures
            s@ == self.title(),
    {
        match self {
            Tab::Synth => "SYNTH",
            Tab::Sequencer => "SEQ",
            Tab::Drums => "DRUMS",
        }
    }
}

/// How many of the four columns of synth controls fit next to each other.
pub open spec fn columns_in(width: Single) -> int {
    let n = width.quotient(of(0x4384_8000)).truncated();  // 265 to the column
    if n < 1 {
        1
    } else if n > 4 {
        4
    } else {
        n
    }
}

pub fn columns_per_row(width: Single) -> (n: usize)
    ensures
        n == columns_in(width),
{
    let n: u64 = width.over(of(0x4384_8000)).to_whole();
    if n < 1 {
        1
    } else if n > 4 {
        4
    } else {
        n as usize
    }
}

// --- Knobs ---

/// How a knob maps pointer movement onto its value range.
#[derive(Debug, Clone, Copy, PartialEq, Eq, Structural)]
pub enum Scaling {
    /// Even across the range. For anything with a natural midpoint.
    Linear,
    /// Even in octaves. Essential for frequency and time.
    Logarithmic,
}

/// A value's place in a linear range, from zero to one.
pub fn to_linear(value: Single, lo: Single, hi: Single) -> (t: Single)
    ensures
        t == value.difference(lo).quotient(hi.difference(lo)).clamped(of(0), of(0x3F80_0000)),
{
    value.minus(lo).over(hi.minus(lo)).clamp(of(0), of(0x3F80_0000))
}

/// The value at a place in a linear range.
pub fn from_linear(t: Single, lo: Single, hi: Single) -> (value: Single)
    ensures
        value == lo.sum(hi.difference(lo).product(t.clamped(of(0), of(0x3F80_0000)))),
{
    lo.plus(hi.minus(lo).times(t.clamp(of(0), of(0x3F80_0000))))
}

/// A knob's place after a drag of `up` points. Full travel takes two hundred of
/// them, or eight hundred for fine work.
pub open spec fn turned(place: Single, up: Single, fine: bool) -> Single {
    place.sum(
        up.quotient(
            if fine {
                of(0x4448_0000)
            } else {
                of(0x4348_0000)
            },
        ),
    ).clamped(of(0), of(0x3F80_0000))
}

pub fn drag(place: Single, up: Single, fine: bool) -> (t: Single)
    ensures
        t == turned(place, up, fine),
{
    let travel: Single = if fine {
        of(0x4448_0000)
    } else {
        of(0x4348_0000)
    };
    place.plus(up.over(travel)).clamp(of(0), of(0x3F80_0000))
}

/// How many decimals a value is shown with. Precision beyond what the ear can resolve
/// makes a panel harder to read, not more informative.
pub open spec fn shown_decimals(value: Single) -> nat {
    if of(0x42C8_0000).at_most(value.size()) {  // a hundred and up
        0
    } else if of(0x4120_0000).at_most(value.size()) {  // ten and up
        1
    } else if of(0x3F80_0000).at_most(value.size()) {
        2
    } else {
        3
    }
}

pub fn decimals(value: Single) -> (n: usize)
    ensures
        n == shown_decimals(value),
{
    let size: Single = value.abs();
    if of(0x42C8_0000).le(size) {
        0
    } else if of(0x4120_0000).le(size) {
        1
    } else if of(0x3F80_0000).le(size) {
        2
    } else {
        3
    }
}

// --- Meters ---

/// Where a meter's peak hold stands after a frame: at the level if that is
/// higher, and falling slowly otherwise, so that a peak stays readable.
pub open spec fn held_peak(hold: Single, level: Single) -> Single {
    hold.larger(level).difference(of(0x3C03_126F)).clamped(of(0), of(0x3F80_0000))
}

pub fn hold_peak(hold: Single, level: Single) -> (h: Single)
    ensures
        h == held_peak(hold, level),
{
    hold.max(level).minus(of(0x3C03_126F)).clamp(of(0), of(0x3F80_0000))
}

/// How a level reads.
#[derive(Debug, Clone, Copy, PartialEq, Eq, Structural)]
pub enum MeterZone {
    Normal,
    Loud,
    Clipping,
}

/// The zone a level is in: above 0.98 it clips, above 0.7 it is loud.
pub fn meter_zone(level: Single) -> (z: MeterZone)
    ensures
        z == (if of(0x3F7A_E148).below(level) {
            MeterZone::Clipping
        } else if of(0x3F33_3333).below(level) {
            MeterZone::Loud
        } else {
            MeterZone::Normal
        }),
{
    if of(0x3F7A_E148).lt(level) {
        MeterZone::Clipping
    } else if of(0x3F33_3333).lt(level) {
        MeterZone::Loud
    } else {
        MeterZone::Normal
    }
}

/// Whether a gain reduction is worth a figure. A rounded "0.0 dB" and "not
/// compressing" look the same at a glance and mean different things.
pub fn shows_reduction(gr_db: Single) -> (yes: bool)
    ensures
        yes == !gr_db.below(of(0x3D4C_CCCD)),
{
    !gr_db.lt(of(0x3D4C_CCCD))
}

// --- Step grids ---

/// Steps to a row: the bar length, so that downbeats line up.
pub const STEPS_PER_ROW: usize = 16;

/// How a step is drawn.
#[derive(Debug, Clone, Copy, PartialEq, Eq, Structural)]
pub enum StepLook {
    /// It is playing now.
    Current,
    Active,
    /// Empty, on a downbeat: those stay visible, so that the bar is readable in a
    /// sparse pattern.
    Downbeat,
    Empty,
}

pub fn step_look(index: usize, active: bool, current: usize, playing: bool) -> (look: StepLook)
    ensures
        look == (if playing && index == current {
            StepLook::Current
        } else if active {
            StepLook::Active
        } else if index % 4 == 0 {
            StepLook::Downbeat
        } else {
            StepLook::Empty
        }),
{
    if playing && index == current {
        StepLook::Current
    } else if active {
        StepLook::Active
    } else if index % 4 == 0 {
        StepLook::Downbeat
    } else {
        StepLook::Empty
    }
}

/// What a click in the bass grid edits.
#[derive(Debug, Clone, Copy, PartialEq, Eq, Structural)]
pub enum BassEdit {
    Toggle,
    Slide,
    Accent,
}

/// Edits one step of the bass line.
pub fn edit_bass(synth: &mut Synth, index: usize, edit: BassEdit) -> (sent: bool)
    requires
        old(synth).wf(),
    ensures
        control::byte(index) ==> old(synth).after_sending(
            Event::SetBassStep {
                index: index as u8,
                step: ({
                    let s = control::mirrored_step(
                        old(synth).params.bass_pattern@,
                        index as int,
                    );
                    match edit {
                        BassEdit::Toggle => control::switched(s),
                        BassEdit::Slide => control::tied(s),
                        BassEdit::Accent => control::accented(s),
                    }
                }),
            },
            sent,
            *final(synth),
        ),
        !control::byte(index) ==> !sent && *final(synth) == *old(synth),
{
    match edit {
        BassEdit::Toggle => synth.toggle_bass_step(index),
        BassEdit::Slide => synth.toggle_bass_slide(index),
        BassEdit::Accent => synth.toggle_bass_accent(index),
    }
}

// --- Drums ---

/// Which of a drum row's three targets the pointer hit.
#[derive(Debug, Clone, Copy, PartialEq, Eq, Structural)]
pub enum DrumHit {
    /// A cell. `shift` means cycle the velocity instead of toggling.
    Cell { step: usize, pad: usize, shift: bool },
    /// The mute dot at the head of a row.
    Mute(usize),
    /// The pad's name, which selects it for the knobs below.
    Select(usize),
}

/// The three velocity levels a shift-click cycles through, softest first.
///
/// Each is exact in the grid's three-bit packing, so a cycled cell round-trips
/// through the mirror unchanged instead of drifting on every edit.
pub open spec fn velocity_level(i: int) -> Single {
    if i == 0 {
        of(0x3EC0_0000)  // 0.375
    } else if i == 1 {
        of(0x3F40_0000)  // 0.75
    } else {
        of(0x3F80_0000)
    }
}

pub fn velocities() -> (v: [Single; 3])
    ensures
        forall|i: int| 0 <= i < 3 ==> #[trigger] v[i] == velocity_level(i),
{
    [of(0x3EC0_0000), of(0x3F40_0000), of(0x3F80_0000)]
}

/// Whether a velocity counts as one of the levels: less than a hundredth away.
pub open spec fn on_level(velocity: Single, i: int) -> bool {
    velocity_level(i).difference(velocity).size().below(of(0x3C23_D70A))
}

/// The level a shift-click on a cell lands on. An inactive cell starts at the
/// softest; an active one goes to the next level, wrapping past the loudest; and a
/// velocity that is none of the three starts at the softest, so that a click
/// always does something.
pub open spec fn cycled(cell: Cell) -> int {
    if !cell.active {
        0
    } else if on_level(cell.velocity, 0) {
        1
    } else if on_level(cell.velocity, 1) {
        2
    } else {
        0
    }
}

/// The velocity a shift-click on this cell should land on next.
pub fn next_velocity(cell: Cell) -> (v: Single)
    ensures
        v == velocity_level(cycled(cell)),
{
    let levels: [Single; 3] = velocities();
    if !cell.active {
        return levels[0];
    }
    let near: Single = of(0x3C23_D70A);
    if levels[0].minus(cell.velocity).abs().lt(near) {
        levels[1]
    } else if levels[1].minus(cell.velocity).abs().lt(near) {
        levels[2]
    } else {
        levels[0]
    }
}

/// A cell after a shift-click: sounding, one level on.
pub open spec fn shift_clicked(cell: Cell) -> Cell {
    Cell { active: true, velocity: velocity_level(cycled(cell)) }
}

// --- The panel's own state ---

/// Enough pattern slots for a verse, a chorus and a couple of alternatives.
pub const SLOTS: usize = 4;

/// Panel state that is the panel's own, not the synth's.
pub struct SynthUi {
    pub open: bool,
    /// The page currently showing.
    pub tab: Tab,
    /// Lowest note shown on the on-screen keyboard.
    pub keyboard_base: u8,
    pub keyboard_octaves: u32,
    /// The note the pointer is currently holding down on the keyboard.
    pub held_from_piano: Option<u8>,
    /// Notes the panel believes are sounding, for keyboard highlighting.
    pub sounding: Vec<u8>,
    pub meter_hold: Single,
    /// Patterns put aside to switch between: a composing aid, not part of the
    /// sound.
    pub slots: [Option<Pattern>; SLOTS],
    /// The slot last loaded or saved, shown highlighted.
    pub active_slot: Option<usize>,
    /// The pad whose knobs are showing.
    pub selected_pad: usize,
}

impl Default for SynthUi {
    fn default() -> (u: SynthUi)
        ensures
            u.wf(),
            u.open,
            u.tab == Tab::Synth,
            u.keyboard_base == 48,
            u.keyboard_octaves == 3,
            u.held_from_piano is None,
            u.sounding@.len() == 0,
            u.meter_hold == of(0),
            forall|i: int| 0 <= i < SLOTS ==> #[trigger] u.slots[i] is None,
            u.active_slot is None,
            u.selected_pad == 0,
    {
        SynthUi {
            open: true,
            tab: Tab::Synth,
            // C3, so two octaves reach middle C and the octave above it.
            keyboard_base: 48,
            keyboard_octaves: 3,
            held_from_piano: None,
            sounding: Vec::new(),
            meter_hold: of(0),
            slots: [None, None, None, None],
            active_slot: None,
            selected_pad: 0,
        }
    }
}

/// Whether a pattern has anything in it.
pub open spec fn has_notes(p: Pattern) -> bool {
    exists|i: int| 0 <= i < p.len && (#[trigger] p.steps[i]).active
}

/// Whether a pattern has anything in it.
pub fn pattern_has_notes(p: &Pattern) -> (yes: bool)
    requires
        p.wf(),
    ensures
        yes == has_notes(*p),
{
    let mut i: usize = 0;
    while i < p.len
        invariant
            p.wf(),
            i <= p.len,
            forall|k: int| 0 <= k < i ==> !(#[trigger] p.steps[k]).active,
        decreases p.len - i,
    {
        if p.steps[i].active {
            return true;
        }
        i = i + 1;
    }
    false
}

/// The first empty slot from `i` on.
pub open spec fn first_empty(slots: Seq<Option<Pattern>>, i: int) -> Option<int>
    decreases slots.len() - i,
{
    if i >= slots.len() {
        None
    } else if slots[i] is None {
        Some(i)
    } else {
        first_empty(slots, i + 1)
    }
}

/// The notes of a list but one.
pub open spec fn without(notes: Seq<u8>, note: u8) -> Seq<u8>
    decreases notes.len(),
{
    if notes.len() == 0 {
        notes
    } else if notes.last() == note {
        without(notes.drop_last(), note)
    } else {
        without(notes.drop_last(), note).push(notes.last())
    }
}

fn remove_note(notes: &mut Vec<u8>, note: u8)
    ensures
        final(notes)@ == without(old(notes)@, note),
{
    let mut kept: Vec<u8> = Vec::new();
    let mut i: usize = 0;
    while i < notes.len()
        invariant
            *notes == *old(notes),
            i <= notes@.len(),
            kept@ == without(notes@.take(i as int), note),
        decreases notes@.len() - i,
    {
        let ghost so_far = notes@.take(i + 1);
        assert(so_far.drop_last() =~= notes@.take(i as int));
        assert(so_far.last() == notes@[i as int]);
        if notes[i] != note {
            kept.push(notes[i]);
        }
        i = i + 1;
    }
    assert(notes@.take(i as int) =~= notes@);
    *notes = kept;
}

/// What the piano asks for: a note to end, then a note to start.
#[derive(Debug, Clone, Copy, PartialEq, Eq, Structural)]
pub struct PianoMove {
    pub off: Option<u8>,
    pub on: Option<u8>,
}

impl SynthUi {
    pub open spec fn wf(self) -> bool {
        &&& self.active_slot matches Some(i) ==> i < SLOTS
        &&& forall|i: int| 0 <= i < SLOTS && (#[trigger] self.slots[i]) is Some ==> self.slots[i]->0.wf()
    }

    /// Where the next save goes: the first empty slot, and once they are all full
    /// the one being listened to.
    pub open spec fn target(self) -> int {
        match first_empty(self.slots@, 0) {
            Some(i) => i,
            None => match self.active_slot {
                Some(i) => i as int,
                None => 0,
            },
        }
    }

    /// The panel with a pattern put into a slot, which becomes the active one.
    pub open spec fn stored(self, slot: int, p: Pattern, after: SynthUi) -> bool {
        &&& after.slots@ == self.slots@.update(slot, Some(p))
        &&& after.active_slot == Some(slot as usize)
        &&& self.same_but_slots(after)
    }

    /// Whether nothing but the slots differs.
    pub open spec fn same_but_slots(self, after: SynthUi) -> bool {
        after == (SynthUi { slots: after.slots, active_slot: after.active_slot, ..self })
    }

    /// Keeps the first pattern that has something in it, without being asked: it is
    /// the one the player is listening to when the panel first opens.
    pub fn keep_first_pattern(&mut self, pattern: &Pattern)
        requires
            old(self).wf(),
            pattern.wf(),
        ensures
            final(self).wf(),
            if has_notes(*pattern) && (forall|i: int|
                0 <= i < SLOTS ==> #[trigger] old(self).slots[i] is None) {
                old(self).stored(0, *pattern, *final(self))
            } else {
                *final(self) == *old(self)
            },
    {
        if pattern_has_notes(pattern) && self.slots[0].is_none() && self.slots[1].is_none()
            && self.slots[2].is_none() && self.slots[3].is_none() {
            self.slots[0] = Some(*pattern);
            self.active_slot = Some(0);
        } else {
            proof {
                if has_notes(*pattern) && (forall|i: int|
                    0 <= i < SLOTS ==> #[trigger] old(self).slots[i] is None) {
                    assert(old(self).slots[0] is None && old(self).slots[1] is None && old(self).slots[2] is None && old(self).slots[3] is None);
                }
            }
        }
    }

    /// The slot a save would fill.
    pub fn save_target(&self) -> (slot: usize)
        requires
            self.wf(),
        ensures
            slot == self.target(),
            slot < SLOTS,
    {
        let mut i: usize = 0;
        while i < SLOTS
            invariant
                i <= 4,
                self.wf(),
                first_empty(self.slots@, 0) == first_empty(self.slots@, i as int),
            decreases 4 - i,
        {
            if self.slots[i].is_none() {
                return i;
            }
            i = i + 1;
        }
        match self.active_slot {
            Some(i) => i,
            None => 0,
        }
    }

    /// Stores the current pattern.
    pub fn save(&mut self, pattern: &Pattern)
        requires
            old(self).wf(),
            pattern.wf(),
        ensures
            final(self).wf(),
            old(self).stored(old(self).target(), *pattern, *final(self)),
    {
        let slot: usize = self.save_target();
        self.slots[slot] = Some(*pattern);
        self.active_slot = Some(slot);
    }

    /// Picks a saved pattern to play. An empty slot changes nothing.
    pub fn load(&mut self, slot: usize) -> (p: Option<Pattern>)
        requires
            old(self).wf(),
        ensures
            final(self).wf(),
            p == (if slot < SLOTS {
                old(self).slots[slot as int]
            } else {
                None
            }),
            *final(self) == (SynthUi {
                active_slot: if p is Some {
                    Some(slot)
                } else {
                    old(self).active_slot
                },
                ..*old(self)
            }),
            p matches Some(q) ==> q.wf(),
    {
        if slot >= SLOTS {
            return None;
        }
        match self.slots[slot] {
            Some(p) => {
                self.active_slot = Some(slot);
                Some(p)
            },
            None => None,
        }
    }

    /// Compares the key under the pointer with the one held last frame. Dragging
    /// from one key to the next ends the old note and starts the new one, which is
    /// how a glissando should behave; holding one still does nothing.
    pub fn piano_moved(&mut self, hit: Option<u8>) -> (m: PianoMove)
        ensures
            hit == old(self).held_from_piano ==> *final(self) == *old(self) && m == (PianoMove {
                off: None,
                on: None,
            }),
            hit != old(self).held_from_piano ==> {
                let ended = match old(self).held_from_piano {
                    Some(n) => without(old(self).sounding@, n),
                    None => old(self).sounding@,
                };
                &&& m == (PianoMove { off: old(self).held_from_piano, on: hit })
                &&& final(self).held_from_piano == hit
                &&& final(self).sounding@ == match hit {
                    Some(n) => ended.push(n),
                    None => ended,
                }
                &&& *final(self) == (SynthUi {
                    held_from_piano: hit,
                    sounding: final(self).sounding,
                    ..*old(self)
                })
            },
    {
        if hit == self.held_from_piano {
            return PianoMove { off: None, on: None };
        }
        let off: Option<u8> = self.held_from_piano;
        match off {
            Some(previous) => {
                remove_note(&mut self.sounding, previous);
            },
            None => {},
        }
        match hit {
            Some(note) => {
                self.sounding.push(note);
            },
            None => {},
        }
        self.held_from_piano = hit;
        PianoMove { off, on: hit }
    }

    /// Forgets every key, after a panic.
    pub fn forget_keys(&mut self)
        ensures
            final(self).sounding@.len() == 0,
            *final(self) == (SynthUi {
                held_from_piano: None,
                sounding: final(self).sounding,
                ..*old(self)
            }),
    {
        self.sounding.clear();
        self.held_from_piano = None;
    }

    /// Moves the keyboard an octave down, no lower than it goes.
    pub fn octave_down(&mut self)
        ensures
            *final(self) == (SynthUi {
                keyboard_base: if old(self).keyboard_base < 12 {
                    0
                } else {
                    (old(self).keyboard_base - 12) as u8
                },
                ..*old(self)
            }),
    {
        self.keyboard_base = if self.keyboard_base < 12 {
            0
        } else {
            self.keyboard_base - 12
        };
    }

    /// Moves the keyboard an octave up, as far as its top octave.
    pub fn octave_up(&mut self)
        ensures
            *final(self) == (SynthUi {
                keyboard_base: if old(self).keyboard_base + 12 > 108 {
                    108
                } else {
                    (old(self).keyboard_base + 12) as u8
                },
                ..*old(self)
            }),
    {
        self.keyboard_base = if self.keyboard_base > 96 {
            108
        } else {
            self.keyboard_base + 12
        };
    }

    /// The pad whose knobs are showing, which is always one there is.
    pub fn shown_pad(&self) -> (pad: usize)
        ensures
            pad == (if self.selected_pad < PAD_COUNT {
                self.selected_pad as int
            } else {
                PAD_COUNT - 1
            }),
    {
        if self.selected_pad < PAD_COUNT {
            self.selected_pad
        } else {
            PAD_COUNT - 1
        }
    }

    /// Does what a click in the drum grid asks for.
    pub fn drum_clicked(&mut self, synth: &mut Synth, grid: &DrumPattern, hit: DrumHit)
        requires
            old(synth).wf(),
            hit matches DrumHit::Mute(pad) ==> pad < PAD_COUNT,
        ensures
            final(synth).wf(),
            *final(self) == (match hit {
                DrumHit::Select(pad) => SynthUi { selected_pad: pad, ..*old(self) },
                _ => *old(self),
            }),
            match hit {
                DrumHit::Select(_) => *final(synth) == *old(synth),
                DrumHit::Mute(pad) => {
                    &&& final(synth).inner == old(synth).inner
                    &&& final(synth).params == (SharedParams {
                        pad_mute: final(synth).params.pad_mute,
                        ..old(synth).params
                    })
                    &&& final(synth).params.pad_mute[pad as int]@ == !old(synth).params.pad_mute[pad as int]@
                    &&& forall|k: int|
                        0 <= k < PAD_COUNT && k != pad ==> #[trigger] final(synth).params.pad_mute[k] == old(synth).params.pad_mute[k]
                },
                DrumHit::Cell { step, pad, shift } => if control::byte(step) && control::byte(pad) {
                        old(synth).after_sending(
                            Event::SetDrumCell {
                                step: step as u8,
                                pad: pad as u8,
                                cell: if shift {
                                    shift_clicked(grid@.cell(step as int, pad as int))
                                } else {
                                    control::flipped(
                                        control::mirrored_cell(
                                            old(synth).params.drum_grid@,
                                            step as int,
                                            pad as int,
                                        ),
                                    )
                                },
                            },
                            old(synth).takes_events(),
                            *final(synth),
                        )
                } else {
                    *final(synth) == *old(synth)
                },
            },
    {
        match hit {
            DrumHit::Mute(pad) => {
                let muted: bool = synth.params.pad_mute[pad].get();
                synth.params.pad_mute[pad] = AtomicBool32::new(!muted);
            },
            DrumHit::Select(pad) => {
                self.selected_pad = pad;
            },
            DrumHit::Cell { step, pad, shift } => {
                if shift {
                    let mut cell: Cell = grid.get(step, pad);
                    cell.velocity = next_velocity(cell);
                    cell.active = true;
                    let _ = synth.set_drum_cell(step, pad, cell);
                } else {
                    let _ = synth.toggle_drum_cell(step, pad);
                }
            },
        }
    }
}

// --- The on-screen keyboard ---

/// Semitone of a white key within its octave.
pub open spec fn white_semitone(index: int) -> int {
    if index < 3 {
        2 * index
    } else {
        2 * index - 1
    }
}

/// The note of the `i`th white key, counted from the lowest one shown.
pub open spec fn white_at(base: u8, i: int) -> int {
    base + i / 7 * 12 + white_semitone(i % 7)
}

/// Whether a black key follows a white one: after all but E and B.
pub open spec fn black_follows(i: int) -> bool {
    i % 7 != 2 && i % 7 != 6
}

/// How many white keys are shown: seven to an octave, and at least one.
pub fn white_keys(octaves: u32) -> (n: u32)
    requires
        octaves <= 613_566_756,
    ensures
        n == (if octaves == 0 {
            1
        } else {
            7 * octaves
        }),
{
    if octaves == 0 {
        1
    } else {
        octaves * 7
    }
}

/// The note of the `i`th white key, if there is such a note.
pub fn white_note(base: u8, i: u32) -> (note: Option<u8>)
    ensures
        note == (if white_at(base, i as int) <= 127 {
            Some(white_at(base, i as int) as u8)
        } else {
            None
        }),
{
    let octave: u64 = (i / 7) as u64;
    let index: u64 = (i % 7) as u64;
    let semitone: u64 = if index < 3 {
        2 * index
    } else {
        2 * index - 1
    };
    let note: u64 = base as u64 + octave * 12 + semitone;
    if note <= 127 {
        Some(note as u8)
    } else {
        None
    }
}

/// The note of the black key after the `i`th white one, if there is such a key.
pub fn black_note(base: u8, i: u32) -> (note: Option<u8>)
    ensures
        note == (if black_follows(i as int) && white_at(base, i as int) + 1 <= 127 {
            Some((white_at(base, i as int) + 1) as u8)
        } else {
            None
        }),
{
    if i % 7 == 2 || i % 7 == 6 {
        return None;
    }
    match white_note(base, i) {
        Some(n) => {
            if n < 127 {
                Some(n + 1)
            } else {
                None
            }
        },
        None => None,
    }
}

/// The number shown on a C.
pub fn octave_label(note: u8) -> (n: i32)
    ensures
        n == note as int / 12 - 1,
{
    (note / 12) as i32 - 1
}

/// A seed made of the time in nanoseconds, or of a stand-in where the clock has
/// none. Consecutive times differ only in their lowest bits, so they are mixed up.
pub fn seed_from_time(nanos: Option<u64>) -> (seed: u64)
    ensures
        seed == (match nanos {
            Some(n) => n,
            None => 0x5EED,
        }).wrapping_mul(0x2545_F491_4F6C_DD1D),
{
    let n: u64 = match nanos {
        Some(n) => n,
        None => 0x5EED,
    };
    n.wrapping_mul(0x2545_F491_4F6C_DD1D)
}

// --- What holds of the panel ---

/// A shift-click always lands on one of the three levels, and always leaves the
/// cell sounding.
pub proof fn law_a_shift_click_lands_on_the_cycle(cell: Cell)
    ensures
        shift_clicked(cell).active,
        exists|i: int| 0 <= i < 3 && shift_clicked(cell).velocity == #[trigger] velocity_level(i),
{
    assert(shift_clicked(cell).velocity == velocity_level(cycled(cell)));
}

proof fn lemma_first_empty(slots: Seq<Option<Pattern>>, i: int)
    requires
        0 <= i,
    ensures
        first_empty(slots, i) matches Some(k) ==> i <= k < slots.len() && slots[k] is None,
        first_empty(slots, i) is None ==> forall|k: int|
            i <= k < slots.len() ==> (#[trigger] slots[k]) is Some,
    decreases
        (if i < slots.len() {
            slots.len() - i
        } else {
            0
        }),
{
    if i < slots.len() {
        lemma_first_empty(slots, i + 1);
    }
}

/// While a slot is empty, saving overwrites nothing: every pattern put aside is
/// still there.
pub proof fn law_saving_overwrites_nothing_while_there_is_room(u: SynthUi, p: Pattern, after: SynthUi, k: int, empty: int)
    requires
        u.wf(),
        u.stored(u.target(), p, after),
        0 <= empty < SLOTS,
        u.slots[empty] is None,
        0 <= k < SLOTS,
        u.slots[k] is Some,
    ensures
        after.slots[k] == u.slots[k],
{
    lemma_first_empty(u.slots@, 0);
    assert(after.slots@[k] == u.slots@[k]);
}

/// Loading the slot just saved gives back the pattern.
pub proof fn law_a_saved_pattern_is_loaded_back(u: SynthUi, p: Pattern, after: SynthUi)
    requires
        u.wf(),
        u.stored(u.target(), p, after),
    ensures
        after.active_slot matches Some(i) && i < SLOTS && after.slots[i as int] == Some(p),
{
    lemma_first_empty(u.slots@, 0);
    assert(after.slots@[u.target()] == Some(p));
}

proof fn lemma_without(notes: Seq<u8>, note: u8)
    ensures
        !without(notes, note).contains(note),
        forall|n: u8|
            n != note ==> (#[trigger] without(notes, note).contains(n) == notes.contains(n)),
    decreases notes.len(),
{
    if notes.len() > 0 {
        let rest = notes.drop_last();
        lemma_without(rest, note);
        assert(notes =~= rest.push(notes.last()));
        assert forall|n: u8| #[trigger] notes.contains(n) == (rest.contains(n) || n
            == notes.last()) by {
            lemma_push_contains(rest, notes.last(), n);
        }
        if notes.last() != note {
            assert forall|n: u8| #[trigger] without(notes, note).contains(n) == (without(
                rest,
                note,
            ).contains(n) || n == notes.last()) by {
                lemma_push_contains(without(rest, note), notes.last(), n);
            }
        }
    }
}

proof fn lemma_push_contains(s: Seq<u8>, x: u8, n: u8)
    ensures
        s.push(x).contains(n) == (s.contains(n) || n == x),
{
    if s.contains(n) {
        let k = s.index_of(n);
        assert(s.push(x)[k] == n);
    }
    if n == x {
        assert(s.push(x)[s.len() as int] == n);
    }
    if s.push(x).contains(n) && n != x {
        let k = s.push(x).index_of(n);
        assert(s[k] == n);
    }
}

/// Letting go of the piano leaves no key of its own lit.
pub proof fn law_a_released_key_goes_dark(notes: Seq<u8>, held: u8)
    ensures
        !without(notes, held).contains(held),
        forall|n: u8|
            n != held ==> (#[trigger] without(notes, held).contains(n) == notes.contains(n)),
{
    lemma_without(notes, held);
}

/// A black key lies between two white ones, a semitone from each.
pub proof fn law_black_keys_lie_between_white_ones(base: u8, i: int)
    requires
        0 <= i,
        black_follows(i),
    ensures
        white_at(base, i + 1) == white_at(base, i) + 2,
{
    assert((i + 1) / 7 == i / 7 && (i + 1) % 7 == i % 7 + 1);
}

} // verus!
