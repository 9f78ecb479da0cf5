//! The drum grid: 64 columns of eight cells, and the packing that gets a
//! column across the thread boundary in one word.

use crate::drums::pad::PAD_COUNT;
use crate::sequencer::MAX_STEPS;
use crate::single::Single;
use vstd::prelude::*;

verus! {

/// One pad at one step.
#[derive(Debug, Clone, Copy, PartialEq, Eq, Structural)]
pub struct Cell {
    /// False means the pad does not fire here.
    pub active: bool,
    /// Strike level, 0.125 to 1.0. Quantised to eight levels by the packing,
    /// which is three more than ghost/normal/accent needs.
    pub velocity: Single,
}

/// Every pad at one step.
pub type Column = [Cell; PAD_COUNT];

/// The pattern of the velocity of a level: eighths, so level 7 is full.
pub open spec fn level_velocity(level: int) -> Single {
    Single {
        bits: if level == 0 {
            0x3E00_0000
        } else if level == 1 {
            0x3E80_0000
        } else if level == 2 {
            0x3EC0_0000
        } else if level == 3 {
            0x3F00_0000
        } else if level == 4 {
            0x3F20_0000
        } else if level == 5 {
            0x3F40_0000
        } else if level == 6 {
            0x3F60_0000
        } else {
            0x3F80_0000
        },
    }
}

/// The level nearest to a velocity: level `k` starts halfway between the
/// velocities of levels `k - 1` and `k`. A NaN has the lowest.
pub open spec fn velocity_level(v: Single) -> int {
    if level_start(7).at_most(v) {
        7
    } else if level_start(6).at_most(v) {
        6
    } else if level_start(5).at_most(v) {
        5
    } else if level_start(4).at_most(v) {
        4
    } else if level_start(3).at_most(v) {
        3
    } else if level_start(2).at_most(v) {
        2
    } else if level_start(1).at_most(v) {
        1
    } else {
        0
    }
}

/// The lowest velocity of a level: an odd number of sixteenths.
pub open spec fn level_start(level: int) -> Single {
    Single {
        bits: if level == 1 {
            0x3E40_0000
        } else if level == 2 {
            0x3EA0_0000
        } else if level == 3 {
            0x3EE0_0000
        } else if level == 4 {
            0x3F10_0000
        } else if level == 5 {
            0x3F30_0000
        } else if level == 6 {
            0x3F50_0000
        } else {
            0x3F70_0000
        },
    }
}

/// A cell as four bits: the active flag over the level.
pub open spec fn nibble(cell: Cell) -> int {
    velocity_level(cell.velocity) + (if cell.active {
        8int
    } else {
        0
    })
}

/// The cell that four bits stand for.
pub open spec fn nibble_cell(n: int) -> Cell {
    Cell { active: n >= 8, velocity: level_velocity(n % 8) }
}

/// A run of cells as one number, four bits each, the first lowest.
pub open spec fn packed(cells: Seq<Cell>) -> int
    decreases cells.len(),
{
    if cells.len() == 0 {
        0
    } else {
        nibble(cells[0]) + 16 * packed(cells.drop_first())
    }
}

/// The `i`th group of four bits.
pub open spec fn digit(bits: int, i: nat) -> int
    decreases i,
{
    if i == 0 {
        bits % 16
    } else {
        digit(bits / 16, (i - 1) as nat)
    }
}

impl Cell {
    /// What the packing keeps of a cell: the flag, and the nearest level.
    pub open spec fn quantised(self) -> Cell {
        Cell { active: self.active, velocity: level_velocity(velocity_level(self.velocity)) }
    }

    /// A cell nobody has touched.
    pub open spec fn blank() -> Cell {
        Cell { active: false, velocity: level_velocity(5) }
    }
}

impl Default for Cell {
    /// Level 5 of the eight the packing quantises to. A default that sat
    /// between two levels would not survive its own round trip.
    fn default() -> (c: Cell)
        ensures
            c == Cell::blank(),
    {
        Cell { active: false, velocity: Single { bits: 0x3F40_0000 } }
    }
}

fn level_of(v: Single) -> (level: u32)
    ensures
        level == velocity_level(v),
        level <= 7,
{
    if (Single { bits: 0x3F70_0000 }).le(v) {
        7
    } else if (Single { bits: 0x3F50_0000 }).le(v) {
        6
    } else if (Single { bits: 0x3F30_0000 }).le(v) {
        5
    } else if (Single { bits: 0x3F10_0000 }).le(v) {
        4
    } else if (Single { bits: 0x3EE0_0000 }).le(v) {
        3
    } else if (Single { bits: 0x3EA0_0000 }).le(v) {
        2
    } else if (Single { bits: 0x3E40_0000 }).le(v) {
        1
    } else {
        0
    }
}

fn velocity_of(level: u32) -> (v: Single)
    requires
        level <= 7,
    ensures
        v == level_velocity(level as int),
{
    let bits: u32 = match level {
        0 => 0x3E00_0000,
        1 => 0x3E80_0000,
        2 => 0x3EC0_0000,
        3 => 0x3F00_0000,
        4 => 0x3F20_0000,
        5 => 0x3F40_0000,
        6 => 0x3F60_0000,
        _ => 0x3F80_0000,
    };
    Single { bits }
}

/// A run of `k` cells packs into `k` groups of four bits.
proof fn lemma_packed_range(cells: Seq<Cell>)
    ensures
        0 <= packed(cells),
        cells.len() <= 8 ==> packed(cells) < pow16(cells.len()),
    decreases cells.len(),
{
    if cells.len() > 0 {
        lemma_packed_range(cells.drop_first());
    }
}

/// Sixteen to the `k`th.
pub open spec fn pow16(k: nat) -> int
    decreases k,
{
    if k == 0 {
        1
    } else {
        16 * pow16((k - 1) as nat)
    }
}

/// Packs a column into a single word: eight pads, four bits each.
///
/// This is what makes the grid publishable without a lock: one store per
/// column means a reader can never see half a column. The level is written
/// whether or not the cell fires, so that toggling a cell off and on again
/// brings it back at the level it was programmed at.
pub fn pack_column(column: &Column) -> (bits: u32)
    ensures
        bits == packed(column@),
{
    let mut bits: u32 = 0;
    let mut i: usize = PAD_COUNT;
    proof {
        assert(column@.subrange(8, 8) =~= Seq::<Cell>::empty());
    }
    while i > 0
        invariant
            i <= 8,
            bits == packed(column@.subrange(i as int, 8)),
        decreases i,
    {
        let cell: Cell = column[i - 1];
        let flag: u32 = if cell.active {
            8
        } else {
            0
        };
        let level: u32 = level_of(cell.velocity);
        proof {
            let rest = column@.subrange(i as int, 8);
            lemma_packed_range(rest);
            reveal_with_fuel(pow16, 9);
            assert(column@.subrange(i - 1, 8).drop_first() =~= rest);
        }
        bits = flag + level + 16 * bits;
        i = i - 1;
    }
    assert(column@.subrange(0, 8) =~= column@);
    bits
}

/// Reverses `pack_column`. A silent cell comes back at the level it was
/// programmed at, not at the default: that is what lets a panel toggle a cell
/// off and on again without losing the velocity somebody set.
pub fn unpack_column(bits: u32) -> (column: Column)
    ensures
        forall|i: int|
            0 <= i < 8 ==> #[trigger] column[i] == nibble_cell(digit(bits as int, i as nat)),
{
    let mut column: Column = [Cell { active: false, velocity: Single { bits: 0x3F40_0000 } };
        PAD_COUNT];
    let mut rest: u32 = bits;
    let mut i: usize = 0;
    while i < PAD_COUNT
        invariant
            i <= 8,
            forall|k: nat| #[trigger] digit(bits as int, (i + k) as nat) == digit(rest as int, k),
            forall|j: int|
                0 <= j < i ==> #[trigger] column[j] == nibble_cell(digit(bits as int, j as nat)),
        decreases 8 - i,
    {
        let n: u32 = rest % 16;
        assert(digit(bits as int, (i + 0nat) as nat) == digit(rest as int, 0nat));
        column[i] = Cell { active: n >= 8, velocity: velocity_of(n % 8) };
        let ghost before = rest as int;
        rest = rest / 16;
        proof {
            assert forall|k: nat| #[trigger] digit(bits as int, (i + 1 + k) as nat) == digit(
                rest as int,
                k,
            ) by {
                assert(digit(bits as int, (i + (k + 1)) as nat) == digit(before, k + 1));
            }
        }
        i = i + 1;
    }
    column
}

/// The digits of a packed run are its cells.
proof fn lemma_digit_of_packed(cells: Seq<Cell>, i: nat)
    requires
        i < cells.len(),
    ensures
        digit(packed(cells), i) == nibble(cells[i as int]),
    decreases i,
{
    let rest = cells.drop_first();
    assert(packed(cells) % 16 == nibble(cells[0]));
    assert(packed(cells) / 16 == packed(rest));
    if i > 0 {
        lemma_digit_of_packed(rest, (i - 1) as nat);
    }
}

/// A level is nearest to its own velocity.
proof fn lemma_level_of_velocity(level: int)
    requires
        0 <= level <= 7,
    ensures
        velocity_level(level_velocity(level)) == level,
{
}

/// A column survives the trip through one word: every flag exactly, every
/// velocity at its nearest level, fired or silent.
pub proof fn law_column_round_trip(column: Column, back: Column)
    requires
        forall|i: int|
            0 <= i < 8 ==> #[trigger] back[i] == nibble_cell(digit(packed(column@), i as nat)),
    ensures
        forall|i: int| 0 <= i < 8 ==> #[trigger] back[i] == column[i].quantised(),
{
    assert forall|i: int| 0 <= i < 8 implies #[trigger] back[i] == column[i].quantised() by {
        lemma_digit_of_packed(column@, i as nat);
    }
}

/// Quantising a second time changes nothing: a cell that has been through the
/// packing once comes back unchanged for ever after.
pub proof fn law_quantising_settles(cell: Cell)
    ensures
        cell.quantised().quantised() == cell.quantised(),
        Cell::blank().quantised() == Cell::blank(),
{
    lemma_level_of_velocity(velocity_level(cell.velocity));
}

/// Every word is the packing of the column it unpacks to.
pub proof fn law_word_round_trip(bits: u32, column: Column)
    requires
        forall|i: int|
            0 <= i < 8 ==> #[trigger] column[i] == nibble_cell(digit(bits as int, i as nat)),
    ensures
        packed(column@) == bits,
{
    assert forall|i: int| 0 <= i < 8 implies nibble(#[trigger] column@[i]) == digit(
        bits as int,
        i as nat,
    ) by {
        lemma_digit_range(bits as int, i as nat);
        lemma_level_of_velocity(digit(bits as int, i as nat) % 8);
        assert(column[i] == nibble_cell(digit(bits as int, i as nat)));
    }
    reveal_with_fuel(pow16, 9);
    lemma_packed_of_digits(bits as int, column@);
}

proof fn lemma_digit_range(bits: int, i: nat)
    ensures
        0 <= digit(bits, i) < 16,
    decreases i,
{
    if i > 0 {
        lemma_digit_range(bits / 16, (i - 1) as nat);
    }
}

proof fn lemma_packed_of_digits(bits: int, cells: Seq<Cell>)
    requires
        0 <= bits < pow16(cells.len()),
        forall|i: int|
            0 <= i < cells.len() ==> nibble(#[trigger] cells[i]) == digit(bits, i as nat),
    ensures
        packed(cells) == bits,
    decreases cells.len(),
{
    if cells.len() > 0 {
        let rest = cells.drop_first();
        assert forall|i: int| 0 <= i < rest.len() implies nibble(#[trigger] rest[i]) == digit(
            bits / 16,
            i as nat,
        ) by {
            assert(nibble(cells[i + 1]) == digit(bits, (i + 1) as nat));
        }
        lemma_packed_of_digits(bits / 16, rest);
        assert(nibble(cells[0]) == digit(bits, 0));
    }
}

/// The whole grid, as a plain value.
///
/// Handed out by copy: the real grid lives on the audio thread, and lending a
/// reference to it would need a lock.
#[derive(Debug, Clone, Copy)]
pub struct DrumPattern {
    pub columns: [Column; MAX_STEPS],
    pub len: usize,
}

/// The grid as a table: cells by step and pad, and the length in steps.
#[verifier::ext_equal]
pub struct DrumGrid {
    pub cells: Seq<Seq<Cell>>,
    pub len: int,
}

impl DrumGrid {
    /// A grid nobody has touched.
    pub open spec fn blank() -> DrumGrid {
        DrumGrid {
            cells: Seq::new(
                MAX_STEPS as nat,
                |i: int| Seq::new(PAD_COUNT as nat, |k: int| Cell::blank()),
            ),
            len: 0,
        }
    }

    /// Whether the table is the size of the grid.
    pub open spec fn wf(self) -> bool {
        &&& self.cells.len() == MAX_STEPS
        &&& forall|i: int| 0 <= i < MAX_STEPS ==> (#[trigger] self.cells[i]).len() == PAD_COUNT
        &&& 0 <= self.len <= MAX_STEPS
    }

    /// The cell at a step and pad; a blank one outside the grid.
    pub open spec fn cell(self, step: int, pad: int) -> Cell {
        if 0 <= step < MAX_STEPS && 0 <= pad < PAD_COUNT {
            self.cells[step][pad]
        } else {
            Cell::blank()
        }
    }

    /// The grid with one cell replaced; unchanged outside the grid.
    pub open spec fn with_cell(self, step: int, pad: int, cell: Cell) -> DrumGrid {
        if 0 <= step < MAX_STEPS && 0 <= pad < PAD_COUNT {
            DrumGrid {
                cells: self.cells.update(step, self.cells[step].update(pad, cell)),
                len: self.len,
            }
        } else {
            self
        }
    }

    /// The grid with one cell turned on or off.
    pub open spec fn toggled(self, step: int, pad: int) -> DrumGrid {
        let c = self.cell(step, pad);
        self.with_cell(step, pad, Cell { active: !c.active, velocity: c.velocity })
    }

    /// The grid with another length, no longer than its storage.
    pub open spec fn with_len(self, len: int) -> DrumGrid {
        DrumGrid {
            cells: self.cells,
            len: if len <= MAX_STEPS {
                len
            } else {
                MAX_STEPS as int
            },
        }
    }
}

impl View for DrumPattern {
    type V = DrumGrid;

    open spec fn view(&self) -> DrumGrid {
        DrumGrid {
            cells: Seq::new(MAX_STEPS as nat, |i: int| self.columns[i]@),
            len: self.len as int,
        }
    }
}

impl DrumPattern {
    /// A pattern is never longer than its storage.
    pub open spec fn wf(self) -> bool {
        self.len <= MAX_STEPS
    }

    pub fn new(columns: [Column; MAX_STEPS], len: usize) -> (p: DrumPattern)
        ensures
            p.wf(),
            p.columns == columns,
            p.len == (if len <= MAX_STEPS {
                len
            } else {
                MAX_STEPS
            }),
    {
        DrumPattern {
            columns,
            len: if len <= MAX_STEPS {
                len
            } else {
                MAX_STEPS
            },
        }
    }

    pub fn len(&self) -> (n: usize)
        ensures
            n == self@.len,
    {
        self.len
    }

    pub fn is_empty(&self) -> (yes: bool)
        ensures
            yes == (self@.len == 0),
    {
        self.len == 0
    }

    pub fn set_len(&mut self, len: usize)
        ensures
            final(self).wf(),
            final(self)@ == old(self)@.with_len(len as int),
    {
        self.len = if len <= MAX_STEPS {
            len
        } else {
            MAX_STEPS
        };
    }

    /// The columns inside the length.
    pub fn columns(&self) -> (s: &[Column])
        requires
            self.wf(),
        ensures
            s@ == self.columns@.subrange(0, self.len as int),
    {
        vstd::slice::slice_subrange(self.columns.as_slice(), 0, self.len)
    }

    /// Out-of-range indices give an inactive cell rather than panicking: some
    /// callers are on the audio thread, where a wrong cell is survivable.
    pub fn get(&self, step: usize, pad: usize) -> (c: Cell)
        ensures
            c == self@.cell(step as int, pad as int),
    {
        if step < MAX_STEPS && pad < PAD_COUNT {
            self.columns[step][pad]
        } else {
            Cell::default()
        }
    }

    /// Replaces one cell; out-of-range indices change nothing.
    pub fn set(&mut self, step: usize, pad: usize, cell: Cell)
        ensures
            final(self)@ == old(self)@.with_cell(step as int, pad as int, cell),
            final(self).len == old(self).len,
    {
        if step < MAX_STEPS && pad < PAD_COUNT {
            self.columns[step][pad] = cell;
        }
        proof {
            let there = old(self)@.with_cell(step as int, pad as int, cell);
            assert forall|i: int| 0 <= i < MAX_STEPS implies self@.cells[i] =~= there.cells[i] by {}
            assert(self@ =~= there);
        }
    }

    pub fn toggle(&mut self, step: usize, pad: usize)
        ensures
            final(self)@ == old(self)@.toggled(step as int, pad as int),
            final(self).len == old(self).len,
    {
        let mut cell: Cell = self.get(step, pad);
        cell.active = !cell.active;
        self.set(step, pad, cell);
    }
}

impl Default for DrumPattern {
    fn default() -> (p: DrumPattern)
        ensures
            p.wf(),
            p@ == DrumGrid::blank(),
    {
        let blank: Cell = Cell::default();
        let p: DrumPattern = DrumPattern { columns: [[blank; PAD_COUNT]; MAX_STEPS], len: 0 };
        assert(p@.cells =~~= DrumGrid::blank().cells);
        p
    }
}

/// A toggle is its own inverse.
pub proof fn law_toggle_undoes_itself(g: DrumGrid, step: int, pad: int)
    requires
        g.wf(),
    ensures
        g.toggled(step, pad).toggled(step, pad) == g,
{
    let twice = g.toggled(step, pad).toggled(step, pad);
    if 0 <= step < MAX_STEPS && 0 <= pad < PAD_COUNT {
        assert(twice.cells[step] =~= g.cells[step]);
    }
    assert(twice.cells =~= g.cells);
}

/// Nothing outside the grid can be set, and what is set there reads as blank.
pub proof fn law_outside_the_grid_is_inert(g: DrumGrid, step: int, pad: int, cell: Cell)
    requires
        step >= MAX_STEPS || pad >= PAD_COUNT,
    ensures
        g.with_cell(step, pad, cell) == g,
        g.toggled(step, pad) == g,
        !g.cell(step, pad).active,
{
}

/// What is set is what is read back, and nothing else changes.
pub proof fn law_set_cell_is_read_back(
    g: DrumGrid,
    step: int,
    pad: int,
    cell: Cell,
    s: int,
    p: int,
)
    requires
        g.wf(),
        0 <= step < MAX_STEPS,
        0 <= pad < PAD_COUNT,
    ensures
        g.with_cell(step, pad, cell).cell(s, p) == (if s == step && p == pad {
            cell
        } else {
            g.cell(s, p)
        }),
{
}

} // verus!
