//! The on-screen piano: where its keys lie, and which one is under the pointer.

use crate::params::of;
use crate::single::Single;
use crate::ui;
use crate::ui::{black_note, white_keys, white_note};
use vstd::prelude::*;

verus! {

/// A rectangle on the panel, edges included.
#[derive(Debug, Clone, Copy, PartialEq, Eq, Structural)]
pub struct Area {
    pub left: Single,
    pub top: Single,
    pub right: Single,
    pub bottom: Single,
}

impl Area {
    pub open spec fn holds(self, x: Single, y: Single) -> bool {
        &&& self.left.at_most(x) && x.at_most(self.right)
        &&& self.top.at_most(y) && y.at_most(self.bottom)
    }

    pub fn contains(&self, x: Single, y: Single) -> (yes: bool)
        ensures
            yes == self.holds(x, y),
    {
        self.left.le(x) && x.le(self.right) && self.top.le(y) && y.le(self.bottom)
    }
}

/// A key of the piano.
#[derive(Debug, Clone, Copy, PartialEq, Eq, Structural)]
pub struct PianoKey {
    pub note: u8,
    pub black: bool,
    pub area: Area,
    /// Whether its octave is written on it.
    pub named: bool,
}

/// A piano as wide and as high as asked for.
#[derive(Debug, Clone, Copy, PartialEq, Eq, Structural)]
pub struct Piano {
    pub base: u8,
    pub octaves: u32,
    pub left: Single,
    pub top: Single,
    pub width: Single,
    pub height: Single,
}

impl Piano {
    /// How many white keys there are; the black ones sit between them rather than taking
    /// width of their own.
    pub open spec fn count(self) -> int {
        if self.octaves == 0 {
            1
        } else {
            7 * self.octaves
        }
    }

    pub open spec fn white_width(self) -> Single {
        self.width.quotient(Single::nearest_to(self.count()))
    }

    /// The `i`th white key, if there is such a note. A gap of one point parts it from the
    /// next.
    pub open spec fn white(self, i: int) -> Option<PianoKey> {
        let left = self.left.sum(self.white_width().product(Single::nearest_to(i)));
        if ui::white_at(self.base, i) <= 127 {
            Some(
                PianoKey {
                    note: ui::white_at(self.base, i) as u8,
                    black: false,
                    area: Area {
                        left,
                        top: self.top,
                        right: left.sum(self.white_width().difference(of(0x3F80_0000))),
                        bottom: self.top.sum(self.height),
                    },
                    named: i % 7 == 0,
                },
            )
        } else {
            None
        }
    }

    /// The black key after the `i`th white one, if there is such a key. It straddles the
    /// gap, and is shorter.
    pub open spec fn black(self, i: int) -> Option<PianoKey> {
        let wide = self.white_width().product(of(0x3F1E_B852));
        let left = self.left.sum(
            self.white_width().product(Single::nearest_to(i).sum(of(0x3F80_0000))),
        ).difference(wide.product(of(0x3F00_0000)));
        if ui::black_follows(i) && ui::white_at(self.base, i) + 1 <= 127 {
            Some(
                PianoKey {
                    note: (ui::white_at(self.base, i) + 1) as u8,
                    black: true,
                    area: Area {
                        left,
                        top: self.top,
                        right: left.sum(wide),
                        bottom: self.top.sum(self.height.product(of(0x3F19_999A))),
                    },
                    named: false,
                },
            )
        } else {
            None
        }
    }

    /// The keys of one colour, up to the `n`th white one.
    pub open spec fn row(self, black: bool, n: int) -> Seq<PianoKey>
        decreases n,
    {
        if n <= 0 {
            Seq::empty()
        } else {
            let next = if black {
                self.black(n - 1)
            } else {
                self.white(n - 1)
            };
            match next {
                Some(key) => self.row(black, n - 1).push(key),
                None => self.row(black, n - 1),
            }
        }
    }

    /// Every key in the order they are painted: the white ones first, so that the black
    /// ones lie on top.
    pub fn keys(&self) -> (v: Vec<PianoKey>)
        requires
            self.octaves <= 613_566_756,
        ensures
            v@ == self.row(false, self.count()) + self.row(true, self.count()),
    {
        let n: u32 = white_keys(self.octaves);
        let wide: Single = self.width.over(Single::from_whole(n as u64));
        let narrow: Single = wide.times(of(0x3F1E_B852));
        let bottom: Single = self.top.plus(self.height);
        let short: Single = self.top.plus(self.height.times(of(0x3F19_999A)));
        let mut v: Vec<PianoKey> = Vec::new();
        let mut i: u32 = 0;
        while i < n
            invariant
                i <= n == self.count(),
                wide == self.white_width(),
                bottom == self.top.sum(self.height),
                v@ == self.row(false, i as int),
            decreases n - i,
        {
            if let Some(note) = white_note(self.base, i) {
                let left: Single = self.left.plus(wide.times(Single::from_whole(i as u64)));
                let right: Single = left.plus(wide.minus(of(0x3F80_0000)));
                v.push(
                    PianoKey {
                        note,
                        black: false,
                        area: Area { left, top: self.top, right, bottom },
                        named: i % 7 == 0,
                    },
                );
            }
            i = i + 1;
        }
        let ghost whites = v@;
        let mut j: u32 = 0;
        while j < n
            invariant
                j <= n == self.count(),
                wide == self.white_width(),
                narrow == wide.product(of(0x3F1E_B852)),
                short == self.top.sum(self.height.product(of(0x3F19_999A))),
                v@ == whites + self.row(true, j as int),
            decreases n - j,
        {
            if let Some(note) = black_note(self.base, j) {
                let place: Single = Single::from_whole(j as u64).plus(of(0x3F80_0000));
                let left: Single = self.left.plus(wide.times(place)).minus(
                    narrow.times(of(0x3F00_0000)),
                );
                let right: Single = left.plus(narrow);
                v.push(
                    PianoKey {
                        note,
                        black: true,
                        area: Area { left, top: self.top, right, bottom: short },
                        named: false,
                    },
                );
            }
            j = j + 1;
            assert(v@ =~= whites + self.row(true, j as int));
        }
        v
    }
}

/// Which of the first `n` keys lies on top at a point.
pub open spec fn topmost(keys: Seq<PianoKey>, n: int, x: Single, y: Single) -> Option<int>
    decreases n,
{
    if n <= 0 {
        None
    } else if keys[n - 1].area.holds(x, y) {
        Some(n - 1)
    } else {
        topmost(keys, n - 1, x, y)
    }
}

/// The note of the key under the pointer.
pub fn note_under(keys: &Vec<PianoKey>, x: Single, y: Single) -> (note: Option<u8>)
    ensures
        note == (match topmost(keys@, keys@.len() as int, x, y) {
            Some(k) => Some(keys@[k].note),
            None => None,
        }),
{
    let mut n: usize = keys.len();
    while n > 0
        invariant
            n <= keys@.len(),
            topmost(keys@, keys@.len() as int, x, y) == topmost(keys@, n as int, x, y),
        decreases n,
    {
        if keys[n - 1].area.contains(x, y) {
            return Some(keys[n - 1].note);
        }
        n = n - 1;
    }
    None
}

/// Whatever is pressed lies under the pointer, and nothing painted after it does.
pub proof fn law_the_key_on_top_is_pressed(
    keys: Seq<PianoKey>,
    n: int,
    j: int,
    x: Single,
    y: Single,
)
    requires
        0 <= j < n <= keys.len(),
        keys[j].area.holds(x, y),
    ensures
        topmost(keys, n, x, y) matches Some(k) && j <= k < n && keys[k].area.holds(x, y),
    decreases n,
{
    if !keys[n - 1].area.holds(x, y) {
        law_the_key_on_top_is_pressed(keys, n - 1, j, x, y);
    }
}

proof fn lemma_row_colour(p: Piano, black: bool, n: int)
    ensures
        forall|i: int|
            0 <= i < p.row(black, n).len() ==> (#[trigger] p.row(black, n)[i]).black == black,
    decreases n,
{
    if n > 0 {
        lemma_row_colour(p, black, n - 1);
        let shorter = p.row(black, n - 1);
        assert forall|i: int| 0 <= i < p.row(black, n).len() implies (#[trigger] p.row(
            black,
            n,
        )[i]).black == black by {
            if i < shorter.len() {
                assert(p.row(black, n)[i] == shorter[i]);
            }
        }
    }
}

/// Where a black key covers a white one, the black one is pressed.
pub proof fn law_a_black_key_wins(p: Piano, j: int, x: Single, y: Single)
    requires
        0 <= j < p.row(true, p.count()).len(),
        p.row(true, p.count())[j].area.holds(x, y),
    ensures
        ({
            let keys = p.row(false, p.count()) + p.row(true, p.count());
            topmost(keys, keys.len() as int, x, y) matches Some(k) && 0 <= k < keys.len()
                && keys[k].black
        }),
{
    let whites = p.row(false, p.count());
    let blacks = p.row(true, p.count());
    let keys = whites + blacks;
    lemma_row_colour(p, true, p.count());
    assert(keys[whites.len() + j] == blacks[j]);
    law_the_key_on_top_is_pressed(keys, keys.len() as int, whites.len() + j, x, y);
    let k = topmost(keys, keys.len() as int, x, y)->0;
    assert(keys[k] == blacks[k - whites.len()]);
}

} // verus!
