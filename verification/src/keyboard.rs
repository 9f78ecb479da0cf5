//! Playing the synth from the computer keyboard, tracker-style.
//!
//! Two rows of keys give two octaves, in the layout every tracker and DAW uses:
//! `Z S X D C V G B H N J M` is the lower octave with the black keys on the row
//! above, and `Q 2 W 3 E R 5 T 6 Y 7 U` is the octave above that. `[` and `]`
//! transpose.

use crate::event::Event;
use crate::params::of;
use crate::single::Single;
use vstd::prelude::*;

verus! {

/// The keys that play, by their place on the board.
#[derive(Debug, Clone, Copy, PartialEq, Eq, Structural)]
pub enum Key {
    KeyZ,
    KeyS,
    KeyX,
    KeyD,
    KeyC,
    KeyV,
    KeyG,
    KeyB,
    KeyH,
    KeyN,
    KeyJ,
    KeyM,
    Comma,
    KeyQ,
    Digit2,
    KeyW,
    Digit3,
    KeyE,
    KeyR,
    Digit5,
    KeyT,
    Digit6,
    KeyY,
    Digit7,
    KeyU,
    KeyI,
}

/// How many keys play.
pub const KEY_COUNT: usize = 26;

/// The keys that play: the lower octave first, its home row the white keys, then
/// the upper.
pub const KEYS: [Key; 26] = [
    Key::KeyZ,
    Key::KeyS,
    Key::KeyX,
    Key::KeyD,
    Key::KeyC,
    Key::KeyV,
    Key::KeyG,
    Key::KeyB,
    Key::KeyH,
    Key::KeyN,
    Key::KeyJ,
    Key::KeyM,
    Key::Comma,
    Key::KeyQ,
    Key::Digit2,
    Key::KeyW,
    Key::Digit3,
    Key::KeyE,
    Key::KeyR,
    Key::Digit5,
    Key::KeyT,
    Key::Digit6,
    Key::KeyY,
    Key::Digit7,
    Key::KeyU,
    Key::KeyI,
];

impl Key {
    /// The key's semitone, counted from the C of the current octave.
    pub open spec fn semitone(self) -> int {
        match self {
            Key::KeyZ => 0,
            Key::KeyS => 1,
            Key::KeyX => 2,
            Key::KeyD => 3,
            Key::KeyC => 4,
            Key::KeyV => 5,
            Key::KeyG => 6,
            Key::KeyB => 7,
            Key::KeyH => 8,
            Key::KeyN => 9,
            Key::KeyJ => 10,
            Key::KeyM => 11,
            Key::Comma => 12,
            Key::KeyQ => 12,
            Key::Digit2 => 13,
            Key::KeyW => 14,
            Key::Digit3 => 15,
            Key::KeyE => 16,
            Key::KeyR => 17,
            Key::Digit5 => 18,
            Key::KeyT => 19,
            Key::Digit6 => 20,
            Key::KeyY => 21,
            Key::Digit7 => 22,
            Key::KeyU => 23,
            Key::KeyI => 24,
        }
    }

    pub fn offset(self) -> (n: i32)
        ensures
            n == self.semitone(),
            0 <= n <= 24,
    {
        match self {
            Key::KeyZ => 0,
            Key::KeyS => 1,
            Key::KeyX => 2,
            Key::KeyD => 3,
            Key::KeyC => 4,
            Key::KeyV => 5,
            Key::KeyG => 6,
            Key::KeyB => 7,
            Key::KeyH => 8,
            Key::KeyN => 9,
            Key::KeyJ => 10,
            Key::KeyM => 11,
            Key::Comma => 12,
            Key::KeyQ => 12,
            Key::Digit2 => 13,
            Key::KeyW => 14,
            Key::Digit3 => 15,
            Key::KeyE => 16,
            Key::KeyR => 17,
            Key::Digit5 => 18,
            Key::KeyT => 19,
            Key::Digit6 => 20,
            Key::KeyY => 21,
            Key::Digit7 => 22,
            Key::KeyU => 23,
            Key::KeyI => 24,
        }
    }
}

/// Which octave the computer keyboard plays in.
#[derive(Debug, Clone, Copy, PartialEq, Eq, Structural)]
pub struct KeyboardOctave(pub i32);

impl Default for KeyboardOctave {
    fn default() -> (o: KeyboardOctave)
        ensures
            o.0 == 4,
    {
        // Octave 4 puts `Z` on middle C, matching every tracker's default.
        KeyboardOctave(4)
    }
}

/// What the keyboard did since it was last looked at: which of [`KEYS`] went down
/// and which came up, and the two keys that transpose.
#[derive(Debug, Clone, Copy)]
pub struct KeyFrame {
    pub pressed: [bool; KEY_COUNT],
    pub released: [bool; KEY_COUNT],
    pub shift_down: bool,
    pub shift_up: bool,
}

/// The note a key plays in an octave, where there is one.
pub open spec fn note_of(octave: int, key: Key) -> Option<u8> {
    let note = (octave + 1) * 12 + key.semitone();
    if 0 <= note <= 127 {
        Some(note as u8)
    } else {
        None
    }
}

/// What the first `n` keys ask for, in order: a key that went down starts its
/// note, one that came up ends it.
pub open spec fn played(octave: int, f: KeyFrame, n: int) -> Seq<Event>
    decreases n,
{
    if n <= 0 {
        Seq::empty()
    } else {
        let before = played(octave, f, n - 1);
        match note_of(octave, KEYS[n - 1]) {
            Some(note) => {
                let on = if f.pressed[n - 1] {
                    before.push(Event::NoteOn { note, velocity: of(0x3F59_999A) })
                } else {
                    before
                };
                if f.released[n - 1] {
                    on.push(Event::NoteOff { note })
                } else {
                    on
                }
            },
            None => before,
        }
    }
}

/// The octave after a frame. It stays between 0 and 8.
pub open spec fn transposed(octave: int, f: KeyFrame) -> int {
    if f.shift_down {
        if octave - 1 < 0 {
            0
        } else {
            octave - 1
        }
    } else if f.shift_up {
        if octave + 1 > 8 {
            8
        } else {
            octave + 1
        }
    } else {
        octave
    }
}

/// What a frame asks for. A frame that transposes only lets everything go: a
/// release would otherwise be worked out in the new octave, and the old note
/// would hang forever.
pub open spec fn asked(octave: int, f: KeyFrame) -> Seq<Event> {
    if f.shift_down || f.shift_up {
        seq![Event::AllNotesOff]
    } else {
        played(octave, f, KEY_COUNT as int)
    }
}

/// Turns key presses into events.
pub fn keyboard_input(octave: &mut KeyboardOctave, frame: &KeyFrame) -> (events: Vec<Event>)
    requires
        // Beyond this a note number would not fit its word.
        -178_956_971 <= old(octave).0 <= 178_956_967,
    ensures
        events@ == asked(old(octave).0 as int, *frame),
        final(octave).0 == transposed(old(octave).0 as int, *frame),
{
    let mut events: Vec<Event> = Vec::new();
    if frame.shift_down || frame.shift_up {
        events.push(Event::AllNotesOff);
        assert(events@ =~= seq![Event::AllNotesOff]);
        if frame.shift_down {
            octave.0 = if octave.0 - 1 < 0 {
                0
            } else {
                octave.0 - 1
            };
        } else {
            octave.0 = if octave.0 + 1 > 8 {
                8
            } else {
                octave.0 + 1
            };
        }
        return events;
    }
    let base: i32 = (octave.0 + 1) * 12;
    let mut i: usize = 0;
    while i < KEY_COUNT
        invariant
            i <= 26,
            base == (octave.0 + 1) * 12,
            base <= 2_147_483_616,
            *octave == *old(octave),
            events@ == played(octave.0 as int, *frame, i as int),
        decreases 26 - i,
    {
        let note: i32 = base + KEYS[i].offset();
        if 0 <= note && note <= 127 {
            if frame.pressed[i] {
                events.push(Event::NoteOn { note: note as u8, velocity: of(0x3F59_999A) });
            }
            if frame.released[i] {
                events.push(Event::NoteOff { note: note as u8 });
            }
        }
        i = i + 1;
    }
    events
}

/// The octave never leaves its range.
pub proof fn law_the_octave_stays_in_range(octave: int, f: KeyFrame)
    requires
        0 <= octave <= 8,
    ensures
        0 <= transposed(octave, f) <= 8,
{
}

/// No key is listed twice.
pub proof fn law_no_key_plays_two_notes(i: int, j: int)
    requires
        0 <= i < j < KEY_COUNT,
    ensures
        KEYS[i] != KEYS[j],
{
}

/// Every semitone of the two octaves has a key.
pub proof fn law_the_keys_cover_two_octaves(semitone: int)
    requires
        0 <= semitone <= 24,
    ensures
        exists|i: int| 0 <= i < KEY_COUNT && (#[trigger] KEYS[i]).semitone() == semitone,
{
    let i = if semitone <= 12 {
        semitone
    } else {
        semitone + 1
    };
    assert(KEYS[i].semitone() == semitone);
}

proof fn lemma_played_holds(octave: int, f: KeyFrame, n: int, i: int)
    requires
        0 <= i < n <= KEY_COUNT,
    ensures
        note_of(octave, KEYS[i]) matches Some(note) ==> {
            &&& f.pressed[i] ==> played(octave, f, n).contains(
                Event::NoteOn { note, velocity: of(0x3F59_999A) },
            )
            &&& f.released[i] ==> played(octave, f, n).contains(Event::NoteOff { note })
        },
    decreases n,
{
    broadcast use vstd::seq_lib::group_seq_properties;

    if i < n - 1 {
        lemma_played_holds(octave, f, n - 1, i);
    }
    if let Some(note) = note_of(octave, KEYS[n - 1]) {
        let before = played(octave, f, n - 1);
        let on = if f.pressed[n - 1] {
            before.push(Event::NoteOn { note, velocity: of(0x3F59_999A) })
        } else {
            before
        };
        let all = played(octave, f, n);
        if f.pressed[n - 1] {
            assert(on[on.len() - 1] == Event::NoteOn { note, velocity: of(0x3F59_999A) });
            assert(all[on.len() - 1] == on[on.len() - 1]);
        }
        if f.released[n - 1] {
            assert(all[all.len() - 1] == Event::NoteOff { note });
        }
        if let Some(m) = note_of(octave, KEYS[i]) {
            if i < n - 1 {
                assert forall|e: Event| before.contains(e) implies #[trigger] all.contains(e) by {
                    let k = before.index_of(e);
                    assert(before[k] == e);
                    assert(all[k] == e);
                }
            }
        }
    }
}

/// A key let go in the octave it was pressed in ends the note it started: no note
/// hangs.
pub proof fn law_a_key_ends_the_note_it_started(octave: int, down: KeyFrame, up: KeyFrame, i: int)
    requires
        0 <= i < KEY_COUNT,
        0 <= octave <= 8,
        !down.shift_down && !down.shift_up && !up.shift_down && !up.shift_up,
        down.pressed[i],
        up.released[i],
    ensures
        note_of(octave, KEYS[i]) matches Some(note) ==> {
            &&& asked(octave, down).contains(Event::NoteOn { note, velocity: of(0x3F59_999A) })
            &&& asked(transposed(octave, down), up).contains(Event::NoteOff { note })
        },
{
    lemma_played_holds(octave, down, KEY_COUNT as int, i);
    lemma_played_holds(octave, up, KEY_COUNT as int, i);
}

} // verus!
