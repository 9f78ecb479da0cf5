//! MIDI input: what messages mean, and which port to listen to.
//!
//! Clock is 24 ticks per quarter note, sent continuously whether or not the
//! transport is running, plus Start, Continue and Stop. Forwarding all four is
//! what lets the sequencer lock to a DAW or a drum machine.

use crate::event::{Event, EventQueue};
use crate::note;
use crate::note::Note;
use crate::params::of;
use crate::single::Single;
use vstd::prelude::*;
use vstd::string::StringExecFns;

verus! {

/// Which MIDI port to open.
#[derive(Debug, Clone, PartialEq, Eq)]
pub enum PortSelector {
    /// The first port the system reports.
    First,
    /// The first port whose name contains this string, case-insensitively.
    ///
    /// Substring rather than exact match on purpose: port names carry a device
    /// index that changes between plug-ins, so `"Keystep"` keeps working where
    /// the full string would not.
    Matching(String),
    /// A specific index into the list of ports.
    Index(usize),
}

impl Default for PortSelector {
    fn default() -> (s: PortSelector)
        ensures
            s == PortSelector::First,
    {
        PortSelector::First
    }
}

/// Why there is no MIDI input.
#[derive(Debug)]
pub enum MidiError {
    /// No MIDI subsystem at all. Normal on machines without one; not fatal.
    Unavailable,
    NoPorts,
    Connect(String),
}

impl MidiError {
    /// The error in words.
    pub open spec fn words(self) -> Seq<char> {
        match self {
            MidiError::Unavailable => "no MIDI subsystem available"@,
            MidiError::NoPorts => "no matching MIDI input port"@,
            MidiError::Connect(e) => "could not connect to the MIDI port: "@ + e@,
        }
    }

    pub fn message(&self) -> (s: String)
        ensures
            s@ == self.words(),
    {
        match self {
            MidiError::Unavailable => String::from_str("no MIDI subsystem available"),
            MidiError::NoPorts => String::from_str("no matching MIDI input port"),
            MidiError::Connect(e) => String::from_str(
                "could not connect to the MIDI port: ",
            ).concat(e.as_str()),
        }
    }
}

/// What `str::to_lowercase` makes of a text.
pub uninterp spec fn lowercase(text: Seq<char>) -> Seq<char>;

/// `str::to_lowercase`: the lowercase equivalent of the text, by Unicode's rules.
/// Nothing more is claimed of it than that it depends on the text alone.
#[verifier::external_body]
fn to_lowercase(text: &str) -> (s: String)
    ensures
        s@ == lowercase(text@),
{
    text.to_lowercase()
}

/// Whether a text holds another as a run of its characters.
pub open spec fn holds(text: Seq<char>, part: Seq<char>) -> bool {
    exists|i: int| #[trigger] part_at(text, part, i)
}

/// Whether a text holds another, starting at `i`.
pub open spec fn part_at(text: Seq<char>, part: Seq<char>, i: int) -> bool {
    0 <= i && i + part.len() <= text.len() && text.subrange(i, i + part.len()) == part
}

/// Whether a text holds another from its `i`-th character on.
fn starts_at(text: &str, part: &str, i: usize) -> (yes: bool)
    requires
        i + part@.len() <= text@.len(),
    ensures
        yes == part_at(text@, part@, i as int),
{
    let size: usize = part.unicode_len();
    let len: usize = text.unicode_len();
    let mut j: usize = 0;
    while j < size
        invariant
            size == part@.len(),
            len == text@.len(),
            i + size <= len,
            j <= size,
            forall|k: int| 0 <= k < j ==> text@[i + k] == part@[k],
        decreases size - j,
    {
        if text.get_char(i + j) != part.get_char(j) {
            assert(text@.subrange(i as int, i + size)[j as int] != part@[j as int]);
            return false;
        }
        j = j + 1;
    }
    assert(text@.subrange(i as int, i + size) =~= part@);
    true
}

/// Whether a text holds another anywhere.
fn contains(text: &str, part: &str) -> (yes: bool)
    ensures
        yes == holds(text@, part@),
{
    let len: usize = text.unicode_len();
    let size: usize = part.unicode_len();
    if size > len {
        return false;
    }
    let mut i: usize = 0;
    while i <= len - size
        invariant
            len == text@.len(),
            size == part@.len(),
            size <= len,
            i <= len - size,
            forall|k: int| 0 <= k < i ==> !part_at(text@, part@, k),
        decreases len - size - i,
    {
        if starts_at(text, part, i) {
            return true;
        }
        if i == len - size {
            return false;
        }
        i = i + 1;
    }
    false
}

/// Whether a port's name is one the search is for, whatever the case. A port that
/// gives no name is never found.
pub open spec fn name_matches(name: Option<String>, needle: Seq<char>) -> bool {
    match name {
        Some(n) => holds(lowercase(n@), lowercase(needle)),
        None => false,
    }
}

/// The first port from `i` on that the search finds.
pub open spec fn first_match(names: Seq<Option<String>>, needle: Seq<char>, i: int) -> Option<
    int,
>
    decreases names.len() - i,
{
    if i >= names.len() {
        None
    } else if name_matches(names[i], needle) {
        Some(i)
    } else {
        first_match(names, needle, i + 1)
    }
}

impl PortSelector {
    /// The port chosen among those listed.
    pub open spec fn chosen(self, names: Seq<Option<String>>) -> Option<int> {
        match self {
            PortSelector::First => if names.len() > 0 {
                Some(0)
            } else {
                None
            },
            PortSelector::Index(i) => if i < names.len() {
                Some(i as int)
            } else {
                None
            },
            PortSelector::Matching(needle) => first_match(names, needle@, 0),
        }
    }
}

/// The first name from `i` on that holds a text as it stands.
pub open spec fn first_holding(names: Seq<Option<String>>, part: Seq<char>, i: int) -> Option<int>
    decreases names.len() - i,
{
    if i >= names.len() {
        None
    } else if names[i] matches Some(n) && holds(n@, part) {
        Some(i)
    } else {
        first_holding(names, part, i + 1)
    }
}

/// Finds the first name that holds a text as it stands, case and all.
pub fn search(names: &Vec<Option<String>>, part: &str) -> (at: Option<usize>)
    ensures
        match first_holding(names@, part@, 0) {
            Some(i) => at == Some(i as usize) && 0 <= i < names@.len(),
            None => at is None,
        },
{
    let mut i: usize = 0;
    while i < names.len()
        invariant
            i <= names@.len(),
            first_holding(names@, part@, 0) == first_holding(names@, part@, i as int),
        decreases names@.len() - i,
    {
        match &names[i] {
            Some(name) => {
                if contains(name.as_str(), part) {
                    return Some(i);
                }
            },
            None => {},
        }
        i = i + 1;
    }
    None
}

/// Whether each of `low` is the lowercase of its counterpart.
spec fn all_lowered(names: Seq<Option<String>>, low: Seq<Option<String>>) -> bool {
    &&& low.len() == names.len()
    &&& forall|i: int|
        0 <= i < names.len() ==> match #[trigger] names[i] {
            Some(n) => low[i] matches Some(l) && l@ == lowercase(n@),
            None => low[i] is None,
        }
}

proof fn lemma_search_in_lower_case(
    names: Seq<Option<String>>,
    low: Seq<Option<String>>,
    needle: Seq<char>,
    i: int,
)
    requires
        all_lowered(names, low),
        0 <= i,
    ensures
        first_holding(low, lowercase(needle), i) == first_match(names, needle, i),
    decreases
        (if i < names.len() {
            names.len() - i
        } else {
            0
        }),
{
    if i < names.len() {
        lemma_search_in_lower_case(names, low, needle, i + 1);
        assert(names[i] is Some == low[i] is Some);
    }
}

fn lower_all(names: &Vec<Option<String>>) -> (low: Vec<Option<String>>)
    ensures
        all_lowered(names@, low@),
{
    let mut low: Vec<Option<String>> = Vec::new();
    let mut i: usize = 0;
    while i < names.len()
        invariant
            i <= names@.len(),
            all_lowered(names@.take(i as int), low@),
        decreases names@.len() - i,
    {
        let ghost before = low@;
        match &names[i] {
            Some(name) => low.push(Some(to_lowercase(name.as_str()))),
            None => low.push(None),
        }
        assert forall|k: int| 0 <= k < i + 1 implies match #[trigger] names@.take(i + 1)[k] {
            Some(n) => low@[k] matches Some(l) && l@ == lowercase(n@),
            None => low@[k] is None,
        } by {
            if k < i {
                assert(names@.take(i as int)[k] == names@[k]);
                assert(low@[k] == before[k]);
            }
        }
        i = i + 1;
    }
    assert(names@.take(i as int) =~= names@);
    low
}

/// Chooses a port among those listed, `None` standing for one without a name.
pub fn select_port(selector: &PortSelector, names: &Vec<Option<String>>) -> (port: Result<
    usize,
    MidiError,
>)
    ensures
        match selector.chosen(names@) {
            Some(i) => port == Ok::<usize, MidiError>(i as usize) && 0 <= i < names@.len(),
            None => port == Err::<usize, MidiError>(MidiError::NoPorts),
        },
{
    match selector {
        PortSelector::First => {
            if names.len() > 0 {
                Ok(0)
            } else {
                Err(MidiError::NoPorts)
            }
        },
        PortSelector::Index(i) => {
            if *i < names.len() {
                Ok(*i)
            } else {
                Err(MidiError::NoPorts)
            }
        },
        PortSelector::Matching(needle) => {
            let low: Vec<Option<String>> = lower_all(names);
            let needle_low: String = to_lowercase(needle.as_str());
            proof {
                lemma_search_in_lower_case(names@, low@, needle@, 0);
            }
            match search(&low, needle_low.as_str()) {
                Some(i) => Ok(i),
                None => Err(MidiError::NoPorts),
            }
        },
    }
}

/// A byte of a message; one that is missing counts as zero.
pub open spec fn data(message: Seq<u8>, i: int) -> u8 {
    if i < message.len() {
        message[i]
    } else {
        0
    }
}

/// A pitch bend in semitones: a 14-bit value, least significant part first,
/// centred, over the near-universal range of two semitones either way.
pub open spec fn bend(low: u8, high: u8) -> Single {
    let away = bend_distance(low, high);
    let size = Single::nearest_to(
        if away < 0 {
            -away
        } else {
            away
        },
    );
    (if away < 0 {
        size.opposite()
    } else {
        size
    }).quotient(of(0x4600_0000)).product(of(0x4000_0000))
}

/// How far a bend's value is from its centre. The parts are joined bit by bit.
pub open spec fn bend_distance(low: u8, high: u8) -> int {
    ((high as i32) << 7u32 | low as i32) - 8192
}

/// What one MIDI message asks for, if anything. The channel is ignored.
pub open spec fn meaning(message: Seq<u8>) -> Option<Event> {
    if message.len() == 0 {
        None
    } else {
        let status = message[0];
        let a = data(message, 1);
        let b = data(message, 2);
        // Real-time messages have no channel and can arrive in the middle of
        // anything, so they come first.
        if status == 0xF8 {
            Some(Event::ClockTick)
        } else if status == 0xFA {
            Some(Event::ClockStart)
        } else if status == 0xFB {
            Some(Event::ClockContinue)
        } else if status == 0xFC {
            Some(Event::ClockStop)
        } else if status / 16 == 9 {
            // A note-on with velocity zero is a note-off: keyboards use it to
            // save status bytes.
            if b == 0 {
                Some(Event::NoteOff { note: a })
            } else {
                Some(
                    Event::NoteOn {
                        note: a,
                        velocity: note::hundred_and_twenty_sevenths(b).clamped(
                            of(0),
                            of(0x3F80_0000),
                        ),
                    },
                )
            }
        } else if status / 16 == 8 {
            Some(Event::NoteOff { note: a })
        } else if status / 16 == 14 {
            Some(Event::PitchBend(bend(a, b)))
        } else if status / 16 == 11 {
            if a == 1 {
                Some(Event::ModWheel(note::hundred_and_twenty_sevenths(b)))
            } else if a == 120 {
                // All Sound Off.
                Some(Event::Panic)
            } else if a == 123 {
                // All Notes Off.
                Some(Event::AllNotesOff)
            } else {
                None
            }
        } else {
            None
        }
    }
}

fn bend_of(low: u8, high: u8) -> (x: Single)
    ensures
        x == bend(low, high),
{
    let raw: i32 = (high as i32) << 7u32 | low as i32;
    assert(0 <= (high as i32) << 7u32 | (low as i32) <= 0x7FFF) by (bit_vector);
    let size: Single = if raw < 8192 {
        Single::from_whole((8192 - raw) as u64).negated()
    } else {
        Single::from_whole((raw - 8192) as u64)
    };
    size.over(of(0x4600_0000)).times(of(0x4000_0000))
}

/// Parses one MIDI message.
pub fn parse(message: &[u8]) -> (e: Option<Event>)
    ensures
        e == meaning(message@),
{
    if message.len() == 0 {
        return None;
    }
    let status: u8 = message[0];
    match status {
        0xF8 => {
            return Some(Event::ClockTick);
        },
        0xFA => {
            return Some(Event::ClockStart);
        },
        0xFB => {
            return Some(Event::ClockContinue);
        },
        0xFC => {
            return Some(Event::ClockStop);
        },
        _ => {},
    }
    let kind: u8 = status / 16;
    let data1: u8 = if message.len() > 1 {
        message[1]
    } else {
        0
    };
    let data2: u8 = if message.len() > 2 {
        message[2]
    } else {
        0
    };
    match kind {
        9 => {
            if data2 == 0 {
                Some(Event::NoteOff { note: data1 })
            } else {
                let note: Note = Note::from_midi(data1, data2);
                Some(Event::NoteOn { note: note.pitch, velocity: note.velocity })
            }
        },
        8 => Some(Event::NoteOff { note: data1 }),
        14 => Some(Event::PitchBend(bend_of(data1, data2))),
        11 => match data1 {
            1 => Some(Event::ModWheel(note::from_data_byte(data2))),
            120 => Some(Event::Panic),
            123 => Some(Event::AllNotesOff),
            _ => None,
        },
        _ => None,
    }
}

/// Parses one MIDI message and pushes whatever it means onto the queue. A full
/// queue drops it.
pub fn handle_message(message: &[u8], producer: &mut EventQueue)
    requires
        old(producer).wf(),
    ensures
        final(producer).wf(),
        final(producer).room() == old(producer).room(),
        final(producer)@ == (match meaning(message@) {
            Some(e) => if old(producer)@.len() < old(producer).room() {
                old(producer)@.push(e)
            } else {
                old(producer)@
            },
            None => old(producer)@,
        }),
{
    match parse(message) {
        Some(event) => {
            let _ = producer.push(event);
        },
        None => {},
    }
}

/// The same message on another channel means the same.
pub proof fn law_the_channel_is_ignored(message: Seq<u8>, status: u8)
    requires
        message.len() > 0,
        message[0] < 0xF0,
        status / 16 == message[0] / 16,
    ensures
        meaning(message.update(0, status)) == meaning(message),
{
    let other = message.update(0, status);
    assert(other[0] == status);
    assert(data(other, 1) == data(message, 1));
    assert(data(other, 2) == data(message, 2));
}

/// A note-on with zero velocity, on any channel, is the same as a note-off: a
/// keyboard that ends its notes that way leaves none hanging.
pub proof fn law_zero_velocity_is_a_note_off(channel: u8, pitch: u8, velocity: u8)
    requires
        channel < 16,
    ensures
        meaning(seq![(0x90 + channel) as u8, pitch, 0]) == Some(Event::NoteOff { note: pitch }),
        meaning(seq![(0x80 + channel) as u8, pitch, velocity]) == Some(
            Event::NoteOff { note: pitch },
        ),
{
}

/// A bend's two seven-bit parts make one number, and only its centre is no bend.
pub proof fn law_only_the_centre_is_no_bend(low: u8, high: u8)
    requires
        low < 128,
        high < 128,
    ensures
        bend_distance(low, high) == 128 * high + low - 8192,
        bend_distance(low, high) == 0 <==> low == 0 && high == 64,
        low == 0 && high == 64 ==> bend(low, high).magnitude() == 0,
{
    assert((high as i32) << 7u32 | (low as i32) == 128 * high + low) by (bit_vector)
        requires
            low < 128,
            high < 128,
    ;
    if low == 0 && high == 64 {
        reveal(Single::quotient);
        reveal(Single::product);
        let zero = Single::nearest_to(0);
        assert(zero.bits == 0);
        let q = zero.quotient(of(0x4600_0000));
        assert(q.bits == 0);
        assert(q.parts().m == 0);
    }
}

} // verus!
