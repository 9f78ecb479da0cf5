use synth_core::event::Event;
use synth_core::keyboard::{keyboard_input, KeyFrame, KeyboardOctave, KEYS, KEY_COUNT};
use synth_core::Single;

fn idle() -> KeyFrame {
    KeyFrame {
        pressed: [false; KEY_COUNT],
        released: [false; KEY_COUNT],
        shift_down: false,
        shift_up: false,
    }
}

fn on(note: u8) -> Event {
    Event::NoteOn {
        note,
        velocity: Single::from_bits(0.85f32.to_bits()),
    }
}

#[test]
fn no_key_maps_to_two_notes() {
    for (i, key) in KEYS.iter().enumerate() {
        for other_key in KEYS.iter().skip(i + 1) {
            assert_ne!(key, other_key, "{key:?} is mapped twice");
        }
    }
}

#[test]
fn the_map_covers_two_full_octaves() {
    let mut offsets: Vec<i32> = KEYS.iter().map(|key| key.offset()).collect();
    offsets.sort_unstable();
    offsets.dedup();
    assert_eq!(offsets.first(), Some(&0));
    assert_eq!(offsets.last(), Some(&24));
    // Every semitone in between must be reachable.
    for semitone in 0..=24 {
        assert!(offsets.contains(&semitone), "no key plays semitone {semitone}");
    }
}

#[test]
fn the_lowest_key_is_middle_c_by_default() {
    let mut octave = KeyboardOctave::default();
    let mut frame = idle();
    frame.pressed[0] = true;
    assert_eq!(keyboard_input(&mut octave, &frame), vec![on(60)]);
    let mut frame = idle();
    frame.released[0] = true;
    assert_eq!(keyboard_input(&mut octave, &frame), vec![Event::NoteOff { note: 60 }]);
}

#[test]
fn keys_are_played_in_order() {
    let mut octave = KeyboardOctave::default();
    let mut frame = idle();
    frame.pressed[4] = true;
    frame.released[2] = true;
    frame.pressed[25] = true;
    assert_eq!(
        keyboard_input(&mut octave, &frame),
        vec![Event::NoteOff { note: 62 }, on(64), on(84)]
    );
}

#[test]
fn transposing_lets_everything_go_and_plays_nothing() {
    let mut octave = KeyboardOctave::default();
    let mut frame = idle();
    frame.shift_up = true;
    frame.pressed[0] = true;
    assert_eq!(keyboard_input(&mut octave, &frame), vec![Event::AllNotesOff]);
    assert_eq!(octave, KeyboardOctave(5));
    let mut down = idle();
    down.shift_down = true;
    for expected in [4, 3, 2, 1, 0, 0] {
        keyboard_input(&mut octave, &down);
        assert_eq!(octave, KeyboardOctave(expected));
    }
    for _ in 0..12 {
        keyboard_input(&mut octave, &frame);
    }
    assert_eq!(octave, KeyboardOctave(8));
}

#[test]
fn notes_that_do_not_exist_are_not_played() {
    let mut octave = KeyboardOctave(9);
    let mut frame = idle();
    for key in 0..KEY_COUNT {
        frame.pressed[key] = true;
    }
    // Octave 9 starts at 120: only eight notes are left.
    let events = keyboard_input(&mut octave, &frame);
    assert_eq!(events.first(), Some(&on(120)));
    assert_eq!(events.last(), Some(&on(127)));
    assert_eq!(events.len(), 8);
}
