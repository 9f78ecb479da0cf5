use synth_core::control::MidiMode;
use synth_core::event::{Event, EventQueue};
use synth_core::midi::{handle_message, parse as parse_message, search, select_port, MidiError, PortSelector};
use synth_core::note::Note;
use synth_core::Single;

fn s(x: f32) -> Single {
    Single::from_bits(x.to_bits())
}

fn f(x: Single) -> f32 {
    f32::from_bits(x.to_bits())
}

fn parse(message: &[u8]) -> Vec<Event> {
    let mut queue = EventQueue::new(64);
    handle_message(message, &mut queue);
    let mut out = Vec::new();
    while let Some(e) = queue.pop() {
        out.push(e);
    }
    out
}

#[test]
fn note_on_and_off() {
    assert_eq!(
        parse(&[0x90, 60, 127]),
        vec![Event::NoteOn {
            note: 60,
            velocity: s(1.0)
        }]
    );
    assert_eq!(parse(&[0x80, 60, 0]), vec![Event::NoteOff { note: 60 }]);
}

/// The one MIDI quirk that hangs notes if you miss it.
#[test]
fn note_on_with_zero_velocity_is_a_note_off() {
    assert_eq!(parse(&[0x90, 60, 0]), vec![Event::NoteOff { note: 60 }]);
}

#[test]
fn channel_is_ignored() {
    // The same message on channel 8 must behave identically.
    assert_eq!(
        parse(&[0x97, 64, 100]),
        vec![Event::NoteOn {
            note: 64,
            velocity: s(100.0 / 127.0)
        }]
    );
}

#[test]
fn pitch_bend_centres_at_zero() {
    // 8192 = 0x2000: LSB 0, MSB 64.
    assert_eq!(parse(&[0xE0, 0, 64]), vec![Event::PitchBend(s(0.0))]);
    assert_eq!(parse(&[0xE0, 0, 0]), vec![Event::PitchBend(s(-2.0))]);
    // Full up is one step short of +2: the 14-bit range is asymmetric.
    match parse(&[0xE0, 127, 127]).as_slice() {
        [Event::PitchBend(v)] => assert!((f(*v) - 2.0).abs() < 0.01),
        other => panic!("unexpected {other:?}"),
    }
}

#[test]
fn every_bend_is_the_fourteen_bit_value() {
    for high in 0..128u8 {
        for low in 0..128u8 {
            let raw = ((high as i32) << 7) | low as i32;
            let expected = (raw - 8192) as f32 / 8192.0 * 2.0;
            assert_eq!(parse_message(&[0xE3, low, high]), Some(Event::PitchBend(s(expected))));
        }
    }
}

#[test]
fn clock_messages_are_forwarded() {
    assert_eq!(parse(&[0xF8]), vec![Event::ClockTick]);
    assert_eq!(parse(&[0xFA]), vec![Event::ClockStart]);
    assert_eq!(parse(&[0xFB]), vec![Event::ClockContinue]);
    assert_eq!(parse(&[0xFC]), vec![Event::ClockStop]);
}

#[test]
fn mod_wheel_and_panic_ccs() {
    assert_eq!(parse(&[0xB0, 1, 127]), vec![Event::ModWheel(s(1.0))]);
    assert_eq!(parse(&[0xB0, 120, 0]), vec![Event::Panic]);
    assert_eq!(parse(&[0xB0, 123, 0]), vec![Event::AllNotesOff]);
    // An unmapped CC must be ignored, not misinterpreted.
    assert_eq!(parse(&[0xB0, 74, 64]), vec![]);
}

#[test]
fn malformed_messages_do_not_panic() {
    for message in [
        vec![],
        vec![0x90],
        vec![0x90, 60],
        vec![0xFF],
        vec![0x00, 0x00, 0x00],
    ] {
        let _ = parse(&message);
    }
    // A note-on that stops short is a note-off, since its velocity is missing.
    assert_eq!(parse(&[0x90, 60]), vec![Event::NoteOff { note: 60 }]);
    assert_eq!(parse(&[0xFF]), vec![]);
}

#[test]
fn a_full_queue_drops_the_message() {
    let mut queue = EventQueue::new(2);
    handle_message(&[0xF8], &mut queue);
    handle_message(&[0xFA], &mut queue);
    assert_eq!(queue.pop(), Some(Event::ClockTick));
    assert_eq!(queue.pop(), None);
}

fn ports(names: &[&str]) -> Vec<Option<String>> {
    names.iter().map(|n| Some(n.to_string())).collect()
}

#[test]
fn a_port_is_found_whatever_the_case() {
    let names = ports(&["Midi Through", "KeyStep 37 MIDI 1", "keystep pro"]);
    let found = select_port(&PortSelector::Matching("KEYSTEP".to_string()), &names);
    assert_eq!(found.unwrap(), 1);
    let upper = ports(&["GR\u{DC}N"]);
    let found = select_port(&PortSelector::Matching("gr\u{FC}n".to_string()), &upper);
    assert_eq!(found.unwrap(), 0);
}

#[test]
fn a_search_takes_case_as_it_stands() {
    let names = ports(&["alpha", "Beta"]);
    assert_eq!(search(&names, "eta"), Some(1));
    assert_eq!(search(&names, "BETA"), None);
    assert_eq!(search(&names, ""), Some(0));
}

#[test]
fn a_port_without_a_name_is_never_matched() {
    let names = vec![None, Some("synth".to_string())];
    let found = select_port(&PortSelector::Matching("".to_string()), &names);
    assert_eq!(found.unwrap(), 1);
    assert_eq!(select_port(&PortSelector::First, &names).unwrap(), 0);
}

#[test]
fn a_missing_port_is_an_error() {
    let names = ports(&["only one"]);
    for selector in [
        PortSelector::Index(1),
        PortSelector::Matching("other".to_string()),
    ] {
        match select_port(&selector, &names) {
            Err(e) => assert_eq!(e.message(), "no matching MIDI input port"),
            Ok(i) => panic!("found port {i}"),
        }
    }
    assert!(select_port(&PortSelector::First, &vec![]).is_err());
    assert_eq!(select_port(&PortSelector::Index(0), &names).unwrap(), 0);
    assert_eq!(PortSelector::default(), PortSelector::First);
}

#[test]
fn errors_say_what_happened() {
    assert_eq!(MidiError::Unavailable.message(), "no MIDI subsystem available");
    assert_eq!(
        MidiError::Connect("busy".to_string()).message(),
        "could not connect to the MIDI port: busy"
    );
}

#[test]
fn the_mode_says_which_port_to_look_for() {
    assert_eq!(MidiMode::default().selector(), None);
    assert_eq!(MidiMode::FirstAvailable.selector(), Some(PortSelector::First));
    assert_eq!(
        MidiMode::Matching("keys".to_string()).selector(),
        Some(PortSelector::Matching("keys".to_string()))
    );
}

#[test]
fn middle_c_is_c4() {
    assert_eq!(Note::new(60, s(1.0)).name(), ("C", 4));
    assert_eq!(Note::new(69, s(1.0)).name(), ("A", 4));
    assert_eq!(Note::new(0, s(1.0)).name(), ("C", -1));
    assert_eq!(Note::new(127, s(1.0)).name(), ("G", 9));
}

#[test]
fn a_velocity_stays_between_zero_and_one() {
    assert_eq!(f(Note::new(60, s(3.0)).velocity), 1.0);
    assert_eq!(f(Note::new(60, s(-3.0)).velocity), 0.0);
    assert_eq!(f(Note::from_midi(60, 64).velocity), 64.0 / 127.0);
    // No keyboard sends this, but a broken one might.
    assert_eq!(f(Note::from_midi(60, 255).velocity), 1.0);
}

#[test]
fn a_port_is_found_by_any_part_of_its_name() {
    let names = vec![Some("abab".to_string()), None, Some("ababc 2".to_string())];
    let find = |part: &str| select_port(&PortSelector::Matching(part.to_string()), &names);
    assert_eq!(find("ABC").ok(), Some(2));
    assert_eq!(find("c 2").ok(), Some(2));
    assert_eq!(find("bab").ok(), Some(0));
    assert_eq!(find("abab").ok(), Some(0));
    assert!(find("ababc 22").is_err());
    assert!(find("abd").is_err());
}
