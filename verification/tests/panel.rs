use synth_core::control::{Stream, Synth, SynthTelemetry};
use synth_core::drums::pad::PAD_COUNT;
use synth_core::drums::pattern::{pack_column, unpack_column, Cell, DrumPattern};
use synth_core::event::{Event, EventQueue};
use synth_core::params::SharedParams;
use synth_core::sequencer::{Pattern, Step, MAX_STEPS};
use synth_core::ui::{
    black_note, columns_per_row, decimals, drag, edit_bass, from_linear, hold_peak, meter_zone,
    next_velocity, octave_label, pattern_has_notes, seed_from_time, shows_reduction, step_look,
    to_linear, velocities, white_keys, white_note, BassEdit, DrumHit, MeterZone, PianoMove, StepLook,
    SynthUi, Tab, SLOTS,
};
use synth_core::Single;

fn s(x: f32) -> Single {
    Single::from_bits(x.to_bits())
}

fn f(x: Single) -> f32 {
    f32::from_bits(x.to_bits())
}

fn cell(active: bool, velocity: f32) -> Cell {
    Cell {
        active,
        velocity: s(velocity),
    }
}

fn synth() -> Synth {
    Synth {
        inner: Some(Stream {
            events: EventQueue::new(64),
            sample_rate: s(48000.0),
        }),
        params: SharedParams::default(),
    }
}

fn sent(synth: &mut Synth) -> Vec<Event> {
    let mut out = Vec::new();
    if let Some(stream) = &mut synth.inner {
        while let Some(e) = stream.events.pop() {
            out.push(e);
        }
    }
    out
}

fn pattern_of(note: u8) -> Pattern {
    let mut steps = [Step::default(); MAX_STEPS];
    steps[0].active = true;
    steps[0].note = note;
    Pattern::new(steps, 16)
}

#[test]
fn an_inactive_cell_starts_at_the_softest_level() {
    assert_eq!(next_velocity(cell(false, 0.0)), velocities()[0]);
}

#[test]
fn each_level_advances_to_the_next_and_the_last_wraps_to_the_first() {
    let v = velocities();
    assert_eq!(v, [s(0.375), s(0.75), s(1.0)]);
    assert_eq!(next_velocity(cell(true, f(v[0]))), v[1]);
    assert_eq!(next_velocity(cell(true, f(v[1]))), v[2]);
    assert_eq!(next_velocity(cell(true, f(v[2]))), v[0]);
}

#[test]
fn an_off_table_velocity_still_lands_on_a_valid_level() {
    // Not hypothetical: the grid quantises to eight levels and this cycle
    // visits three of them, so the other five all reach here. Without the
    // fallback a shift-click on such a cell would do nothing, forever.
    let landed = next_velocity(cell(true, 0.625));
    assert!(
        velocities().contains(&landed),
        "an off-table velocity must fall back onto the cycle, got {landed:?}"
    );
}

/// The cycle and the grid's default have to agree, or the very first
/// shift-click on an untouched cell jumps somewhere arbitrary instead of
/// stepping to the next level.
#[test]
fn the_grid_default_is_on_the_cycle() {
    assert!(
        velocities().contains(&Cell::default().velocity),
        "Cell::default().velocity is {:?}, which the cycle never visits",
        Cell::default().velocity
    );
}

#[test]
fn a_cycled_cell_survives_the_mirror() {
    for v in velocities() {
        let mut column = [Cell::default(); PAD_COUNT];
        column[2] = Cell { active: true, velocity: v };
        assert_eq!(unpack_column(pack_column(&column))[2].velocity, v);
    }
}

#[test]
fn a_click_in_the_drum_grid_does_what_it_says() {
    let mut ui = SynthUi::default();
    let mut synth = synth();
    let grid = DrumPattern::default();

    ui.drum_clicked(&mut synth, &grid, DrumHit::Cell { step: 4, pad: 1, shift: true });
    assert_eq!(
        sent(&mut synth),
        vec![Event::SetDrumCell { step: 4, pad: 1, cell: cell(true, 0.375) }]
    );
    ui.drum_clicked(&mut synth, &grid, DrumHit::Cell { step: 4, pad: 1, shift: false });
    assert_eq!(
        sent(&mut synth),
        vec![Event::SetDrumCell { step: 4, pad: 1, cell: cell(true, f(Cell::default().velocity)) }]
    );
    ui.drum_clicked(&mut synth, &grid, DrumHit::Mute(5));
    assert!(synth.params.pad_mute[5].get());
    ui.drum_clicked(&mut synth, &grid, DrumHit::Mute(5));
    assert!(!synth.params.pad_mute[5].get());
    ui.drum_clicked(&mut synth, &grid, DrumHit::Select(6));
    assert_eq!(ui.shown_pad(), 6);
    ui.selected_pad = 99;
    assert_eq!(ui.shown_pad(), 7);
}

#[test]
fn a_click_in_the_bass_grid_does_what_it_says() {
    let mut synth = synth();
    let step = Step { active: true, note: 40, velocity: s(1.0), accent: false, slide: false };
    synth.params.publish_bass_step(2, &step);
    assert!(edit_bass(&mut synth, 2, BassEdit::Slide));
    assert!(edit_bass(&mut synth, 2, BassEdit::Accent));
    assert!(edit_bass(&mut synth, 2, BassEdit::Toggle));
    let edited: Vec<(bool, bool, bool)> = sent(&mut synth)
        .into_iter()
        .map(|e| match e {
            Event::SetBassStep { index: 2, step } => (step.active, step.accent, step.slide),
            other => panic!("unexpected {other:?}"),
        })
        .collect();
    assert_eq!(edited, vec![(true, false, true), (true, true, false), (false, false, false)]);
    assert!(!edit_bass(&mut synth, 256, BassEdit::Toggle));
}

#[test]
fn the_first_pattern_heard_is_kept() {
    let mut ui = SynthUi::default();
    let empty = Pattern::new([Step::default(); MAX_STEPS], 16);
    assert!(!pattern_has_notes(&empty));
    ui.keep_first_pattern(&empty);
    assert!(ui.slots.iter().all(|slot| slot.is_none()));
    ui.keep_first_pattern(&pattern_of(60));
    assert_eq!(ui.active_slot, Some(0));
    ui.keep_first_pattern(&pattern_of(61));
    assert_eq!(ui.slots[0].unwrap().steps[0].note, 60);
    assert!(ui.slots[1].is_none());
}

#[test]
fn saves_fill_the_slots_and_then_replace_the_one_being_heard() {
    let mut ui = SynthUi::default();
    for note in 60..64u8 {
        ui.save(&pattern_of(note));
    }
    let notes: Vec<u8> = ui.slots.iter().map(|p| p.unwrap().steps[0].note).collect();
    assert_eq!(notes, vec![60, 61, 62, 63]);
    assert_eq!(SLOTS, 4);
    assert_eq!(ui.load(1).unwrap().steps[0].note, 61);
    assert_eq!(ui.save_target(), 1);
    ui.save(&pattern_of(99));
    assert_eq!(ui.load(1).unwrap().steps[0].note, 99);
    assert!(ui.load(7).is_none());
    assert_eq!(ui.active_slot, Some(1));
}

#[test]
fn an_empty_slot_loads_nothing() {
    let mut ui = SynthUi::default();
    assert!(ui.load(2).is_none());
    assert_eq!(ui.active_slot, None);
}

#[test]
fn dragging_over_the_piano_is_a_glissando() {
    let mut ui = SynthUi::default();
    assert_eq!(ui.piano_moved(Some(60)), PianoMove { off: None, on: Some(60) });
    assert_eq!(ui.piano_moved(Some(60)), PianoMove { off: None, on: None });
    assert_eq!(ui.piano_moved(Some(62)), PianoMove { off: Some(60), on: Some(62) });
    assert_eq!(ui.sounding, vec![62]);
    assert_eq!(ui.piano_moved(None), PianoMove { off: Some(62), on: None });
    assert!(ui.sounding.is_empty());
    ui.piano_moved(Some(70));
    ui.forget_keys();
    assert!(ui.sounding.is_empty());
    assert_eq!(ui.piano_moved(None), PianoMove { off: None, on: None });
}

#[test]
fn the_keyboard_moves_by_octaves_within_its_range() {
    let mut ui = SynthUi::default();
    for expected in [36, 24, 12, 0, 0] {
        ui.octave_down();
        assert_eq!(ui.keyboard_base, expected);
    }
    for _ in 0..20 {
        ui.octave_up();
    }
    assert_eq!(ui.keyboard_base, 108);
    assert_eq!(octave_label(48), 3);
    assert_eq!(octave_label(0), -1);
}

#[test]
fn the_keys_are_laid_out_like_a_piano() {
    let white: Vec<u8> = (0..8).map(|i| white_note(60, i).unwrap()).collect();
    assert_eq!(white, vec![60, 62, 64, 65, 67, 69, 71, 72]);
    let black: Vec<u8> = (0..7).filter_map(|i| black_note(60, i)).collect();
    assert_eq!(black, vec![61, 63, 66, 68, 70]);
    assert_eq!(white_note(120, 5), None);
    assert_eq!(white_note(120, 4), Some(127));
    assert_eq!(black_note(120, 4), None);
    assert_eq!(white_keys(3), 21);
    assert_eq!(white_keys(0), 1);
}

#[test]
fn a_knob_turns_evenly_and_stops_at_its_ends() {
    assert_eq!(f(to_linear(s(5.0), s(0.0), s(10.0))), 0.5);
    assert_eq!(f(to_linear(s(-5.0), s(0.0), s(10.0))), 0.0);
    assert_eq!(f(from_linear(s(0.25), s(-4.0), s(4.0))), -2.0);
    assert_eq!(f(from_linear(s(9.0), s(-4.0), s(4.0))), 4.0);
    assert_eq!(f(drag(s(0.5), s(50.0), false)), 0.75);
    assert_eq!(f(drag(s(0.5), s(50.0), true)), 0.5625);
    assert_eq!(f(drag(s(0.5), s(-500.0), false)), 0.0);
}

#[test]
fn values_show_no_absurd_precision() {
    assert_eq!(decimals(s(8532.7)), 0);
    assert_eq!(decimals(s(-250.0)), 0);
    assert_eq!(decimals(s(12.5)), 1);
    assert_eq!(decimals(s(2.5)), 2);
    assert_eq!(decimals(s(0.25)), 3);
    assert!(!shows_reduction(s(0.0)));
    assert!(!shows_reduction(s(0.02)));
    assert!(shows_reduction(s(4.5)));
}

#[test]
fn the_meter_holds_its_peak_and_lets_it_fall() {
    assert_eq!(f(hold_peak(s(0.2), s(0.9))), 0.9 - 0.008);
    assert_eq!(f(hold_peak(s(0.9), s(0.2))), 0.9 - 0.008);
    assert_eq!(f(hold_peak(s(0.001), s(0.0))), 0.0);
    assert_eq!(meter_zone(s(0.5)), MeterZone::Normal);
    assert_eq!(meter_zone(s(0.8)), MeterZone::Loud);
    assert_eq!(meter_zone(s(0.99)), MeterZone::Clipping);
}

#[test]
fn a_step_is_drawn_by_what_it_is() {
    assert_eq!(step_look(4, true, 4, true), StepLook::Current);
    assert_eq!(step_look(4, true, 4, false), StepLook::Active);
    assert_eq!(step_look(4, false, 0, true), StepLook::Downbeat);
    assert_eq!(step_look(5, false, 0, true), StepLook::Empty);
}

#[test]
fn columns_reflow_to_the_width() {
    for (width, n) in [(100.0f32, 1), (300.0, 1), (600.0, 2), (1000.0, 3), (5000.0, 4), (f32::NAN, 1)] {
        assert_eq!(columns_per_row(s(width)), n, "{width}");
    }
    let names: Vec<&str> = Tab::ALL.iter().map(|t| t.name()).collect();
    assert_eq!(names, vec!["SYNTH", "SEQ", "DRUMS"]);
    assert_eq!(Tab::default(), Tab::Synth);
}

#[test]
fn consecutive_times_give_unrelated_seeds() {
    assert_eq!(seed_from_time(None), 0x5EEDu64.wrapping_mul(0x2545_F491_4F6C_DD1D));
    let (a, b) = (seed_from_time(Some(1000)), seed_from_time(Some(1001)));
    assert_ne!(a >> 32, b >> 32);
}

#[test]
fn the_handle_queues_what_it_is_asked_for() {
    let mut synth = synth();
    assert!(synth.is_running());
    assert_eq!(f(synth.sample_rate()), 48000.0);
    assert!(synth.note_on(60, s(0.5)));
    assert!(synth.note_off(60));
    assert!(synth.all_notes_off());
    assert!(synth.panic());
    assert!(synth.play());
    assert!(synth.stop());
    assert!(synth.resume());
    assert_eq!(
        sent(&mut synth),
        vec![
            Event::NoteOn { note: 60, velocity: s(0.5) },
            Event::NoteOff { note: 60 },
            Event::AllNotesOff,
            Event::Panic,
            Event::ClockStart,
            Event::ClockStop,
            Event::ClockContinue,
        ]
    );
}

#[test]
fn a_handle_without_a_device_takes_nothing() {
    let mut silent = Synth { inner: None, params: SharedParams::default() };
    assert!(!silent.is_running());
    assert_eq!(f(silent.sample_rate()), 0.0);
    assert!(!silent.note_on(60, s(1.0)));
    silent.regenerate();
    assert_eq!(silent.params.gen_regenerate, 1);
}

#[test]
fn a_toggled_step_keeps_its_note() {
    let mut synth = synth();
    let step = Step { active: true, note: 71, velocity: s(1.0), accent: true, slide: false };
    synth.params.publish_step(3, &step);
    assert!(synth.toggle_step(3));
    let mut off = step;
    off.active = false;
    assert_eq!(sent(&mut synth), vec![Event::SetStep { index: 3, step: off }]);
    assert!(!synth.toggle_step(300));
    assert!(!synth.set_drum_cell(3, 300, Cell::default()));
    assert!(sent(&mut synth).is_empty());
}

#[test]
fn patterns_and_seeds_travel_through_the_parameters() {
    let mut synth = synth();
    synth.load_pattern(&pattern_of(33));
    assert_eq!(synth.params.pending_request, 1);
    assert_eq!(synth.params.read_pending_pattern().as_slice()[0].note, 33);
    synth.regenerate_with_seed(7);
    assert_eq!((synth.params.gen_seed, synth.params.gen_regenerate), (7, 1));
    synth.regenerate_bass_with_seed(8);
    assert_eq!((synth.params.bass_gen_seed, synth.params.bass_regenerate), (8, 1));
    assert_eq!(synth.pattern().len(), 16);
    assert_eq!(synth.bass_pattern().len(), 16);
    synth.params.publish_drum_len(12);
    assert_eq!(synth.drum_grid().len(), 12);
}

#[test]
fn telemetry_marks_the_beat() {
    let mut params = SharedParams::default();
    let mut t = SynthTelemetry::default();
    params.current_step = 4;
    params.active_voices = 3;
    params.output_peak.set(s(0.5));
    t.read_telemetry(&mut params);
    assert!(t.step_changed && t.is_downbeat());
    assert_eq!(t.active_voices, 3);
    assert_eq!(f(t.peak), 0.5);
    t.read_telemetry(&mut params);
    assert!(!t.step_changed && !t.is_downbeat());
    assert_eq!(f(t.peak), 0.0);
    params.current_step = 5;
    t.read_telemetry(&mut params);
    assert!(t.step_changed && !t.is_downbeat());
}
