use synth_core::clock::{Clock, BLOCK};
use synth_core::drums::pad::{Pad, PAD_COUNT};
use synth_core::drums::pattern::{pack_column, unpack_column, Cell, Column, DrumPattern};
use synth_core::drums::rack::DrumRack;
use synth_core::drums::sequencer::{DrumOutput, DrumSequencer};
use synth_core::order::Order;
use synth_core::params::{ClockSource, Params};
use synth_core::sequencer::{SeqSettings, Sequencer, Step, MAX_STEPS};
use synth_core::Single;

fn s(x: f32) -> Single {
    Single::from_bits(x.to_bits())
}

fn f(x: Single) -> f32 {
    f32::from_bits(x.to_bits())
}

fn cell(active: bool, velocity: f32) -> Cell {
    Cell {
        active,
        velocity: s(velocity),
    }
}

fn blank_column() -> Column {
    [Cell::default(); PAD_COUNT]
}

/// Does anything inside the active length fire?
fn any_active(grid: &DrumPattern) -> bool {
    (0..grid.len()).any(|step| (0..PAD_COUNT).any(|pad| grid.get(step, pad).active))
}

/// The whole point of the packing: a column survives the round trip
/// through a single `u32`, which is what crosses the thread boundary.
#[test]
fn a_column_survives_the_round_trip() {
    let mut column = blank_column();
    column[0] = cell(true, 1.0);
    column[2] = cell(true, 0.5);
    column[7] = cell(false, 0.75);

    let back = unpack_column(pack_column(&column));

    assert!(back[0].active && back[2].active);
    assert!(!back[1].active && !back[7].active);
    // Velocity quantises to eight levels, so allow half a level of drift.
    assert!((f(back[0].velocity) - 1.0).abs() < 0.07);
    assert!((f(back[2].velocity) - 0.5).abs() < 0.07);
}

/// A silent cell still carries a level. The UI toggles cells off and on
/// constantly, and every one of those round trips goes through the packing,
/// so a velocity dropped here is a velocity the player loses for good.
#[test]
fn a_silent_cell_keeps_the_velocity_it_was_programmed_at() {
    let mut column = blank_column();
    column[0] = cell(true, 1.0);
    column[1] = cell(false, 0.25);
    column[2] = cell(true, 0.375);
    column[3] = cell(false, 0.875);
    column[4] = cell(false, 0.125);

    let back = unpack_column(pack_column(&column));

    for (index, (before, after)) in column.iter().zip(back.iter()).enumerate() {
        assert_eq!(after, before, "cell {index} did not survive the round trip");
    }
}

/// The default has to be one of the eight levels the packing can hold, or
/// a cell nobody has touched reports one velocity and stores another.
#[test]
fn the_default_velocity_is_a_representable_level() {
    let mut column = blank_column();
    column[0].active = true;

    let back = unpack_column(pack_column(&column));

    assert_eq!(back[0].velocity, Cell::default().velocity);
    assert_eq!(back[1], Cell::default());
}

/// Every level has to be reachable, or the quantiser has an off-by-one.
#[test]
fn every_velocity_level_round_trips() {
    for level in 0..8u32 {
        let velocity = (level + 1) as f32 / 8.0;
        let mut column = blank_column();
        column[3] = cell(true, velocity);

        let back = unpack_column(pack_column(&column));
        assert!(
            (f(back[3].velocity) - velocity).abs() < 1.0e-6,
            "level {level} came back as {}",
            f(back[3].velocity)
        );
    }
}

/// An untouched grid fires nothing, and a toggle is its own inverse.
#[test]
fn toggling_a_cell_turns_it_on_and_off_again() {
    let mut grid = DrumPattern::default();
    grid.set_len(16);
    assert!(!any_active(&grid));

    grid.toggle(0, 0);
    assert!(grid.get(0, 0).active);
    assert!(any_active(&grid));

    grid.toggle(0, 0);
    assert!(!grid.get(0, 0).active);
    assert!(!any_active(&grid));
}

/// Out-of-range indices come from the UI and from packed data. They must
/// not panic: some of these calls happen on the audio thread.
#[test]
fn out_of_range_access_is_inert() {
    let mut grid = DrumPattern::default();
    grid.set(999, 0, cell(true, 1.0));
    grid.set(0, 99, cell(true, 1.0));
    grid.toggle(999, 99);
    assert!(!any_active(&grid));
    assert!(!grid.get(999, 99).active);
    assert_eq!(DrumPattern::default().len(), 0);
    assert!(DrumPattern::default().is_empty());
}

/// `len` is the one guard between a corrupted length and an out-of-bounds
/// slice on the audio thread, so both `new` and `set_len` must clamp it —
/// exactly at `MAX_STEPS` and past it, not just for values that already fit.
#[test]
fn length_is_clamped_to_max_steps() {
    let columns = [blank_column(); MAX_STEPS];

    let at_max = DrumPattern::new(columns, MAX_STEPS);
    assert_eq!(at_max.len(), MAX_STEPS);
    assert_eq!(at_max.columns().iter().count(), MAX_STEPS);

    let over_max = DrumPattern::new(columns, 1000);
    assert_eq!(over_max.len(), MAX_STEPS);
    assert_eq!(over_max.columns().iter().count(), MAX_STEPS);

    let mut grid = DrumPattern::default();
    grid.set_len(1000);
    assert_eq!(grid.len(), MAX_STEPS);
    assert_eq!(grid.columns().iter().count(), MAX_STEPS);
}

fn running_clock(p: &Params) -> Clock {
    let mut c = Clock::new(s(48_000.0));
    c.set_tempo(p.tempo, p.steps_per_beat);
    c.start();
    c
}

fn block(seq: &mut DrumSequencer, c: &mut Clock, p: &Params) -> DrumOutput {
    let adv = c.advance(BLOCK, ClockSource::Internal);
    seq.advance(BLOCK, adv, c.view(), p)
}

/// The grid has to fire the pads it says it will, on the step it says.
#[test]
fn a_hit_on_step_zero_fires_immediately() {
    let mut p = Params::default();
    p.drum_enabled = true;
    let mut c = running_clock(&p);
    let mut seq = DrumSequencer::new();
    seq.set_cell(0, 1, cell(true, 1.0));

    // At the default tempo one step is 187.5 blocks, so the first block does
    // not itself cross the step-0 boundary. Run until the block that does.
    let mut out = block(&mut seq, &mut c, &p);
    let mut blocks = 0;
    while !out.stepped {
        out = block(&mut seq, &mut c, &p);
        blocks += 1;
        assert!(blocks < 1_000, "no block ever stepped");
    }
    assert_eq!(seq.position(), 0, "the first step to fire should be step 0");
    assert_eq!(f(out.hits[1]), 1.0);
    assert_eq!(f(out.hits[0]), 0.0);
}

/// A column is eight pads, not one. This is the difference from the
/// melodic sequencer that actually changes the data structure.
#[test]
fn a_column_fires_every_pad_at_once() {
    let p = Params::default();
    let mut c = running_clock(&p);
    let mut seq = DrumSequencer::new();
    for pad in 0..PAD_COUNT {
        seq.set_cell(0, pad, cell(true, 0.5));
    }

    let mut out = block(&mut seq, &mut c, &p);
    let mut blocks = 0;
    while !out.stepped {
        out = block(&mut seq, &mut c, &p);
        blocks += 1;
        assert!(blocks < 1_000, "no block ever stepped");
    }
    assert!(out.hits.iter().all(|v| f(*v) == 0.5), "{:?}", out.hits);
}

/// The grid loops at its own length, not the melody's.
#[test]
fn the_grid_wraps_at_its_own_length() {
    let mut p = Params::default();
    p.drum_length = 4;
    p.seq_length = 16;
    let mut c = running_clock(&p);
    let mut seq = DrumSequencer::new();

    let mut seen = Vec::new();
    // Long enough to wrap a four-step grid more than once.
    for _ in 0..4_000 {
        if block(&mut seq, &mut c, &p).stepped {
            seen.push(seq.position());
        }
    }
    assert!(seen.len() > 6, "the clock never stepped");
    assert!(seen.iter().all(|p| *p < 4), "walked past the end: {seen:?}");
    assert!(seen.contains(&0) && seen.contains(&3));
}

/// Swing has to reach the drums, or the two tracks drift apart on every
/// off-beat even though they share a clock.
#[test]
fn swing_delays_the_odd_column() {
    let mut p = Params::default();
    p.seq_swing = s(0.5);
    let mut c = running_clock(&p);
    let mut seq = DrumSequencer::new();
    seq.set_cell(1, 0, cell(true, 1.0));

    let mut stepped_at = None;
    let mut fired_at = None;
    for i in 0..2_000 {
        let out = block(&mut seq, &mut c, &p);
        if out.stepped && seq.position() == 1 && stepped_at.is_none() {
            stepped_at = Some(i);
        }
        if f(out.hits[0]) > 0.0 && fired_at.is_none() {
            fired_at = Some(i);
        }
    }
    let (stepped, fired) = (stepped_at.unwrap(), fired_at.unwrap());
    assert!(fired > stepped, "swing did not delay the hit: {fired} vs {stepped}");
}

/// The polyrhythm claim, made concrete. One clock drives a 16-step drum
/// grid and a 12-step melody. Each track wraps on its own length, so they
/// only start together again every lcm(16, 12) = 48 steps.
#[test]
fn a_sixteen_and_a_twelve_realign_after_forty_eight_steps() {
    let mut p = Params::default();
    p.drum_length = 16;
    p.seq_length = 12;
    let settings = SeqSettings::from_params(&p);
    let mut c = running_clock(&p);
    let mut drums = DrumSequencer::new();
    let mut melody = Sequencer::new(1);

    // Both tracks read the same advance from the same clock, exactly as
    // the engine drives them.
    let mut steps = 0usize;
    let mut together = Vec::new();
    while steps < 96 {
        let adv = c.advance(BLOCK, ClockSource::Internal);
        let out = drums.advance(BLOCK, adv, c.view(), &p);
        let _ = melody.advance(BLOCK, adv, c.view(), &settings);
        if out.stepped {
            if drums.position() == 0 && melody.position() == 0 {
                together.push(steps);
            }
            steps += 1;
        }
    }

    assert_eq!(
        together,
        vec![0, 48],
        "the two grids did not realign on 48: {together:?}"
    );
}

/// Two sequencers, one clock: every step boundary has to be the same boundary
/// for both — while the tempo is yanked out from under them, and again
/// when the steps are arriving as MIDI ticks rather than as samples.
#[test]
fn both_tracks_cross_every_step_boundary_together() {
    let mut p = Params::default();
    let settings = SeqSettings::from_params(&p);
    let mut c = running_clock(&p);
    let mut drums = DrumSequencer::new();
    let mut melody = Sequencer::new(1);

    // Internal clock, with a tempo change halfway through.
    for i in 0..4_000 {
        if i == 2_000 {
            p.tempo = s(174.0);
            c.set_tempo(p.tempo, p.steps_per_beat);
        }
        let adv = c.advance(BLOCK, ClockSource::Internal);
        let d = drums.advance(BLOCK, adv, c.view(), &p);
        let m = melody.advance(BLOCK, adv, c.view(), &settings);
        assert_eq!(d.stepped, m.stepped, "tracks disagreed at block {i}");
    }

    // External MIDI. The step boundaries now come from the tick counter,
    // and both tracks are driven from the one bool the clock returns.
    p.clock_source = ClockSource::ExternalMidi;
    let mut steps = 0;
    for i in 0..240 {
        let ticked = c.on_midi_tick(p.steps_per_beat);
        let d = drums.on_tick(ticked, c.view(), &p);
        let m = melody.on_midi_tick(ticked, c.view(), &settings);
        assert_eq!(d.stepped, m.stepped, "tracks disagreed at tick {i}");
        steps += usize::from(d.stepped);
    }
    assert!(steps > 0, "no MIDI tick ever produced a step");
}

/// One clock, one swing setting, a hit on every step of both tracks, and the
/// same blocks have to fire.
#[test]
fn both_tracks_swing_the_same_steps_by_the_same_amount() {
    let mut p = Params::default();
    p.seq_swing = s(0.3);
    let settings = SeqSettings::from_params(&p);
    let mut c = running_clock(&p);
    let mut drums = DrumSequencer::new();
    let mut melody = Sequencer::new(1);
    for step in 0..16 {
        drums.set_cell(step, 0, cell(true, 1.0));
        let mut active = Step::default();
        active.active = true;
        melody.set_step(step, active);
    }

    let mut stepped_on = Vec::new();
    let mut drums_fired_on = Vec::new();
    let mut melody_fired_on = Vec::new();
    for i in 0..4_000 {
        let adv = c.advance(BLOCK, ClockSource::Internal);
        let d = drums.advance(BLOCK, adv, c.view(), &p);
        let m = melody.advance(BLOCK, adv, c.view(), &settings);
        if d.stepped {
            stepped_on.push(i);
        }
        if d.hits.iter().any(|&level| f(level) > 0.0) {
            drums_fired_on.push(i);
        }
        if m.note_on.is_some() {
            melody_fired_on.push(i);
        }
    }
    assert_eq!(drums_fired_on, melody_fired_on, "the two tracks swung apart");

    // And the agreement is not the trivial one of neither swinging: the
    // delay a step took, in blocks, has to be zero on the beat and
    // non-zero off it, which is what swing means.
    assert_eq!(drums_fired_on.len(), stepped_on.len(), "a step never fired");
    let delays: Vec<usize> = drums_fired_on
        .iter()
        .zip(&stepped_on)
        .map(|(fired, stepped)| fired - stepped)
        .collect();
    assert!(delays.iter().step_by(2).all(|&d| d == 0), "on-beats swung: {delays:?}");
    assert!(
        delays.iter().skip(1).step_by(2).all(|&d| d > 0),
        "off-beats did not swing: {delays:?}"
    );
}

/// A first-ever tick, before any block has rendered.
#[test]
fn the_first_tick_before_any_block_does_not_index_an_empty_grid() {
    let mut p = Params::default();
    p.drum_enabled = true;
    p.clock_source = ClockSource::ExternalMidi;
    let c = running_clock(&p);
    let mut seq = DrumSequencer::new();

    let out = seq.on_tick(true, c.view(), &p);
    assert!(out.stepped, "the tick should still have stepped");
    assert_eq!(seq.position(), 0);
}

/// The length knob has to reach the grid on the tick path too, not only
/// when a block renders.
#[test]
fn a_length_change_reaches_the_grid_through_the_tick_path() {
    let mut p = Params::default();
    p.drum_length = 4;
    p.clock_source = ClockSource::ExternalMidi;
    let c = running_clock(&p);
    let mut seq = DrumSequencer::new();
    for _ in 0..4 {
        seq.on_tick(true, c.view(), &p);
    }
    assert_eq!(seq.grid().len(), 4);

    p.drum_length = 8;
    seq.on_tick(true, c.view(), &p);
    assert_eq!(seq.grid().len(), 8, "the knob never reached the grid");
}

fn cue(rack: &mut DrumRack, c: &mut Clock, p: &Params) -> Vec<Order> {
    let adv = c.advance(BLOCK, ClockSource::Internal);
    let mut orders = Vec::new();
    rack.cue(BLOCK, adv, c.view(), p, &mut orders);
    orders
}

fn strikes(orders: &[Order]) -> Vec<usize> {
    orders
        .iter()
        .filter_map(|o| match o {
            Order::StrikePad { pad, .. } => Some(*pad),
            _ => None,
        })
        .collect()
}

fn enabled() -> Params {
    let mut p = Params::default();
    p.drum_enabled = true;
    p
}

/// An empty rack does not strike anything.
#[test]
fn an_empty_rack_reports_nothing_to_mix() {
    let p = enabled();
    let mut clock = running_clock(&p);
    let mut rack = DrumRack::new();
    for _ in 0..64 {
        assert!(cue(&mut rack, &mut clock, &p).is_empty());
    }
}

#[test]
fn a_hit_on_the_grid_strikes_its_pad() {
    let mut p = enabled();
    p.pad_level[0] = s(0.5);
    p.pad_tune[0] = s(-3.0);
    p.pad_decay[0] = s(2.0);
    let mut clock = running_clock(&p);
    let mut rack = DrumRack::new();
    rack.sequencer().set_cell(0, 0, cell(true, 1.0));

    let mut all = Vec::new();
    for _ in 0..200 {
        all.extend(cue(&mut rack, &mut clock, &p));
    }
    assert_eq!(
        all,
        vec![Order::StrikePad {
            pad: 0,
            velocity: s(0.5),
            tune: s(-3.0),
            decay: s(2.0)
        }]
    );
}

/// Mute is per pad and lives in the rack, not the grid: the pattern keeps
/// its hits, they just do not strike anything.
#[test]
fn a_muted_pad_stays_silent() {
    let mut p = enabled();
    p.pad_mute[0] = true;
    let mut clock = running_clock(&p);
    let mut rack = DrumRack::new();
    rack.sequencer().set_cell(0, 0, cell(true, 1.0));

    for _ in 0..200 {
        assert!(cue(&mut rack, &mut clock, &p).is_empty());
    }
    assert!(rack.sequencer_ref().grid().get(0, 0).active);
}

/// The choke group is what makes a hat pair sound like one hat: closing it
/// has to cut the open one short.
#[test]
fn a_closed_hat_chokes_the_open_one() {
    let mut p = enabled();
    p.drum_length = 16;
    let mut clock = running_clock(&p);
    let mut rack = DrumRack::new();
    // Open hat on 0, closed hat two steps later.
    rack.sequencer().set_cell(0, 3, cell(true, 1.0));
    rack.sequencer().set_cell(2, 2, cell(true, 1.0));

    let mut all = Vec::new();
    for _ in 0..1_000 {
        all.extend(cue(&mut rack, &mut clock, &p));
    }
    assert_eq!(strikes(&all), vec![3, 2]);
    let closed = all.iter().position(|o| strikes(&[*o]) == vec![2]).unwrap();
    assert_eq!(all[closed - 1], Order::SilencePad { pad: 3 });
    assert_eq!(Pad::ALL[2].choke_group(), Pad::ALL[3].choke_group());
}

/// Switching the rack off cuts what rings, so that no stale tail comes back.
#[test]
fn disabling_mid_decay_does_not_resume_the_old_tail() {
    let mut p = enabled();
    let mut clock = running_clock(&p);
    let mut rack = DrumRack::new();
    rack.sequencer().set_cell(0, 3, cell(true, 1.0));

    let mut rang = false;
    for _ in 0..250 {
        if !strikes(&cue(&mut rack, &mut clock, &p)).is_empty() {
            rang = true;
            break;
        }
    }
    assert!(rang, "the open hat never sounded before being disabled");

    p.drum_enabled = false;
    let orders = cue(&mut rack, &mut clock, &p);
    assert_eq!(orders.len(), PAD_COUNT);
    assert!(orders.contains(&Order::SilencePad { pad: 3 }));

    p.drum_enabled = true;
    for _ in 0..20 {
        assert!(cue(&mut rack, &mut clock, &p).is_empty(), "the old tail resumed");
    }
}

/// A mute stops a sequencer producing events; it does not stop the clock or reset
/// the position. Muting a track and unmuting it four bars later comes back in time
/// rather than at the top.
#[test]
fn muting_the_rack_and_coming_back_lands_in_time() {
    let mut on = enabled();
    on.drum_length = 16;
    let mut reference = DrumRack::new();
    let mut muted = DrumRack::new();
    let mut clock = running_clock(&on);

    // Both racks read the same advance from the same clock, exactly as the
    // engine drives one; only `drum_enabled` differs between them.
    let mut p = on;
    let mut steps = 0usize;
    let mut orders = Vec::new();
    for _ in 0..12_000 {
        let adv = clock.advance(BLOCK, ClockSource::Internal);
        steps += adv.steps as usize;
        // Muted across steps 2..10 — most of a bar, long enough that a
        // frozen playhead is unmistakable.
        p.drum_enabled = !(2..10).contains(&steps);
        reference.cue(BLOCK, adv, clock.view(), &on, &mut orders);
        muted.cue(BLOCK, adv, clock.view(), &p, &mut orders);
        orders.clear();
    }

    assert!(steps > 12, "the clock never ran past the mute: {steps}");
    assert_eq!(
        reference.sequencer_ref().position(),
        (steps - 1) % 16,
        "the reference rack is not where an always-on rack should be"
    );
    assert_eq!(
        muted.sequencer_ref().position(),
        reference.sequencer_ref().position(),
        "the muted rack came back out of time"
    );
}

#[test]
fn a_muted_rack_keeps_its_place_under_an_external_clock() {
    let on = enabled();
    let mut off = on;
    off.drum_enabled = false;
    let clock = running_clock(&on);
    let mut reference = DrumRack::new();
    let mut muted = DrumRack::new();
    muted.sequencer().set_cell(3, 0, cell(true, 1.0));
    let mut orders = Vec::new();
    let mut unheard = Vec::new();
    for _ in 0..7 {
        reference.on_tick(true, clock.view(), &on, &mut orders);
        muted.on_tick(true, clock.view(), &off, &mut unheard);
    }
    assert_eq!(reference.sequencer_ref().position(), 6);
    assert_eq!(muted.sequencer_ref().position(), 6);
    assert!(unheard.is_empty(), "a muted rack struck {unheard:?}");
}

/// The enable switch is checked in the rack.
#[test]
fn a_disabled_rack_never_renders() {
    let mut p = Params::default();
    p.drum_enabled = false;
    let mut clock = running_clock(&p);
    let mut rack = DrumRack::new();
    rack.sequencer().set_cell(0, 0, cell(true, 1.0));

    for _ in 0..200 {
        assert!(strikes(&cue(&mut rack, &mut clock, &p)).is_empty());
    }
}

#[test]
fn every_pad_has_a_number_a_name_and_a_sound() {
    for (n, pad) in Pad::ALL.into_iter().enumerate() {
        assert_eq!(pad.to_u32(), n as u32);
        assert_eq!(Pad::from_u32(n as u32), pad);
        assert!(!pad.name().is_empty());
        assert!(f(pad.base_hz()) > 0.0);
        assert!(f(pad.base_decay()) > 0.0);
    }
    assert_eq!(PAD_COUNT, 8);
}

#[test]
fn an_edit_is_announced_once() {
    let mut seq = DrumSequencer::new();
    assert!(seq.take_grid_changed());
    assert!(!seq.take_grid_changed());
    seq.toggle(3, 4);
    assert!(seq.grid().get(3, 4).active);
    assert!(seq.take_grid_changed());
    seq.rewind();
    assert_eq!(seq.position(), 0);
}
