use synth_core::clock::BLOCK;
use synth_core::drums::pattern::Cell;
use synth_core::engine::{Engine, Reductions};
use synth_core::env::EnvStage;
use synth_core::event::{Event, EventQueue};
use synth_core::order::Order;
use synth_core::output::chunk;
use synth_core::params::{ClockSource, Params, SharedParams, VoiceMode};
use synth_core::sequencer::{Pattern, Step, MAX_STEPS};
use synth_core::Single;

fn s(x: f32) -> Single {
    Single::from_bits(x.to_bits())
}

fn f(x: Single) -> f32 {
    f32::from_bits(x.to_bits())
}

struct Rig {
    engine: Engine,
    params: SharedParams,
}

fn rig_with(p: &Params) -> Rig {
    let mut params = SharedParams::from_params(p);
    let engine = Engine::new(s(48000.0), &mut params, EventQueue::new(256));
    Rig { engine, params }
}

fn rig() -> Rig {
    rig_with(&Params::default())
}

impl Rig {
    fn push(&mut self, event: Event) -> bool {
        self.engine.events[0].push(event)
    }

    /// Runs the engine over `samples` samples, with sound sources that finish a
    /// fade within a chunk and otherwise hold their notes. Returns the orders.
    fn run(&mut self, samples: usize) -> Vec<Order> {
        let params = self.engine.begin_block(&mut self.params);
        let mut all = Vec::new();
        let mut done = 0;
        while done < samples {
            let count = chunk(samples - done);
            self.engine.sequence_chunk(&mut self.params, count, &params);
            all.append(&mut self.engine.orders);
            for voice in self.engine.voices.iter_mut() {
                if voice.steal_fade.is_some() {
                    voice.finish_steal();
                } else if voice.is_held() {
                    voice.observe(EnvStage::Sustain, s(0.8));
                } else if voice.is_active() {
                    voice.observe(EnvStage::Release, s(0.1));
                }
            }
            done += count;
        }
        let silent = Reductions { synth: s(0.0), master: s(0.0), bass: s(0.0) };
        self.engine.publish_telemetry(&mut self.params, s(0.0), silent);
        all
    }

    fn held(&self) -> Vec<u8> {
        self.engine.voices.iter().filter(|v| v.is_held()).map(|v| v.note).collect()
    }
}

fn on(note: u8) -> Event {
    Event::NoteOn { note, velocity: s(1.0) }
}

fn started(orders: &[Order]) -> usize {
    orders.iter().filter(|o| matches!(o, Order::StartVoice { .. })).count()
}

/// The orders to the voices. A drum rack that is switched off is silenced in
/// every chunk, which says nothing about them.
fn to_voices(mut orders: Vec<Order>) -> Vec<Order> {
    orders.retain(|o| !matches!(o, Order::SilencePad { .. }));
    orders
}

/// The mirror is what the UI draws from, so an edit has to show up in it.
#[test]
fn a_drum_edit_reaches_the_mirror() {
    let mut r = rig();
    assert!(r.push(Event::SetDrumCell {
        step: 5,
        pad: 3,
        cell: Cell { active: true, velocity: s(0.5) },
    }));
    r.run(BLOCK);

    let grid = r.params.read_drum_grid();
    assert!(grid.get(5, 3).active);
    assert_eq!(f(grid.get(5, 3).velocity), 0.5);
    assert!(!grid.get(5, 2).active);
}

/// A pattern longer than the default 16 has to survive being generated,
/// published, read back for saving, and loaded again. Any step of that
/// chain that assumes 16 truncates the melody.
#[test]
fn a_long_pattern_survives_the_round_trip() {
    let mut r = rig();

    r.params.seq_length.set(32);
    r.params.regenerate();
    r.run(64);

    assert_eq!(r.engine.pattern().len(), 32, "generated length");
    let saved = r.params.read_pattern();
    assert_eq!(saved.len(), 32, "what the UI would put in a slot");

    // Now play it back, the way clicking a slot does.
    r.params.seq_length.set(16);
    r.params.regenerate();
    r.run(64);
    r.params.queue_pattern(&saved);
    r.run(64);

    assert_eq!(r.engine.pattern().len(), 32, "loaded length");
    let mirror = r.params.read_pattern();
    assert_eq!(mirror.len(), 32, "mirror after loading");
    for (i, step) in mirror.as_slice().iter().enumerate() {
        assert_eq!(step.note, saved.as_slice()[i].note, "step {i}");
        assert_eq!(step.active, saved.as_slice()[i].active, "step {i}");
    }
}

/// Growing the pattern with the Length knob, then saving, without ever
/// pressing Generate. The grid shows 32 steps, so a save has to hand back
/// the same 32 the grid is showing.
#[test]
fn growing_the_length_without_regenerating_still_saves_what_the_grid_shows() {
    let mut r = rig();

    r.params.regenerate();
    r.run(64);
    let short = r.params.read_pattern();
    assert_eq!(short.len(), 16, "starting length");

    // Drag Length to 32. No Generate.
    r.params.seq_length.set(32);
    r.run(64);

    assert_eq!(r.engine.pattern().len(), 32, "sequencer grew");
    let saved = r.params.read_pattern();
    assert_eq!(saved.len(), 32, "save length");
    for (i, step) in saved.as_slice().iter().enumerate() {
        assert_eq!(
            step.note,
            r.engine.pattern()[i].note,
            "step {i} note disagrees with the sequencer"
        );
        assert_eq!(
            step.active,
            r.engine.pattern()[i].active,
            "step {i} active disagrees with the sequencer"
        );
    }
}

/// The whole load path, end to end: the control side stages a pattern, the
/// audio thread notices the counter, the sequencer adopts it, and the
/// mirror the UI reads is brought back into agreement with it.
#[test]
fn a_loaded_pattern_reaches_the_sequencer_and_the_mirror() {
    let mut r = rig();

    let mut steps = [Step::default(); MAX_STEPS];
    for (i, step) in steps.iter_mut().enumerate().take(8) {
        *step = Step {
            active: true,
            // Below anything the generator reaches, so this can only be
            // the loaded pattern.
            note: 12 + i as u8,
            velocity: s(1.0),
            accent: false,
            slide: false,
        };
    }
    r.params.queue_pattern(&Pattern::new(steps, 8));

    // Stopped, so the pattern lands on the first block rather than waiting
    // for a bar line that will never come.
    r.run(64);

    assert_eq!(r.engine.pattern().len(), 8, "the length did not follow");
    assert_eq!(r.params.seq_length.get(), 8, "the knob was left behind");
    let mirror = r.params.read_pattern();
    assert_eq!(mirror.len(), 8);
    for (i, step) in mirror.as_slice().iter().enumerate() {
        assert!(step.active);
        assert_eq!(step.note, 12 + i as u8, "step {i} in the mirror");
    }
}

#[test]
fn polyphony_is_limited_to_max_voices() {
    let mut r = rig();
    r.params.seq_playing.set(false);
    r.params.max_voices.set(4);
    for note in 40..60u8 {
        r.push(on(note));
    }
    r.run(4800);
    let active = r.params.active_voices;
    assert!(active <= 4, "{active} voices active with a limit of 4");
    assert!(active > 0, "voice limit silenced everything");
}

#[test]
fn note_off_lets_go_of_the_voice() {
    let mut r = rig();
    r.push(on(60));
    r.run(4800);
    assert_eq!(r.held(), vec![60]);
    r.push(Event::NoteOff { note: 60 });
    let orders = r.run(480);
    assert_eq!(to_voices(orders), vec![Order::ReleaseVoice { voice: 0 }]);
    assert!(r.held().is_empty());
    // It rings on through its release until the envelope says it is over.
    assert!(r.engine.voices[0].is_active());
    r.engine.voices[0].observe(EnvStage::Idle, s(0.0));
    assert!(!r.engine.voices[0].is_active());
}

#[test]
fn a_panic_cuts_every_voice_every_pad_and_the_bass() {
    let mut r = rig();
    r.params.seq_playing.set(false);
    for note in 50..60u8 {
        r.push(on(note));
    }
    r.run(4800);
    assert_eq!(r.params.active_voices, 10);
    r.push(Event::Panic);
    let orders = r.run(BLOCK);
    assert_eq!(r.params.active_voices, 0);
    assert!(r.engine.held.is_empty());
    for voice in 0..32 {
        assert!(orders.contains(&Order::KillVoice { voice }));
    }
    for pad in 0..8 {
        assert!(orders.contains(&Order::SilencePad { pad }));
    }
    assert!(orders.contains(&Order::SilenceBass));
}

/// Mono mode must fall back to a still-held note when the top one is
/// released — the behaviour that makes basslines playable.
#[test]
fn mono_falls_back_to_the_held_note() {
    let mut r = rig();
    r.params.seq_playing.set(false);
    r.params.voice_mode.set(VoiceMode::Mono as u32);
    r.params.glide.set(s(0.0));
    r.params.legato.set(true);

    r.push(on(48));
    r.run(2400);
    r.push(on(60));
    r.run(2400);
    // Releasing the upper note should return to the lower one, not silence.
    r.push(Event::NoteOff { note: 60 });
    r.run(2400);

    assert_eq!(r.engine.voices[0].note, 48, "mono did not fall back");
    assert!(r.engine.voices[0].is_active());
}

#[test]
fn mono_without_legato_starts_the_note_again() {
    let mut r = rig();
    r.params.voice_mode.set(VoiceMode::Mono as u32);
    r.params.legato.set(false);
    r.params.glide.set(s(0.1));
    r.push(on(48));
    r.run(2400);
    r.push(on(60));
    let orders = r.run(BLOCK);
    assert_eq!(
        to_voices(orders),
        vec![Order::StartVoice { voice: 0, note: 60, velocity: s(1.0), glide_from: Some(48) }]
    );
}

#[test]
fn mono_uses_exactly_one_voice() {
    let mut r = rig();
    r.params.seq_playing.set(false);
    r.params.voice_mode.set(VoiceMode::Mono as u32);
    for note in 40..60u8 {
        r.push(on(note));
    }
    r.run(4800);
    let active = r.params.active_voices;
    assert_eq!(active, 1, "mono mode used {active} voices");
}

#[test]
fn poly_reuses_the_same_voice_for_a_repeated_note() {
    let mut r = rig();
    r.params.seq_playing.set(false);
    r.push(on(60));
    r.run(2400);
    r.push(on(60));
    r.run(2400);
    let active = r.params.active_voices;
    assert_eq!(active, 1, "repeated note stacked {active} voices");
}

#[test]
fn stealing_prefers_releasing_voices_over_held_ones() {
    let mut r = rig();
    r.params.seq_playing.set(false);
    r.params.max_voices.set(2);
    r.params.amp_release.set(s(5.0));

    r.push(on(60));
    r.push(on(64));
    r.run(2400);
    // Release one; it keeps sounding through its long release.
    r.push(Event::NoteOff { note: 60 });
    r.run(2400);
    // A third note must take the released voice, not the held one.
    r.push(on(67));
    r.run(4800);

    let still_held: Vec<u8> = r
        .engine
        .voices
        .iter()
        .take(2)
        .filter(|v| v.is_held())
        .map(|v| v.note)
        .collect();
    assert!(still_held.contains(&64), "stole a held voice: {still_held:?}");
    assert!(still_held.contains(&67), "new note never sounded");
}

#[test]
fn with_every_voice_held_the_oldest_is_stolen() {
    let mut r = rig();
    r.params.max_voices.set(3);
    for note in [60, 64, 67] {
        r.push(on(note));
    }
    r.run(480);
    r.push(on(72));
    r.run(480);
    let mut held = r.held();
    held.sort_unstable();
    assert_eq!(held, vec![64, 67, 72]);
    r.push(on(74));
    r.run(480);
    let mut held = r.held();
    held.sort_unstable();
    assert_eq!(held, vec![67, 72, 74]);
}

#[test]
fn among_releasing_voices_the_quietest_is_stolen() {
    let mut r = rig();
    r.params.max_voices.set(2);
    r.push(on(60));
    r.push(on(64));
    r.run(BLOCK);
    r.push(Event::AllNotesOff);
    r.run(BLOCK);
    r.engine.voices[0].observe(EnvStage::Release, s(0.5));
    r.engine.voices[1].observe(EnvStage::Release, s(0.2));
    r.push(on(67));
    let orders = r.run(BLOCK);
    assert_eq!(to_voices(orders), vec![Order::StealVoice { voice: 1, note: 67, velocity: s(1.0) }]);
}

#[test]
fn the_sequencer_starts_notes_when_started() {
    let mut r = rig();
    r.params.tempo.set(s(140.0));
    r.params.gen_density.set(s(1.0));
    r.push(Event::ClockStart);
    let orders = r.run(48000 * 2);
    assert!(started(&orders) > 5, "sequencer produced nothing");
    assert!(r.params.seq_playing.get(), "an event that starts the clock sets the flag");
}

#[test]
fn stopping_the_transport_lets_go_of_the_melody() {
    let mut r = rig();
    r.params.tempo.set(s(140.0));
    r.push(Event::ClockStart);
    r.run(48000);
    r.push(Event::ClockStop);
    r.run(BLOCK);
    assert!(!r.params.seq_playing.get());
    assert!(r.held().is_empty(), "notes hung after stop");
    assert!(started(&r.run(48000)) == 0, "the sequencer went on after a stop");
}

#[test]
fn clearing_the_flag_stops_the_transport_too() {
    let mut r = rig();
    r.params.seq_playing.set(true);
    r.run(48000);
    assert!(r.engine.clock.is_running());
    r.params.seq_playing.set(false);
    let orders = r.run(BLOCK);
    assert!(!r.engine.clock.is_running());
    assert!(orders.contains(&Order::SilenceBass));
    assert!(r.held().is_empty());
}

#[test]
fn external_ticks_drive_the_sequencer() {
    let mut r = rig();
    r.params.clock_source.set(ClockSource::ExternalMidi as u32);
    r.params.gen_density.set(s(1.0));
    r.push(Event::Regenerate);
    r.push(Event::ClockStart);

    // 24 ticks per beat at roughly 120 BPM.
    let samples_per_tick = 48000.0 * 60.0 / (120.0 * 24.0);
    let mut orders = Vec::new();
    for _ in 0..96 {
        r.push(Event::ClockTick);
        orders.extend(r.run(samples_per_tick as usize));
    }
    assert_eq!(started(&orders), 16, "four beats of sixteenths");
}

#[test]
fn a_muted_melody_starts_nothing_but_keeps_stepping() {
    let mut r = rig();
    r.params.tempo.set(s(140.0));
    r.params.gen_density.set(s(1.0));
    r.params.melody_enabled.set(false);
    r.push(Event::ClockStart);
    let orders = r.run(48000);
    assert_eq!(started(&orders), 0, "the melody played while muted");
    assert!(r.params.current_step > 0, "a mute froze the playhead");
}

#[test]
fn a_muted_melody_is_muted_under_an_external_clock_too() {
    let mut r = rig();
    r.params.clock_source.set(ClockSource::ExternalMidi as u32);
    r.params.gen_density.set(s(1.0));
    r.params.melody_enabled.set(false);
    r.push(Event::ClockStart);
    let mut orders = Vec::new();
    for _ in 0..96 {
        r.push(Event::ClockTick);
        orders.extend(r.run(1000));
    }
    assert_eq!(started(&orders), 0);
    assert_eq!(r.params.current_step, 15);
}

#[test]
fn muting_the_melody_lets_go_of_what_it_holds() {
    let mut r = rig();
    r.params.gen_density.set(s(1.0));
    r.params.seq_gate.set(s(1.5));
    r.push(Event::ClockStart);
    r.run(9600);
    assert!(!r.held().is_empty());
    r.params.melody_enabled.set(false);
    r.run(BLOCK);
    assert!(r.held().is_empty());
}

#[test]
fn a_block_takes_no_more_than_its_budget_of_events() {
    let mut params = SharedParams::default();
    let mut many = EventQueue::new(2048);
    for _ in 0..1000 {
        assert!(many.push(Event::ModWheel(s(0.5))));
    }
    let mut few = EventQueue::new(16);
    few.push(Event::ModWheel(s(0.25)));
    let mut engine = Engine::with_sources(s(48000.0), &mut params, vec![many, few]);
    engine.begin_block(&mut params);
    assert_eq!(engine.events[0].len(), 1000 - 512);
    assert_eq!(engine.events[1].len(), 1);
    assert_eq!(f(params.mod_wheel.get()), 0.5);
    engine.begin_block(&mut params);
    assert_eq!(engine.events[0].len(), 0);
    assert_eq!(engine.events[1].len(), 0);
    assert_eq!(f(params.mod_wheel.get()), 0.25);
}

#[test]
fn sources_are_drained_in_order() {
    let mut params = SharedParams::default();
    let mut first = EventQueue::new(8);
    first.push(Event::PitchBend(s(1.0)));
    let mut engine = Engine::new(s(48000.0), &mut params, first);
    let mut second = EventQueue::new(8);
    second.push(Event::PitchBend(s(2.0)));
    engine.add_event_source(second);
    engine.begin_block(&mut params);
    assert_eq!(f(params.pitch_bend.get()), 2.0);
}

/// The UI reads the pattern only through the mirror, so a regeneration that
/// failed to publish would leave the grid showing a stale melody.
#[test]
fn regenerating_publishes_the_pattern_to_the_mirror() {
    let mut r = rig();
    r.params.gen_density.set(s(1.0));
    r.params.seq_length.set(16);

    r.push(Event::Regenerate);
    r.run(BLOCK);

    let mirrored = r.params.read_pattern();
    let actual = r.engine.pattern();
    assert_eq!(mirrored.len(), actual.len());
    for (index, (a, b)) in actual.iter().zip(mirrored.as_slice().iter()).enumerate() {
        assert_eq!(a.active, b.active, "step {index} active flag");
        assert_eq!(a.note, b.note, "step {index} note");
    }
}

#[test]
fn setting_a_step_updates_the_mirror() {
    let mut r = rig();
    let step = Step {
        active: true,
        note: 42,
        velocity: s(1.0),
        accent: false,
        slide: false,
    };
    r.push(Event::SetStep { index: 3, step });
    r.run(BLOCK);

    let back = r.params.read_step(3);
    assert!(back.active);
    assert_eq!(back.note, 42);
}

#[test]
fn a_step_no_pattern_has_is_ignored() {
    let mut r = rig();
    let before = r.params.read_pattern();
    let mut step = Step::default();
    step.note = 1;
    r.push(Event::SetStep { index: 200, step });
    r.push(Event::SetBassStep { index: 200, step });
    r.run(BLOCK);
    assert_eq!(r.params.read_pattern().as_slice(), before.as_slice());
}

#[test]
fn a_request_is_obeyed_once() {
    let mut r = rig();
    r.params.gen_seed = 99;
    r.params.regenerate();
    r.run(BLOCK);
    let fresh = r.params.read_pattern();
    let mut step = Step::default();
    step.note = 3;
    r.push(Event::SetStep { index: 0, step });
    r.run(BLOCK);
    // Another block must not write the melody again over the edit.
    assert_eq!(r.params.read_step(0).note, 3);
    assert_eq!(r.params.read_pattern().as_slice()[1..], fresh.as_slice()[1..]);
}

#[test]
fn bass_and_lead_step_from_the_same_clock() {
    let mut p = Params::default();
    p.bass_enabled = true;
    p.seq_playing = true;
    let mut r = rig_with(&p);
    // Same length on both lines: locked to one clock, they must agree on
    // which step they are on, every block, forever.
    let length = r.params.seq_length.get();
    r.params.bass_seq_length.set(length);
    for _ in 0..2_000 {
        r.run(BLOCK);
        assert_eq!(r.params.bass_step, r.params.current_step, "two lines, one clock");
    }
}

#[test]
fn the_bass_plays_only_when_enabled() {
    let mut p = Params::default();
    p.bass_enabled = false;
    p.seq_playing = true;
    let mut r = rig_with(&p);
    let notes = |orders: &[Order]| {
        orders.iter().filter(|o| matches!(o, Order::StartBass { .. })).count()
    };
    assert_eq!(notes(&r.run(400 * BLOCK)), 0, "the bass must stay off");
    r.params.bass_enabled.set(true);
    assert!(notes(&r.run(800 * BLOCK)) > 0, "and sound once switched on");
}

#[test]
fn clock_start_rewinds_the_bass_sequencer_with_the_lead() {
    let mut p = Params::default();
    p.bass_enabled = true;
    let mut r = rig_with(&p);
    let length = r.params.seq_length.get();
    r.params.bass_seq_length.set(length);
    r.params.tempo.set(s(300.0));

    r.push(Event::ClockStart);
    r.run(BLOCK * 200);
    assert_ne!(r.params.bass_step, 0, "test setup: the bass sequencer never left step 0");

    r.push(Event::ClockStop);
    r.push(Event::ClockStart);
    // One block: just enough for `begin_block` to drain the two events
    // and publish the resulting position, nowhere near the next tick.
    r.run(BLOCK);

    assert_eq!(
        r.params.bass_step, r.params.current_step,
        "bass sequencer wasn't rewound with the lead"
    );
    assert_eq!(r.params.bass_step, 0, "bass sequencer should be back at step 0");
}

#[test]
fn editing_a_bass_step_leaves_the_lead_alone() {
    let mut p = Params::default();
    p.bass_enabled = true;
    let mut r = rig_with(&p);
    r.run(BLOCK);

    let lead_before = r.params.read_step(2);
    assert!(r.push(Event::SetBassStep {
        index: 2,
        step: Step {
            active: true,
            note: 31,
            velocity: s(0.7),
            accent: true,
            slide: true,
        },
    }));
    r.run(BLOCK);

    assert_eq!(r.params.read_bass_step(2).note, 31);
    assert!(r.params.read_bass_step(2).slide);
    assert_eq!(r.params.read_step(2), lead_before, "the lead must be untouched");
}

#[test]
fn regenerating_one_line_leaves_the_other_alone() {
    let mut p = Params::default();
    p.bass_enabled = true;
    let mut r = rig_with(&p);
    r.run(BLOCK);

    let notes = |p: Pattern| -> Vec<u8> { p.as_slice().iter().map(|s| s.note).collect() };
    let lead = notes(r.params.read_pattern());
    let bass = notes(r.params.read_bass_pattern());

    r.params.bass_gen_seed = 0xFACE_0001;
    assert!(r.push(Event::RegenerateBass));
    r.run(BLOCK);

    let lead_after = notes(r.params.read_pattern());
    let bass_after = notes(r.params.read_bass_pattern());
    assert_eq!(lead, lead_after, "regenerating the bass must not touch the lead");
    assert_ne!(bass, bass_after, "and must actually write a new bass line");
}

#[test]
fn a_change_of_voice_mode_cuts_what_was_sounding() {
    let mut r = rig();
    for note in [60, 64, 67] {
        r.push(on(note));
    }
    r.run(480);
    r.params.voice_mode.set(VoiceMode::Mono as u32);
    r.push(on(72));
    r.run(BLOCK);
    // The stale chord is gone, the note that came with the switch is not.
    assert_eq!(r.held(), vec![72]);
    assert_eq!(r.params.active_voices, 1);
}

#[test]
fn keys_are_held_once_and_forgotten_once() {
    let mut r = rig();
    for note in [60, 62, 60] {
        r.engine.remember_held(note);
    }
    assert_eq!(r.engine.held, vec![60, 62]);
    r.engine.forget_held(60);
    r.engine.forget_held(99);
    assert_eq!(r.engine.held, vec![62]);
    for note in 0..=255u8 {
        r.engine.remember_held(note);
    }
    assert_eq!(r.engine.held.len(), 128);
}

#[test]
fn telemetry_keeps_the_highest_unread_peak() {
    let mut r = rig();
    let gr = Reductions { synth: s(1.0), master: s(2.0), bass: s(3.0) };
    r.engine.publish_telemetry(&mut r.params, s(0.6), gr);
    r.engine.publish_telemetry(&mut r.params, s(0.2), gr);
    assert_eq!(f(r.params.take_peak()), 0.6);
    assert_eq!(f(r.params.comp_synth_gr.get()), 1.0);
    assert_eq!(f(r.params.comp_master_gr.get()), 2.0);
    assert_eq!(f(r.params.comp_bass_gr.get()), 3.0);
}

#[test]
fn a_new_engine_is_at_rest_and_has_published_both_lines() {
    let mut r = rig();
    assert_eq!(f(r.engine.sample_rate()), 48000.0);
    assert_eq!(r.params.read_pattern().as_slice()[0].note, r.engine.pattern()[0].note);
    assert!(r.engine.orders.is_empty());
    assert!(r.engine.drum_grid().is_empty());
    r.engine.set_sample_rate(s(44100.0));
    assert_eq!(f(r.engine.sample_rate()), 44100.0);
    assert_eq!(f(r.engine.clock.sample_rate), 44100.0);
}

#[test]
fn the_bass_follows_an_external_clock_too() {
    let mut p = Params::default();
    p.clock_source = ClockSource::ExternalMidi;
    p.steps_per_beat = s(4.0);
    p.seq_length = 16;
    p.bass_seq_length = 16;
    p.bass_enabled = true;
    let mut r = rig_with(&p);
    r.push(Event::ClockStart);
    for _ in 0..12 {
        r.push(Event::ClockTick);
    }
    r.run(32);
    assert_eq!(r.params.current_step, 1);
    assert_eq!(r.params.bass_step, 1);
}

#[test]
fn two_lines_of_one_length_stay_together_under_an_external_clock() {
    let mut p = Params::default();
    p.clock_source = ClockSource::ExternalMidi;
    p.bass_enabled = true;
    p.bass_gen_density = s(1.0);
    let mut r = rig_with(&p);
    let length = r.params.seq_length.get();
    r.params.bass_seq_length.set(length);
    r.push(Event::ClockStart);
    let mut notes = 0;
    for tick in 0..400u32 {
        r.push(Event::ClockTick);
        // Muting the melody half way must not part them.
        r.params.melody_enabled.set(tick < 200);
        let orders = r.run(300);
        notes += orders.iter().filter(|o| matches!(o, Order::StartBass { .. })).count();
        assert_eq!(r.params.bass_step, r.params.current_step, "tick {tick}");
    }
    assert_eq!(notes, 66, "one note to every sixth tick");
}

#[test]
fn a_muted_bass_keeps_its_place_under_an_external_clock() {
    let mut p = Params::default();
    p.clock_source = ClockSource::ExternalMidi;
    p.bass_enabled = false;
    let mut r = rig_with(&p);
    r.push(Event::ClockStart);
    let mut notes = 0;
    for _ in 0..19 {
        r.push(Event::ClockTick);
        let orders = r.run(BLOCK);
        notes += orders.iter().filter(|o| matches!(o, Order::StartBass { .. })).count();
    }
    assert_eq!(notes, 0);
    assert_eq!(r.params.bass_step, 2);
}

#[test]
fn what_is_over_the_budget_waits_for_the_next_block() {
    let mut params = SharedParams::from_params(&Params::default());
    let mut engine = Engine::new(s(48000.0), &mut params, EventQueue::new(1024));
    for i in 0..600u32 {
        assert!(engine.events[0].push(Event::ModWheel(s(i as f32 / 1000.0))));
    }
    engine.begin_block(&mut params);
    assert_eq!(f(params.mod_wheel.get()), 0.511);
    assert_eq!(engine.events[0].pop(), Some(Event::ModWheel(s(0.512))));
    engine.begin_block(&mut params);
    assert_eq!(f(params.mod_wheel.get()), 0.599);
    assert_eq!(engine.events[0].pop(), None);
    assert_eq!(f(engine.sample_rate()), 48000.0);
}
