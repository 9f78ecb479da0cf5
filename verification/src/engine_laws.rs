//! What holds of the engine as a whole.

use crate::clock::{Advance, ClockView};
use crate::drums::pad::PAD_COUNT;
use crate::drums::rack;
use crate::engine;
use crate::engine::{Desk, EngineModel, EVENT_BUDGET, EVENT_ORDERS, MAX_ORDERS};
use crate::event::Event;
use crate::order::Order;
use crate::params::{Params, VoiceMode, MAX_VOICES};
use crate::sequencer;
use crate::sequencer::{SeqOutput, SeqSettings};
use crate::single::Single;
use crate::voice::Voice;
use vstd::prelude::*;

verus! {

// --- Stealing ---

/// There is someone to steal as soon as one voice can be stolen, and it is one of
/// the voices asked about.
proof fn lemma_victim_among(voices: Seq<Voice>, n: int)
    requires
        0 <= n <= voices.len(),
    ensures
        engine::victim(voices, n) matches Some(v) ==> 0 <= v < n && engine::stealable(voices[v]),
        engine::victim(voices, n) is None ==> forall|i: int|
            0 <= i < n ==> !(#[trigger] engine::stealable(voices[i])),
    decreases n,
{
    if n > 0 {
        lemma_victim_among(voices, n - 1);
    }
}

/// A releasing voice goes before any held one, the quietest of them first; if all
/// are held, the oldest goes.
pub proof fn law_the_voice_stolen_is_missed_least(voices: Seq<Voice>, n: int)
    requires
        0 <= n <= voices.len(),
    ensures
        engine::victim(voices, n) matches Some(v) ==> {
            &&& 0 <= v < n
            &&& forall|i: int|
                0 <= i < n && engine::stealable(#[trigger] voices[i]) && !voices[i].held()
                    ==> !voices[v].held() && !voices[i].level.below(voices[v].level)
            &&& voices[v].held() ==> forall|i: int|
                0 <= i < n && (#[trigger] voices[i]).held() ==> voices[v].age <= voices[i].age
        },
    decreases n,
{
    lemma_victim_among(voices, n);
    if n > 0 {
        law_the_voice_stolen_is_missed_least(voices, n - 1);
        lemma_victim_among(voices, n - 1);
        if let Some(v) = engine::victim(voices, n) {
            assert forall|i: int|
                0 <= i < n && engine::stealable(#[trigger] voices[i])
                    && !voices[i].held() implies !voices[v].held() && !voices[i].level.below(
                voices[v].level,
            ) by {
                if i < n - 1 && engine::victim(voices, n - 1) is None {
                    assert(!engine::stealable(voices[i]));
                }
            }
            if voices[v].held() {
                assert forall|i: int| 0 <= i < n && (#[trigger] voices[i]).held() implies voices[v].age
                    <= voices[i].age by {
                    if i < n - 1 && engine::victim(voices, n - 1) is None {
                        assert(!engine::stealable(voices[i]));
                    }
                }
            }
        }
    }
}

// --- Allocation ---

proof fn lemma_first_holding(voices: Seq<Voice>, note: u8, i: int, limit: int)
    requires
        0 <= i,
    ensures
        engine::first_holding(voices, note, i, limit) matches Some(k) ==> {
            &&& i <= k < limit
            &&& voices[k].gate
            &&& voices[k].note == note
            &&& forall|j: int|
                i <= j < k ==> !((#[trigger] voices[j]).gate && voices[j].note == note)
        },
        engine::first_holding(voices, note, i, limit) is None ==> forall|j: int|
            i <= j < limit ==> !((#[trigger] voices[j]).gate && voices[j].note == note),
    decreases if i < limit { limit - i } else { 0 },
{
    if i < limit {
        lemma_first_holding(voices, note, i + 1, limit);
    }
}

proof fn lemma_first_free(voices: Seq<Voice>, i: int, limit: int)
    requires
        0 <= i,
    ensures
        engine::first_free(voices, i, limit) matches Some(k) ==> i <= k < limit
            && !voices[k].active(),
        engine::first_free(voices, i, limit) is None ==> forall|j: int|
            i <= j < limit ==> (#[trigger] voices[j]).active(),
    decreases if i < limit { limit - i } else { 0 },
{
    if i < limit {
        lemma_first_free(voices, i + 1, limit);
    }
}

/// Whether every voice but one is as it was.
pub open spec fn only_voice_changed(before: Seq<Voice>, after: Seq<Voice>, k: int) -> bool {
    forall|i: int| 0 <= i < before.len() && i != k ==> after[i] == #[trigger] before[i]
}

/// A poly note-on touches at most one voice, and none beyond the live limit.
pub proof fn law_polyphony_is_limited(e: EngineModel, note: u8, velocity: Single, p: Params)
    requires
        e.wf(),
    ensures
        e.poly_on(note, velocity, p).voices.len() == MAX_VOICES,
        exists|k: int|
            0 <= k < engine::voice_limit(p) && #[trigger] only_voice_changed(
                e.voices,
                e.poly_on(note, velocity, p).voices,
                k,
            ),
{
    let limit = engine::voice_limit(p);
    lemma_first_holding(e.voices, note, 0, limit);
    lemma_first_free(e.voices, 0, limit);
    lemma_victim_among(e.voices, limit);
    let after = e.poly_on(note, velocity, p).voices;
    let k = match engine::first_holding(e.voices, note, 0, limit) {
        Some(i) => i,
        None => match engine::first_free(e.voices, 0, limit) {
            Some(i) => i,
            None => match engine::victim(e.voices, limit) {
                Some(i) => i,
                None => 0,
            },
        },
    };
    assert(0 <= k < limit);
    assert(only_voice_changed(e.voices, after, k));
}

/// A note that a voice already holds is played on that voice again, rather than
/// stacked on a second one.
pub proof fn law_a_repeated_note_reuses_its_voice(
    e: EngineModel,
    note: u8,
    velocity: Single,
    p: Params,
    k: int,
)
    requires
        e.wf(),
        0 <= k < engine::voice_limit(p),
        e.voices[k].gate,
        e.voices[k].note == note,
        forall|j: int| 0 <= j < k ==> !((#[trigger] e.voices[j]).gate && e.voices[j].note == note),
    ensures
        e.poly_on(note, velocity, p).voices == e.voices.update(
            k,
            e.voices[k].started(note, velocity, e.aged().age),
        ),
{
    lemma_first_holding(e.voices, note, 0, engine::voice_limit(p));
}

/// While a voice is free, a note no voice holds is started on a free one: nothing
/// that sounds is taken.
pub proof fn law_a_free_voice_is_used_first(
    e: EngineModel,
    note: u8,
    velocity: Single,
    p: Params,
    k: int,
)
    requires
        e.wf(),
        0 <= k < engine::voice_limit(p),
        !e.voices[k].active(),
    ensures
        forall|i: int|
            0 <= i < MAX_VOICES && (#[trigger] e.voices[i]).active() && !(e.voices[i].gate
                && e.voices[i].note == note) ==> e.poly_on(note, velocity, p).voices[i]
                == e.voices[i],
{
    lemma_first_holding(e.voices, note, 0, engine::voice_limit(p));
    lemma_first_free(e.voices, 0, engine::voice_limit(p));
}

proof fn lemma_poly_off(e: EngineModel, note: u8, n: int)
    requires
        0 <= n <= e.voices.len(),
    ensures
        e.poly_off(note, n).voices.len() == e.voices.len(),
        forall|i: int|
            0 <= i < e.voices.len() ==> #[trigger] e.poly_off(note, n).voices[i] == (if i < n
                && e.voices[i].gate && e.voices[i].note == note {
                e.voices[i].released()
            } else {
                e.voices[i]
            }),
    decreases n,
{
    if n > 0 {
        lemma_poly_off(e, note, n - 1);
    }
}

/// After a poly note-off no voice holds the note, and every other voice is as it
/// was.
pub proof fn law_note_off_lets_the_note_go(e: EngineModel, note: u8, p: Params)
    requires
        e.wf(),
        p.voice_mode == VoiceMode::Poly,
    ensures
        forall|i: int|
            0 <= i < MAX_VOICES ==> {
                let v = #[trigger] e.noted_off(note, p).voices[i];
                &&& !(v.gate && v.note == note)
                &&& !(e.voices[i].gate && e.voices[i].note == note) ==> v == e.voices[i]
            },
{
    lemma_poly_off(e, note, MAX_VOICES as int);
}

/// Mono plays on the first voice alone.
pub proof fn law_mono_uses_exactly_one_voice(e: EngineModel, note: u8, velocity: Single, p: Params)
    requires
        e.wf(),
        p.voice_mode == VoiceMode::Mono,
    ensures
        forall|i: int|
            1 <= i < MAX_VOICES ==> e.noted_on(note, velocity, p).voices[i] == #[trigger] e.voices[i]
                && e.noted_off(note, p).voices[i] == e.voices[i],
{
}

/// Letting go of the sounding key while others are held goes back to the last of
/// those; letting go of another key changes nothing.
pub proof fn law_mono_falls_back_to_the_held_note(e: EngineModel, note: u8, p: Params)
    requires
        e.wf(),
        p.voice_mode == VoiceMode::Mono,
        e.held.len() > 0,
    ensures
        e.voices[0].note == note ==> e.noted_off(note, p).voices[0].note == e.held.last(),
        e.voices[0].note != note ==> e.noted_off(note, p) == e,
{
}

/// With legato on, a mono note pressed over a held one slides without restarting
/// the envelope.
pub proof fn law_legato_does_not_restart(e: EngineModel, note: u8, velocity: Single, p: Params)
    requires
        e.wf(),
        p.voice_mode == VoiceMode::Mono,
        p.legato,
        e.voices[0].held(),
    ensures
        e.noted_on(note, velocity, p).voices[0].note == note,
        e.noted_on(note, velocity, p).voices[0].stage == e.voices[0].stage,
        e.noted_on(note, velocity, p).voices[0].level == e.voices[0].level,
        e.noted_on(note, velocity, p).voices[0].age == e.voices[0].age,
{
}

/// Pressing a key that was not held and letting it go again leaves the held keys
/// as they were.
pub proof fn law_a_key_pressed_and_let_go_is_forgotten(e: EngineModel, note: u8)
    requires
        e.wf(),
        !e.held.contains(note),
        e.held.len() < engine::MAX_HELD,
    ensures
        e.remembered(note).forgotten(note).held == e.held,
{
    let h = e.held.push(note);
    assert(h[h.len() - 1] == note);
    assert(h.contains(note));
    let k = h.index_of(note);
    assert(h[k] == note);
    if k < e.held.len() {
        assert(e.held[k] == note);
    }
    assert(h.remove(k) =~= e.held);
}

/// A key let go is no longer held, and no other key is affected.
pub proof fn law_a_key_let_go_is_not_held(e: EngineModel, note: u8, other: u8)
    requires
        e.wf(),
        other != note,
    ensures
        !e.forgotten(note).held.contains(note),
        e.forgotten(note).held.contains(other) == e.held.contains(other),
        e.forgotten(note).held.no_duplicates(),
{
    if e.held.contains(note) {
        let k = e.held.index_of(note);
        assert(e.held[k] == note);
        let h = e.held.remove(k);
        assert forall|i: int| 0 <= i < h.len() implies h[i] != note by {
            if i < k {
                assert(h[i] == e.held[i]);
            } else {
                assert(h[i] == e.held[i + 1]);
            }
        }
        if e.held.contains(other) {
            let j = e.held.index_of(other);
            assert(e.held[j] == other);
            if j < k {
                assert(h[j] == other);
            } else {
                assert(h[j - 1] == other);
            }
        }
        if h.contains(other) {
            let j = h.index_of(other);
            assert(h[j] == other);
            if j < k {
                assert(e.held[j] == other);
            } else {
                assert(e.held[j + 1] == other);
            }
        }
    }
}

// --- Silence ---

proof fn lemma_all_voices(e: EngineModel, hard: bool, n: int)
    requires
        0 <= n <= e.voices.len(),
    ensures
        e.all_voices(hard, n).voices.len() == e.voices.len(),
        forall|i: int|
            0 <= i < e.voices.len() ==> #[trigger] e.all_voices(hard, n).voices[i] == (if i >= n {
                e.voices[i]
            } else if hard {
                e.voices[i].killed()
            } else {
                e.voices[i].released()
            }),
        e.all_voices(hard, n) == (EngineModel {
            voices: e.all_voices(hard, n).voices,
            orders: e.all_voices(hard, n).orders,
            ..e
        }),
        e.all_voices(hard, n).orders == e.orders + Seq::new(
            n as nat,
            |i: int|
                if hard {
                    Order::KillVoice { voice: i as usize }
                } else {
                    Order::ReleaseVoice { voice: i as usize }
                },
        ),
    decreases n,
{
    if n > 0 {
        lemma_all_voices(e, hard, n - 1);
    }
    assert(e.all_voices(hard, n).orders =~= e.orders + Seq::new(
        n as nat,
        |i: int|
            if hard {
                Order::KillVoice { voice: i as usize }
            } else {
                Order::ReleaseVoice { voice: i as usize }
            },
    ));
}

/// A panic leaves nothing sounding and no key held, and orders every voice, every
/// pad and the bass cut.
pub proof fn law_panic_silences_everything(e: EngineModel)
    requires
        e.wf(),
    ensures
        e.silenced(true).held.len() == 0,
        e.silenced(true).bass.sounding is None,
        e.silenced(true).bass.pending is None,
        forall|i: int| 0 <= i < MAX_VOICES ==> !(#[trigger] e.silenced(true).voices[i]).active(),
        e.silenced(true).orders == e.orders + Seq::new(
            MAX_VOICES as nat,
            |i: int| Order::KillVoice { voice: i as usize },
        ) + rack::silence_orders(8) + seq![Order::SilenceBass],
{
    let q = EngineModel { held: Seq::empty(), ..e };
    lemma_all_voices(q, true, MAX_VOICES as int);
    assert(Seq::new(
        MAX_VOICES as nat,
        |i: int|
            if true {
                Order::KillVoice { voice: i as usize }
            } else {
                Order::ReleaseVoice { voice: i as usize }
            },
    ) =~= Seq::new(MAX_VOICES as nat, |i: int| Order::KillVoice { voice: i as usize }));
    assert(e.silenced(true).orders =~= e.orders + Seq::new(
        MAX_VOICES as nat,
        |i: int| Order::KillVoice { voice: i as usize },
    ) + rack::silence_orders(8) + seq![Order::SilenceBass]);
}

/// "All notes off" lets every key go but cuts nothing: what sounds rings on
/// through its release.
pub proof fn law_all_notes_off_rings_on(e: EngineModel)
    requires
        e.wf(),
    ensures
        e.silenced(false).held.len() == 0,
        forall|i: int|
            0 <= i < MAX_VOICES ==> {
                let v = #[trigger] e.silenced(false).voices[i];
                &&& !v.gate
                &&& v.active() == e.voices[i].active()
                &&& v.level == e.voices[i].level
            },
{
    lemma_all_voices(EngineModel { held: Seq::empty(), ..e }, false, MAX_VOICES as int);
}

proof fn lemma_noted_off_keeps(e: EngineModel, note: u8, p: Params)
    requires
        e.wf(),
    ensures
        e.noted_off(note, p) == (EngineModel {
            voices: e.noted_off(note, p).voices,
            age: e.noted_off(note, p).age,
            orders: e.noted_off(note, p).orders,
            ..e
        }),
{
    if p.voice_mode == VoiceMode::Poly {
        lemma_poly_off_keeps(e, note, MAX_VOICES as int);
    }
}

proof fn lemma_poly_off_keeps(e: EngineModel, note: u8, n: int)
    ensures
        e.poly_off(note, n) == (EngineModel {
            voices: e.poly_off(note, n).voices,
            orders: e.poly_off(note, n).orders,
            ..e
        }),
    decreases n,
{
    if n > 0 {
        lemma_poly_off_keeps(e, note, n - 1);
    }
}

/// Stopping the transport stops the clock and leaves no sequencer holding a note:
/// the melody's is ended, the bass is cut.
pub proof fn law_a_stopped_transport_holds_nothing(d: Desk, p: Params)
    requires
        d.engine.wf(),
    ensures
        ({
            let e = d.applied(Event::ClockStop, p).engine;
            &&& !e.clock.running
            &&& e.melody.sounding is None
            &&& e.melody.pending is None
            &&& e.bass.sounding is None
            &&& e.bass.pending is None
            &&& e.orders.last() == Order::SilenceBass
        }),
        !d.applied(Event::ClockStop, p).wire.playing,
{
    reveal(Desk::applied);
    let e = d.engine;
    let stopped = EngineModel {
        clock: crate::clock::Clock { running: false, ..e.clock },
        melody: crate::sequencer::SeqModel { pending: None, sounding: None, ..e.melody },
        ..e
    };
    if let Some(n) = e.melody.sounding {
        lemma_noted_off_keeps(stopped, n, p);
    }
}

// --- Transport and requests ---

/// Once a block has begun, the clock runs exactly if the shared flag says so. A
/// start or stop that came as an event has set the flag, so it is not undone.
pub proof fn law_the_flag_and_the_clock_agree(d: Desk, p: Params)
    requires
        d.engine.wf(),
    ensures
        d.transport_followed(p).engine.clock.running == d.transport_followed(p).wire.playing,
        d.applied(Event::ClockStart, p).transport_followed(p) == d.applied(Event::ClockStart, p),
        d.applied(Event::ClockContinue, p).transport_followed(p) == d.applied(
            Event::ClockContinue,
            p,
        ),
        d.applied(Event::ClockStop, p).transport_followed(p) == d.applied(Event::ClockStop, p),
{
    law_a_stopped_transport_holds_nothing(d, p);
    lemma_a_running_transport(d, p);
    lemma_halted(d.engine, p);
    lemma_already_followed(d.applied(Event::ClockStart, p), p);
    lemma_already_followed(d.applied(Event::ClockContinue, p), p);
    lemma_already_followed(d.applied(Event::ClockStop, p), p);
}

proof fn lemma_halted(e: EngineModel, p: Params)
    requires
        e.wf(),
    ensures
        !e.halted(p).clock.running,
{
    let stopped = EngineModel {
        clock: crate::clock::Clock { running: false, ..e.clock },
        melody: crate::sequencer::SeqModel { pending: None, sounding: None, ..e.melody },
        ..e
    };
    if let Some(n) = e.melody.sounding {
        lemma_noted_off_keeps(stopped, n, p);
    }
}

proof fn lemma_a_running_transport(d: Desk, p: Params)
    ensures
        d.applied(Event::ClockStart, p).engine.clock.running,
        d.applied(Event::ClockStart, p).wire.playing,
        d.applied(Event::ClockContinue, p).engine.clock.running,
        d.applied(Event::ClockContinue, p).wire.playing,
{
    reveal(Desk::applied);
}

proof fn lemma_already_followed(d: Desk, p: Params)
    requires
        d.wire.playing == d.engine.clock.running,
    ensures
        d.transport_followed(p) == d,
{
}

/// Every request by counter is obeyed once: doing so again changes nothing.
pub proof fn law_a_request_is_obeyed_once(d: Desk, p: Params)
    ensures
        d.requests_obeyed(p).requests_obeyed(p) == d.requests_obeyed(p),
        d.requests_obeyed(p).engine.last_regenerate == d.wire.gen_regenerate,
        d.requests_obeyed(p).engine.last_bass_regenerate == d.wire.bass_regenerate,
        d.requests_obeyed(p).engine.last_pattern_request == d.wire.pending_request,
        d.requests_obeyed(p).wire.gen_regenerate == d.wire.gen_regenerate,
{
}

/// A melody that is muted still steps: what the sequencer does and what is
/// published do not depend on the switch, but nothing reaches a voice.
pub proof fn law_a_muted_melody_still_steps(
    d: Desk,
    frames: int,
    adv: Advance,
    clock: ClockView,
    p: Params,
    muted: Params,
)
    requires
        SeqSettings::of_melody(p) == SeqSettings::of_melody(muted),
        !muted.melody_enabled,
        d.engine.wf(),
    ensures
        d.melody_advanced(frames, adv, clock, p).engine.melody == d.melody_advanced(
            frames,
            adv,
            clock,
            muted,
        ).engine.melody,
        d.melody_advanced(frames, adv, clock, p).wire == d.melody_advanced(
            frames,
            adv,
            clock,
            muted,
        ).wire,
        d.melody_advanced(frames, adv, clock, muted).engine.voices == d.engine.voices,
        d.melody_advanced(frames, adv, clock, muted).engine.orders == d.engine.orders,
{
    reveal(Desk::melody_advanced);
    let e = d.engine;
    let (moved, out) = e.melody.advanced(frames, adv, clock, SeqSettings::of_melody(p));
    let m = EngineModel {
        melody: crate::sequencer::SeqModel { pattern_changed: false, ..moved },
        ..e
    };
    lemma_played_keeps_the_sequencers(m, out, p);
}

proof fn lemma_played_keeps_the_sequencers(
    e: EngineModel,
    out: crate::sequencer::SeqOutput,
    p: Params,
)
    ensures
        e.melody_played(out, p) == (EngineModel {
            voices: e.melody_played(out, p).voices,
            age: e.melody_played(out, p).age,
            orders: e.melody_played(out, p).orders,
            ..e
        }),
{
    if p.melody_enabled {
        if let Some(n) = out.note_off {
            if p.voice_mode == VoiceMode::Poly {
                lemma_poly_off_keeps(e, n, MAX_VOICES as int);
            }
        }
    }
}

/// A pattern that has just landed is what the mirror shows, under its own length.
pub proof fn law_a_loaded_pattern_reaches_the_mirror(
    d: Desk,
    frames: int,
    adv: Advance,
    clock: ClockView,
    p: Params,
)
    requires
        d.engine.melody.advanced(frames, adv, clock, SeqSettings::of_melody(p)).0.pattern_changed,
    ensures
        ({
            let after = d.melody_advanced(frames, adv, clock, p);
            let m = after.engine.melody;
            &&& after.wire.seq_length == m.length as u32
            &&& after.wire.pattern_len == m.length as u32
            &&& forall|i: int|
                0 <= i < m.length && i < crate::sequencer::MAX_STEPS ==> #[trigger] after.wire.pattern[i]
                    == crate::params::packed_step(m.pattern[i]) as u32
        }),
{
    reveal(Desk::melody_advanced);
    let e = d.engine;
    let (moved, out) = e.melody.advanced(frames, adv, clock, SeqSettings::of_melody(p));
    let m = EngineModel {
        melody: crate::sequencer::SeqModel { pattern_changed: false, ..moved },
        ..e
    };
    lemma_played_keeps_the_sequencers(m, out, p);
}

// --- The event budget ---

/// How many events wait in the first `n` sources.
pub open spec fn backlog(waiting: Seq<Seq<Event>>, n: int) -> int
    decreases n,
{
    if n <= 0 {
        0
    } else {
        backlog(waiting, n - 1) + waiting[n - 1].len()
    }
}

proof fn lemma_backlog_update(w: Seq<Seq<Event>>, c: int, s: Seq<Event>, n: int)
    requires
        0 <= c < w.len(),
        0 <= n <= w.len(),
    ensures
        backlog(w.update(c, s), n) == backlog(w, n) + if c < n {
            s.len() - w[c].len()
        } else {
            0
        },
    decreases n,
{
    if n > 0 {
        lemma_backlog_update(w, c, s, n - 1);
    }
}

proof fn lemma_backlog_empty(w: Seq<Seq<Event>>, n: int)
    requires
        0 <= n <= w.len(),
        forall|i: int| 0 <= i < w.len() ==> (#[trigger] w[i]).len() == 0,
    ensures
        backlog(w, n) == 0,
    decreases n,
{
    if n > 0 {
        lemma_backlog_empty(w, n - 1);
    }
}

proof fn lemma_next_source(w: Seq<Seq<Event>>, i: int)
    requires
        0 <= i,
    ensures
        engine::next_source(w, i) matches Some(c) ==> {
            &&& i <= c < w.len()
            &&& w[c].len() > 0
            &&& forall|j: int| i <= j < c ==> (#[trigger] w[j]).len() == 0
        },
        engine::next_source(w, i) is None ==> forall|j: int|
            i <= j < w.len() ==> (#[trigger] w[j]).len() == 0,
    decreases if i < w.len() { w.len() - i } else { 0 },
{
    if i < w.len() {
        lemma_next_source(w, i + 1);
    }
}

/// Whether `left` is what is left of each source once events have been taken from
/// its front.
pub open spec fn taken_from_the_front(w: Seq<Seq<Event>>, left: Seq<Seq<Event>>) -> bool {
    &&& left.len() == w.len()
    &&& forall|i: int|
        0 <= i < w.len() ==> (#[trigger] left[i]).len() <= w[i].len() && left[i] == w[i].skip(
            w[i].len() - left[i].len(),
        )
}

proof fn lemma_drained(d: Desk, w: Seq<Seq<Event>>, cursor: int, budget: nat, p: Params)
    requires
        0 <= cursor,
        forall|j: int| 0 <= j < cursor && j < w.len() ==> (#[trigger] w[j]).len() == 0,
    ensures
        ({
            let left = d.drained(w, cursor, budget, p).1;
            let all = backlog(w, w.len() as int);
            &&& taken_from_the_front(w, left)
            &&& backlog(left, w.len() as int) == if all <= budget {
                0
            } else {
                all - budget
            }
        }),
    decreases budget,
{
    lemma_next_source(w, cursor);
    if budget == 0 {
        assert(taken_from_the_front(w, w)) by {
            assert forall|i: int| 0 <= i < w.len() implies (#[trigger] w[i]) == w[i].skip(0) by {
                assert(w[i] =~= w[i].skip(0));
            }
        }
        lemma_backlog_nonneg(w, w.len() as int);
    } else {
        match engine::next_source(w, cursor) {
            None => {
                lemma_backlog_empty(w, w.len() as int);
                assert forall|i: int| 0 <= i < w.len() implies (#[trigger] w[i]) == w[i].skip(0) by {
                    assert(w[i] =~= w[i].skip(0));
                }
            },
            Some(c) => {
                let rest = w.update(c, w[c].drop_first());
                lemma_drained(d.applied(w[c][0], p), rest, c, (budget - 1) as nat, p);
                lemma_backlog_update(w, c, w[c].drop_first(), w.len() as int);
                let left = d.drained(w, cursor, budget, p).1;
                assert forall|i: int| 0 <= i < w.len() implies (#[trigger] left[i]).len()
                    <= w[i].len() && left[i] == w[i].skip(w[i].len() - left[i].len()) by {
                    if i == c {
                        assert(rest[c] == w[c].drop_first());
                        assert(left[i] =~= w[i].skip(w[i].len() - left[i].len()));
                    } else {
                        assert(rest[i] == w[i]);
                    }
                }
                lemma_backlog_some(w, c, w.len() as int);
            },
        }
    }
}

proof fn lemma_backlog_nonneg(w: Seq<Seq<Event>>, n: int)
    ensures
        backlog(w, n) >= 0,
    decreases n,
{
    if n > 0 {
        lemma_backlog_nonneg(w, n - 1);
    }
}

proof fn lemma_backlog_some(w: Seq<Seq<Event>>, c: int, n: int)
    requires
        0 <= c < n <= w.len(),
    ensures
        backlog(w, n) >= w[c].len(),
    decreases n,
{
    lemma_backlog_nonneg(w, n - 1);
    if c < n - 1 {
        lemma_backlog_some(w, c, n - 1);
    }
}

/// A block handles no more than its budget of events, whatever is queued, and as
/// many as there are within it. Each source gives its oldest events up first;
/// none is lost, and none is taken twice.
pub proof fn law_a_flood_does_not_stall_the_callback(d: Desk, waiting: Seq<Seq<Event>>, p: Params)
    ensures
        ({
            let left = d.drained(waiting, 0, EVENT_BUDGET as nat, p).1;
            let all = backlog(waiting, waiting.len() as int);
            &&& taken_from_the_front(waiting, left)
            &&& backlog(left, waiting.len() as int) == if all <= EVENT_BUDGET {
                0
            } else {
                all - EVENT_BUDGET
            }
        }),
{
    lemma_drained(d, waiting, 0, EVENT_BUDGET as nat, p);
}

/// A change of voice mode cuts what was sounding before the new events play: with
/// no event waiting and no request made, nothing sounds.
pub proof fn law_a_mode_switch_leaves_no_stale_voice(d: Desk, p: Params)
    requires
        d.engine.wf(),
        p.voice_mode != d.engine.last_voice_mode,
        p.melody_enabled == d.engine.last_melody_enabled,
        d.wire.playing == d.engine.clock.running,
    ensures
        forall|i: int|
            0 <= i < MAX_VOICES ==> !(#[trigger] d.block_begun(Seq::empty(), p).engine.voices[i]).active(),
        d.block_begun(Seq::empty(), p).engine.last_voice_mode == p.voice_mode,
{
    reveal(Desk::block_begun);
    law_panic_silences_everything(d.engine);
    lemma_all_voices(EngineModel { held: Seq::empty(), ..d.engine }, true, MAX_VOICES as int);
    let b = EngineModel { last_voice_mode: p.voice_mode, ..d.engine.silenced(true) };
    let start = d.with(b);
    assert(engine::next_source(Seq::<Seq<Event>>::empty(), 0) is None);
    assert(start.drained(Seq::empty(), 0, EVENT_BUDGET as nat, p).0 == start);
    assert(start.requests_obeyed(p).engine.voices == b.voices);
    assert(start.requests_obeyed(p).engine.clock.running == d.engine.clock.running);
}

// --- Keeping together ---

/// Two lines of one length that start together stay on one step, whatever drives
/// them: a chunk of either clock moves both, and so does a tick of the external
/// one. What each of them plays, and whether it is muted, does not matter.
pub proof fn law_the_lines_stay_together(d: Desk, frames: int, p: Params)
    requires
        sequencer::in_step(d.engine.melody, d.engine.bass),
        SeqSettings::of_melody(p).requested() == SeqSettings::of_bass(p).requested(),
    ensures
        sequencer::in_step(
            d.sequenced(frames, p).engine.melody,
            d.sequenced(frames, p).engine.bass,
        ),
        sequencer::in_step(d.engine.clock_ticked(p).melody, d.engine.clock_ticked(p).bass),
{
    lemma_a_chunk_moves_the_lines_together(d, frames, p);
    lemma_a_tick_moves_the_lines_together(d, p);
}

proof fn lemma_a_chunk_moves_the_lines_together(d: Desk, frames: int, p: Params)
    requires
        sequencer::in_step(d.engine.melody, d.engine.bass),
        SeqSettings::of_melody(p).requested() == SeqSettings::of_bass(p).requested(),
    ensures
        sequencer::in_step(
            d.sequenced(frames, p).engine.melody,
            d.sequenced(frames, p).engine.bass,
        ),
{
    reveal(Desk::melody_advanced);
    reveal(Desk::bass_advanced);
    reveal(Desk::drums_advanced);
    let (moved, adv) = d.tuned(p).advanced(frames, p.clock_source);
    let view = moved.seen();
    let a = d.with(EngineModel { clock: moved, ..d.engine });
    let b = a.melody_advanced(frames, adv, view, p);
    let (melody, out) = a.engine.melody.advanced(frames, adv, view, SeqSettings::of_melody(p));
    lemma_played_keeps_the_sequencers(
        EngineModel {
            melody: sequencer::SeqModel { pattern_changed: false, ..melody },
            ..a.engine
        },
        out,
        p,
    );
    assert(b.engine.bass == d.engine.bass);
    sequencer::law_lines_advance_together(
        d.engine.melody,
        d.engine.bass,
        frames,
        adv,
        view,
        SeqSettings::of_melody(p),
        SeqSettings::of_bass(p),
    );
    let c = b.bass_advanced(frames, adv, view, p);
    assert(c.engine.melody == b.engine.melody);
    assert(sequencer::in_step(c.engine.melody, c.engine.bass));
    let e = c.drums_advanced(frames, adv, view, p);
    assert(e.engine.melody == c.engine.melody && e.engine.bass == c.engine.bass);
    assert(e == d.sequenced(frames, p));
}

proof fn lemma_a_tick_moves_the_lines_together(d: Desk, p: Params)
    requires
        sequencer::in_step(d.engine.melody, d.engine.bass),
    ensures
        sequencer::in_step(d.engine.clock_ticked(p).melody, d.engine.clock_ticked(p).bass),
{
    reveal(EngineModel::melody_ticked);
    reveal(EngineModel::bass_ticked);
    reveal(EngineModel::drums_ticked);
    let e = d.engine;
    let (s, t) = (SeqSettings::of_melody(p), SeqSettings::of_bass(p));
    let nothing = SeqOutput::nothing();
    let (ticked, clock) = (e.tick_steps(p), e.tick_clock(p));
    let view = clock.seen();
    sequencer::law_lines_step_together(e.melody, e.bass, s, t, view, nothing, nothing);
    let (melody, out) = engine::tick_line(e.melody, ticked, s, view);
    lemma_played_keeps_the_sequencers(EngineModel { clock, melody, ..e }, out, p);
    let sung = EngineModel { clock, ..e }.melody_ticked(ticked, view, p);
    assert(sung.melody == melody && sung.bass == e.bass);
    let played = sung.bass_ticked(ticked, view, p);
    assert(played.melody == melody);
    assert(played.bass == engine::tick_line(e.bass, ticked, t, view).0);
}

/// A start puts melody, bass and drums before their first step together, so that two
/// lines of one length are on one step from there on.
pub proof fn law_a_start_aligns_every_line(d: Desk, p: Params)
    ensures
        ({
            let e = d.applied(Event::ClockStart, p).engine;
            &&& e.melody.position is None
            &&& e.bass.position is None
            &&& e.drums.drums.position is None
            &&& d.engine.melody.length == d.engine.bass.length && d.engine.melody.last_length
                == d.engine.bass.last_length && d.engine.melody.queued is None
                && d.engine.bass.queued is None ==> sequencer::in_step(e.melody, e.bass)
        }),
{
    reveal(Desk::applied);
}

// --- Room ---

/// A key let go gives one order for each voice at most.
proof fn lemma_orders_to_let_go(e: EngineModel, note: u8, n: int)
    requires
        0 <= n,
    ensures
        e.poly_off(note, n).orders.len() <= e.orders.len() + n,
    decreases n,
{
    if n > 0 {
        lemma_orders_to_let_go(e, note, n - 1);
    }
}

/// Letting every voice go, or cutting it, gives one order for each.
proof fn lemma_orders_to_all(e: EngineModel, hard: bool, n: int)
    requires
        0 <= n,
    ensures
        e.all_voices(hard, n).orders.len() == e.orders.len() + n,
    decreases n,
{
    if n > 0 {
        lemma_orders_to_all(e, hard, n - 1);
    }
}

/// A note ended gives one order for each voice at most.
proof fn lemma_orders_to_end(e: EngineModel, note: Option<u8>, p: Params)
    ensures
        e.maybe_off(note, p).orders.len() <= e.orders.len() + MAX_VOICES,
{
    if let Some(n) = note {
        lemma_orders_to_let_go(e, n, MAX_VOICES as int);
    }
}

/// A note started gives one order at most.
proof fn lemma_orders_to_start(e: EngineModel, note: u8, velocity: Single, p: Params)
    ensures
        e.noted_on(note, velocity, p).orders.len() <= e.orders.len() + 1,
{
}

/// Silence gives one order for each voice, and, if it is a hard one, for each pad and the
/// bass.
proof fn lemma_orders_to_silence(e: EngineModel, hard: bool)
    ensures
        e.silenced(hard).orders.len() <= e.orders.len() + MAX_VOICES + PAD_COUNT + 1,
        !hard ==> e.silenced(hard).orders.len() <= e.orders.len() + MAX_VOICES,
{
    lemma_orders_to_all(
        EngineModel { held: Seq::empty(), ..e },
        hard,
        MAX_VOICES as int,
    );
}

/// A stopped transport gives as many orders as hard silence at most.
proof fn lemma_orders_to_halt(e: EngineModel, p: Params)
    ensures
        e.halted(p).orders.len() <= e.orders.len() + MAX_VOICES + PAD_COUNT + 1,
{
    let stopped = EngineModel {
        clock: crate::clock::Clock { running: false, ..e.clock },
        melody: sequencer::SeqModel { pending: None, sounding: None, ..e.melody },
        ..e
    };
    lemma_orders_to_end(stopped, e.melody.sounding, p);
}

/// A step of the melody ends a note and starts one at most.
proof fn lemma_orders_of_a_melody(e: EngineModel, out: SeqOutput, p: Params)
    ensures
        e.melody_played(out, p).orders.len() <= e.orders.len() + MAX_VOICES + 1,
{
    lemma_orders_to_end(e, out.note_off, p);
    if let Some(n) = out.note_on {
        lemma_orders_to_start(e.maybe_off(out.note_off, p), n.0, n.1, p);
    }
}

/// So does one of the bass line.
proof fn lemma_orders_of_a_bass_line(e: EngineModel, out: SeqOutput, p: Params)
    ensures
        e.bass_played(out, p).orders.len() <= e.orders.len() + 2,
{
}

/// A tick moves the melody, the bass line and the drums on by one step at most.
proof fn lemma_orders_of_a_tick(e: EngineModel, p: Params)
    ensures
        e.clock_ticked(p).orders.len() <= e.orders.len() + EVENT_ORDERS,
{
    let ticked = e.tick_steps(p);
    let clock = e.tick_clock(p);
    let view = clock.seen();
    let a = EngineModel { clock, ..e };
    let b = a.melody_ticked(ticked, view, p);
    let c = b.bass_ticked(ticked, view, p);
    assert(b.orders.len() <= a.orders.len() + MAX_VOICES + 1) by {
        reveal(EngineModel::melody_ticked);
        let (melody, out) = engine::tick_line(a.melody, ticked, SeqSettings::of_melody(p), view);
        lemma_orders_of_a_melody(EngineModel { melody, ..a }, out, p);
    }
    assert(c.orders.len() <= b.orders.len() + 2) by {
        reveal(EngineModel::bass_ticked);
        let (bass, out) = engine::tick_line(b.bass, ticked, SeqSettings::of_bass(p), view);
        lemma_orders_of_a_bass_line(EngineModel { bass, ..b }, out, p);
    }
    assert(c.drums_ticked(ticked, view, p).orders.len() <= c.orders.len() + 10) by {
        reveal(EngineModel::drums_ticked);
        let (drums, out) = c.drums.drums.ticked(ticked, view, p.drum_length as int, p.seq_swing);
        rack::law_hits_give_few_orders(c.drums.struck, p, out.hits, PAD_COUNT as int);
    }
}

/// No event gives more orders than that.
pub proof fn law_an_event_gives_few_orders(d: Desk, event: Event, p: Params)
    ensures
        d.applied(event, p).engine.orders.len() <= d.engine.orders.len() + EVENT_ORDERS,
{
    reveal(Desk::applied);
    let e = d.engine;
    match event {
        Event::NoteOn { note, velocity } => {
            lemma_orders_to_start(e.remembered(note), note, velocity, p);
        },
        Event::NoteOff { note } => {
            lemma_orders_to_end(e.forgotten(note), Some(note), p);
        },
        Event::AllNotesOff => {
            lemma_orders_to_silence(e, false);
        },
        Event::Panic => {
            lemma_orders_to_silence(e, true);
        },
        Event::ClockTick => {
            lemma_orders_of_a_tick(e, p);
        },
        Event::ClockStop => {
            lemma_orders_to_halt(e, p);
        },
        _ => {},
    }
}

/// So many events give so many times the orders of one at most.
proof fn lemma_orders_of_events(
    d: Desk,
    waiting: Seq<Seq<Event>>,
    cursor: int,
    budget: nat,
    p: Params,
)
    ensures
        d.drained(waiting, cursor, budget, p).0.engine.orders.len() <= d.engine.orders.len()
            + EVENT_ORDERS * budget,
    decreases budget,
{
    if budget > 0 {
        if let Some(c) = engine::next_source(waiting, cursor) {
            law_an_event_gives_few_orders(d, waiting[c][0], p);
            lemma_orders_of_events(
                d.applied(waiting[c][0], p),
                waiting.update(c, waiting[c].drop_first()),
                c,
                (budget - 1) as nat,
                p,
            );
        }
    }
}

/// No chunk gives more orders than an event.
pub proof fn law_a_chunk_gives_few_orders(d: Desk, frames: int, p: Params)
    ensures
        d.sequenced(frames, p).engine.orders.len() <= d.engine.orders.len() + EVENT_ORDERS,
{
    let (moved, adv) = d.tuned(p).advanced(frames, p.clock_source);
    let view = moved.seen();
    let a = d.with(EngineModel { clock: moved, ..d.engine });
    let b = a.melody_advanced(frames, adv, view, p);
    let c = b.bass_advanced(frames, adv, view, p);
    assert(b.engine.orders.len() <= a.engine.orders.len() + MAX_VOICES + 1) by {
        reveal(Desk::melody_advanced);
        let (m, out) = a.engine.melody.advanced(frames, adv, view, SeqSettings::of_melody(p));
        let melody = sequencer::SeqModel { pattern_changed: false, ..m };
        lemma_orders_of_a_melody(EngineModel { melody, ..a.engine }, out, p);
    }
    assert(c.engine.orders.len() <= b.engine.orders.len() + 2) by {
        reveal(Desk::bass_advanced);
        let (m, out) = b.engine.bass.advanced(frames, adv, view, SeqSettings::of_bass(p));
        let bass = sequencer::SeqModel { pattern_changed: false, ..m };
        lemma_orders_of_a_bass_line(EngineModel { bass, ..b.engine }, out, p);
    }
    let e = c.drums_advanced(frames, adv, view, p);
    assert(e.engine.orders.len() <= c.engine.orders.len() + 10) by {
        reveal(Desk::drums_advanced);
        let r = c.engine.drums;
        let n = if frames <= crate::clock::BLOCK {
            frames
        } else {
            crate::clock::BLOCK as int
        };
        let (drums, out) = r.drums.advanced(n, adv, view, p.drum_length as int, p.seq_swing);
        rack::law_hits_give_few_orders(r.struck, p, out.hits, PAD_COUNT as int);
    }
}

/// The engine has room for every order that a callback gives at its start, however its
/// events come, and for every order of a chunk.
pub proof fn law_the_orders_of_a_callback_fit(
    d: Desk,
    waiting: Seq<Seq<Event>>,
    frames: int,
    p: Params,
)
    requires
        d.engine.orders.len() == 0,
    ensures
        d.block_begun(waiting, p).engine.orders.len() <= MAX_ORDERS,
        d.sequenced(frames, p).engine.orders.len() <= MAX_ORDERS,
{
    let e = d.engine;
    let a = d.switched(p);
    assert(a.engine.orders.len() <= 2 * MAX_VOICES + PAD_COUNT + 1) by {
        lemma_orders_to_silence(e, true);
        let b = if p.voice_mode != e.last_voice_mode {
            EngineModel { last_voice_mode: p.voice_mode, ..e.silenced(true) }
        } else {
            e
        };
        lemma_orders_to_silence(b, false);
    }
    lemma_orders_of_events(a, waiting, 0, EVENT_BUDGET as nat, p);
    let c = a.drained(waiting, 0, EVENT_BUDGET as nat, p).0.requests_obeyed(p);
    lemma_orders_to_halt(c.engine, p);
    assert(d.block_begun(waiting, p) == c.transport_followed(p)) by {
        reveal(Desk::block_begun);
    }
    law_a_chunk_gives_few_orders(d, frames, p);
}

} // verus!
