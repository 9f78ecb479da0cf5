use synth_core::event::{Event, EventQueue, Ring};
use synth_core::Single;

fn s(x: f32) -> Single {
    Single::from_bits(x.to_bits())
}

#[test]
fn events_come_out_in_order() {
    let mut q = EventQueue::new(16);
    for i in 0..10u8 {
        assert!(q.push(Event::NoteOn {
            note: i,
            velocity: s(1.0)
        }));
    }
    for i in 0..10u8 {
        assert_eq!(
            q.pop(),
            Some(Event::NoteOn {
                note: i,
                velocity: s(1.0)
            })
        );
    }
    assert_eq!(q.pop(), None);
}

#[test]
fn a_full_queue_drops_rather_than_blocking() {
    let mut q = EventQueue::new(4);
    // Capacity 4, one slot reserved: 3 usable.
    assert!(q.push(Event::ClockTick));
    assert!(q.push(Event::ClockTick));
    assert!(q.push(Event::ClockTick));
    assert!(!q.push(Event::ClockTick), "should have reported full");

    // Draining one makes room again.
    assert!(q.pop().is_some());
    assert!(q.push(Event::ClockTick));
}

#[test]
fn wraps_around_indefinitely() {
    let mut q = EventQueue::new(8);
    for i in 0..10_000u32 {
        assert!(q.push(Event::PitchBend(s(i as f32))));
        assert_eq!(q.pop(), Some(Event::PitchBend(s(i as f32))));
    }
}

#[test]
fn a_queue_knows_its_length() {
    let mut q = EventQueue::new(8);
    assert!(q.is_empty());
    q.push(Event::ClockStart);
    q.push(Event::ClockStop);
    assert_eq!(q.len(), 2);
    assert!(!q.is_empty());
    q.pop();
    assert_eq!(q.len(), 1);
}

#[test]
fn the_two_sides_of_a_ring_never_touch_the_same_slot() {
    let ring = Ring::new(4);
    // The counters wrap round like any other word.
    for start in [0u64, 7, u64::MAX - 2] {
        assert_eq!(ring.read_slot(start, start), None);
        for ahead in 1..4u64 {
            let head = start.wrapping_add(ahead);
            let read = ring.read_slot(head, start).unwrap();
            match ring.write_slot(head, start) {
                Some(write) => assert_ne!(read, write),
                None => assert_eq!(ahead, 3),
            }
        }
    }
}
