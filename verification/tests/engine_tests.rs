use vibewig::bridge::ControlBridge;
use vibewig::engine::Sequencer;
use vibewig::engine::TransportSnapshot;
use vibewig::pattern::Command;
use vibewig::pattern::Note;
use vibewig::pattern::NoteEvent;

fn note(pitch: u8, duration_microbeats: u64, velocity: u8) -> Note {
    Note { pitch, duration_microbeats, velocity }
}

fn transport(playing: bool, position_microbeats: u64) -> TransportSnapshot {
    TransportSnapshot {
        playing,
        tempo_microbpm: 120_000_000,
        time_sig_num: 4,
        time_sig_denom: 4,
        position_microbeats,
    }
}

fn on(pitch: u8, velocity: u8) -> NoteEvent {
    NoteEvent::NoteOn { pitch, velocity }
}

fn off(pitch: u8) -> NoteEvent {
    NoteEvent::NoteOff { pitch }
}

#[test]
fn two_note_loop_cycles() {
    // Pattern [(60, 0.5, 100), (64, 0.5, 100)] starting at beat 0 while
    // playing: note-on 60, then off 60 / on 64 at 0.5, then the loop
    // wraps at 1.0 with off 64 / on 60.
    let mut seq = Sequencer::new();
    let mut bridge = ControlBridge::new(64);
    assert!(bridge.try_enqueue(Command::SetPattern(vec![
        note(60, 500_000, 100),
        note(64, 500_000, 100),
    ])));
    let events = seq.run_cycle(&mut bridge, &transport(true, 0));
    assert_eq!(events, vec![on(60, 100)]);
    let events = seq.run_cycle(&mut bridge, &transport(true, 500_000));
    assert_eq!(events, vec![off(60), on(64, 100)]);
    let events = seq.run_cycle(&mut bridge, &transport(true, 1_000_000));
    assert_eq!(events, vec![off(64), on(60, 100)]);
    let events = seq.run_cycle(&mut bridge, &transport(true, 1_200_000));
    assert_eq!(events, vec![]);
}

#[test]
fn clear_while_sounding_emits_note_off() {
    let mut seq = Sequencer::new();
    let mut bridge = ControlBridge::new(64);
    assert!(bridge.try_enqueue(Command::SetPattern(vec![note(72, 1_000_000, 90)])));
    let events = seq.run_cycle(&mut bridge, &transport(true, 0));
    assert_eq!(events, vec![on(72, 90)]);
    // The note is sounding; a Clear in the next cycle must emit its
    // note-off before the pattern becomes empty.
    assert!(bridge.try_enqueue(Command::Clear));
    let events = seq.run_cycle(&mut bridge, &transport(true, 100_000));
    assert_eq!(events[0], off(72));
    assert_eq!(events, vec![off(72)]);
    assert_eq!(seq.store.notes.len(), 0);
}

#[test]
fn replace_while_sounding_emits_note_off_first() {
    let mut seq = Sequencer::new();
    let mut bridge = ControlBridge::new(64);
    assert!(bridge.try_enqueue(Command::SetPattern(vec![note(40, 2_000_000, 80)])));
    let events = seq.run_cycle(&mut bridge, &transport(true, 0));
    assert_eq!(events, vec![on(40, 80)]);
    assert!(bridge.try_enqueue(Command::SetPattern(vec![note(41, 1_000_000, 81)])));
    let events = seq.run_cycle(&mut bridge, &transport(true, 100_000));
    // Owed note-off first, then the new pattern's first note starts
    // (its segment begins at 0, already passed).
    assert_eq!(events, vec![off(40), on(41, 81)]);
}

#[test]
fn stop_emits_note_off_iff_sounding() {
    let mut seq = Sequencer::new();
    let mut bridge = ControlBridge::new(64);
    assert!(bridge.try_enqueue(Command::SetPattern(vec![note(55, 1_000_000, 70)])));
    let events = seq.run_cycle(&mut bridge, &transport(true, 0));
    assert_eq!(events, vec![on(55, 70)]);
    // playing -> stopped with a note sounding: exactly its note-off.
    let events = seq.run_cycle(&mut bridge, &transport(false, 200_000));
    assert_eq!(events, vec![off(55)]);
    // stopped again, nothing sounding: no events.
    let events = seq.run_cycle(&mut bridge, &transport(false, 200_000));
    assert_eq!(events, vec![]);
}

#[test]
fn resume_resets_cursor_and_aligns_segment() {
    let mut seq = Sequencer::new();
    let mut bridge = ControlBridge::new(64);
    assert!(bridge.try_enqueue(Command::SetPattern(vec![
        note(60, 500_000, 100),
        note(64, 500_000, 100),
    ])));
    let _ = seq.run_cycle(&mut bridge, &transport(true, 0));
    let _ = seq.run_cycle(&mut bridge, &transport(true, 500_000));
    let _ = seq.run_cycle(&mut bridge, &transport(false, 700_000));
    // Resuming at beat 3.25: cursor back to the first note, segment
    // aligned to the resume position, first note starts at once.
    let events = seq.run_cycle(&mut bridge, &transport(true, 3_250_000));
    assert_eq!(events, vec![on(60, 100)]);
    assert_eq!(seq.store.current_index, 0);
    assert_eq!(seq.store.segment_start_microbeat, 3_250_000);
}

#[test]
fn empty_pattern_emits_nothing() {
    let mut seq = Sequencer::new();
    let mut bridge = ControlBridge::new(64);
    let events = seq.run_cycle(&mut bridge, &transport(true, 0));
    assert_eq!(events, vec![]);
    let events = seq.run_cycle(&mut bridge, &transport(false, 0));
    assert_eq!(events, vec![]);
}

#[test]
fn transport_jump_advances_one_segment_per_cycle() {
    let mut seq = Sequencer::new();
    let mut bridge = ControlBridge::new(64);
    assert!(bridge.try_enqueue(Command::SetPattern(vec![note(60, 1_000_000, 100)])));
    let events = seq.run_cycle(&mut bridge, &transport(true, 0));
    assert_eq!(events, vec![on(60, 100)]);
    // A seek far past several loop boundaries: the single-step policy
    // resolves one segment per cycle.
    let events = seq.run_cycle(&mut bridge, &transport(true, 5_000_000));
    assert_eq!(events, vec![off(60), on(60, 100)]);
    assert_eq!(seq.store.segment_start_microbeat, 1_000_000);
    let events = seq.run_cycle(&mut bridge, &transport(true, 5_000_000));
    assert_eq!(events, vec![off(60), on(60, 100)]);
    assert_eq!(seq.store.segment_start_microbeat, 2_000_000);
}

#[test]
fn bridge_drops_beyond_capacity() {
    // 65 commands into a bridge of capacity 64: 64 retained, one drop
    // recorded.
    let mut bridge = ControlBridge::new(64);
    for _ in 0..64 {
        assert!(bridge.try_enqueue(Command::Clear));
    }
    assert!(!bridge.try_enqueue(Command::Clear));
    assert_eq!(bridge.len(), 64);
    assert_eq!(bridge.dropped_count(), 1);
    let drained = bridge.drain_all();
    assert_eq!(drained.len(), 64);
    assert_eq!(bridge.len(), 0);
    assert_eq!(bridge.dropped_count(), 1);
    assert_eq!(bridge.capacity(), 64);
}

#[test]
fn bridge_keeps_arrival_order() {
    let mut bridge = ControlBridge::new(8);
    assert!(bridge.try_enqueue(Command::SetPattern(vec![note(1, 1, 1)])));
    assert!(bridge.try_enqueue(Command::Clear));
    let drained = bridge.drain_all();
    assert_eq!(
        drained,
        vec![Command::SetPattern(vec![note(1, 1, 1)]), Command::Clear]
    );
}

#[test]
fn zero_capacity_bridge_drops_everything() {
    let mut bridge = ControlBridge::new(0);
    assert!(!bridge.try_enqueue(Command::Clear));
    assert!(!bridge.try_enqueue(Command::Clear));
    assert_eq!(bridge.len(), 0);
    assert_eq!(bridge.dropped_count(), 2);
    assert_eq!(bridge.drain_all(), vec![]);
}

#[test]
fn commands_apply_in_arrival_order() {
    // A SetPattern followed by a Clear in the same cycle leaves the
    // pattern empty; the reverse order leaves the new pattern standing.
    let mut seq = Sequencer::new();
    let mut bridge = ControlBridge::new(64);
    assert!(bridge.try_enqueue(Command::SetPattern(vec![note(60, 500_000, 100)])));
    assert!(bridge.try_enqueue(Command::Clear));
    let events = seq.run_cycle(&mut bridge, &transport(true, 0));
    assert_eq!(events, vec![]);
    assert_eq!(seq.store.notes.len(), 0);

    assert!(bridge.try_enqueue(Command::Clear));
    assert!(bridge.try_enqueue(Command::SetPattern(vec![note(61, 500_000, 100)])));
    let events = seq.run_cycle(&mut bridge, &transport(true, 0));
    assert_eq!(events, vec![on(61, 100)]);
    assert_eq!(seq.store.notes.len(), 1);
}
