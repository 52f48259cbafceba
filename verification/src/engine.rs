//! The sequencer engine: the per-cycle state machine that reconciles the
//! host transport with the pattern store and produces the cycle's events.
//!
//! Policy for transport jumps: a cycle advances at most one segment, so a
//! seek that skips several segment boundaries is resolved one segment per
//! cycle rather than caught up within a single cycle.

use vstd::prelude::*;

use crate::bridge::ControlBridge;
use crate::pattern::spec_apply;
use crate::pattern::spec_pending_off;
use crate::pattern::Command;
use crate::pattern::NoteEvent;
use crate::pattern::PatternStore;
use crate::pattern::StoreView;

verus! {

/// What the host reports about its transport at the start of a cycle. The
/// engine reads it and never writes it. Beat positions and the tempo use
/// the crate's micro fixed point (millionths of a beat, millionths of one
/// beat per minute).
#[derive(Clone, Copy, Debug, PartialEq, Eq, Structural)]
pub struct TransportSnapshot {
    pub playing: bool,
    pub tempo_microbpm: u64,
    pub time_sig_num: u32,
    pub time_sig_denom: u32,
    pub position_microbeats: u64,
}

/// Saturating beat addition: a segment end past the representable range is
/// pinned at the maximum, where no transport position can pass it.
pub open spec fn spec_beat_add(a: u64, b: u64) -> u64 {
    if a + b > u64::MAX {
        u64::MAX
    } else {
        (a + b) as u64
    }
}

/// Exec counterpart of [`spec_beat_add`].
pub fn beat_add(a: u64, b: u64) -> (r: u64)
    ensures
        r == spec_beat_add(a, b),
{
    if a <= u64::MAX - b {
        a + b
    } else {
        u64::MAX
    }
}

/// A pending note-off as an event sequence: one event or none.
pub open spec fn spec_opt_event(off: Option<NoteEvent>) -> Seq<NoteEvent> {
    match off {
        Some(e) => seq![e],
        None => Seq::empty(),
    }
}

/// Applying a whole batch of commands in arrival order: the final store,
/// and the note-offs the commands owed, in the same order.
pub open spec fn spec_apply_all(s: StoreView, cmds: Seq<Command>) -> (StoreView, Seq<NoteEvent>)
    decreases cmds.len(),
{
    if cmds.len() == 0 {
        (s, Seq::empty())
    } else {
        let (s1, off) = spec_apply(s, cmds[0]);
        let (s2, evs) = spec_apply_all(s1, cmds.drop_first());
        (s2, spec_opt_event(off) + evs)
    }
}

/// The stopped-to-playing edge: when playback resumes, the cursor returns
/// to the first note and the first segment starts at the transport
/// position of that moment.
pub open spec fn spec_resync(s: StoreView, t: TransportSnapshot, last_playing: bool) -> StoreView {
    if t.playing && !last_playing {
        StoreView {
            current_index: 0,
            segment_start_microbeat: t.position_microbeats,
            note_is_sounding: false,
            ..s
        }
    } else {
        s
    }
}

/// The playing-state steps on a non-empty pattern: end the current segment
/// if the transport passed its end (note-off, advance one step around the
/// loop, chain the next segment to the old end), then start the current
/// note if its segment has begun and nothing is sounding.
pub open spec fn spec_advance(s: StoreView, t: TransportSnapshot) -> (StoreView, Seq<NoteEvent>)
    recommends
        s.wf(),
        s.notes.len() > 0,
{
    let end = spec_beat_add(
        s.segment_start_microbeat,
        s.notes[s.current_index as int].duration_microbeats,
    );
    let (s2, evs2) = if t.position_microbeats >= end {
        let next: usize = if s.current_index + 1 == s.notes.len() {
            0usize
        } else {
            (s.current_index + 1) as usize
        };
        (
            StoreView {
                current_index: next,
                segment_start_microbeat: end,
                note_is_sounding: false,
                ..s
            },
            spec_opt_event(spec_pending_off(s)),
        )
    } else {
        (s, Seq::empty())
    };
    if !s2.note_is_sounding && t.position_microbeats >= s2.segment_start_microbeat {
        let n = s2.notes[s2.current_index as int];
        (
            StoreView { note_is_sounding: true, sounding_pitch: n.pitch, ..s2 },
            evs2.push(NoteEvent::NoteOn { pitch: n.pitch, velocity: n.velocity }),
        )
    } else {
        (s2, evs2)
    }
}

/// One whole processing cycle: apply the drained commands, take the
/// stopped-to-playing edge, then either silence a sounding note (stopped),
/// do nothing (empty pattern), or run the segment steps. Returns the next
/// engine state and every event of the cycle, in emission order.
pub open spec fn spec_cycle(
    s: SequencerView,
    cmds: Seq<Command>,
    t: TransportSnapshot,
) -> (SequencerView, Seq<NoteEvent>) {
    let (st0, offs) = spec_apply_all(s.store, cmds);
    let st1 = spec_resync(st0, t, s.last_playing);
    if !t.playing {
        (
            SequencerView {
                store: StoreView { note_is_sounding: false, ..st1 },
                last_playing: false,
            },
            offs + spec_opt_event(spec_pending_off(st1)),
        )
    } else if st1.notes.len() == 0 {
        (SequencerView { store: st1, last_playing: true }, offs)
    } else {
        let (st2, evs2) = spec_advance(st1, t);
        (SequencerView { store: st2, last_playing: true }, offs + evs2)
    }
}

/// The mathematical model of the engine: the store model plus the
/// remembered play state of the previous cycle.
#[verifier::ext_equal]
pub struct SequencerView {
    pub store: StoreView,
    pub last_playing: bool,
}

impl SequencerView {
    pub open spec fn wf(self) -> bool {
        self.store.wf()
    }

    /// The engine invariant: well-formed, and while stopped no note is
    /// tracked as sounding (a stopped cycle always silences it). A fresh
    /// engine satisfies it and every cycle preserves it.
    pub open spec fn inv(self) -> bool {
        self.wf() && (!self.last_playing ==> !self.store.note_is_sounding)
    }
}

/// The sequencer engine instance: the pattern store it owns exclusively,
/// and the previous cycle's play state for edge detection.
#[derive(Debug)]
pub struct Sequencer {
    pub store: PatternStore,
    pub last_playing: bool,
}

impl View for Sequencer {
    type V = SequencerView;

    open spec fn view(&self) -> SequencerView {
        SequencerView { store: self.store@, last_playing: self.last_playing }
    }
}

impl Sequencer {
    /// A fresh engine: empty pattern, inert cursor, not playing.
    pub fn new() -> (s: Sequencer)
        ensures
            s@.store.notes.len() == 0,
            s@.store.current_index == 0,
            s@.store.segment_start_microbeat == 0,
            !s@.store.note_is_sounding,
            !s@.last_playing,
            s@.wf(),
            s@.inv(),
    {
        Sequencer { store: PatternStore::new(), last_playing: false }
    }

    /// One processing cycle, exactly [`spec_cycle`]: drain the bridge,
    /// apply every drained command in arrival order, reconcile with the
    /// transport and return the cycle's events in emission order. The
    /// bridge comes back empty with its capacity and drop count kept.
    pub fn run_cycle(
        &mut self,
        bridge: &mut ControlBridge,
        transport: &TransportSnapshot,
    ) -> (events: Vec<NoteEvent>)
        requires
            old(self)@.wf(),
        ensures
            final(self)@ == spec_cycle(old(self)@, old(bridge)@.queue, *transport).0,
            events@ == spec_cycle(old(self)@, old(bridge)@.queue, *transport).1,
            final(self)@.wf(),
            old(self)@.inv() ==> final(self)@.inv(),
            final(bridge)@.queue == Seq::<Command>::empty(),
            final(bridge)@.capacity == old(bridge)@.capacity,
            final(bridge)@.dropped == old(bridge)@.dropped,
    {
        let ghost all_cmds: Seq<Command> = bridge@.queue;
        let mut cmds = bridge.drain_all();
        let mut events: Vec<NoteEvent> = Vec::new();
        proof {
            assert(events@ + spec_apply_all(self.store@, cmds@).1 =~= spec_apply_all(
                old(self)@.store,
                all_cmds,
            ).1);
        }
        while cmds.len() > 0
            invariant
                spec_apply_all(old(self)@.store, all_cmds).0 == spec_apply_all(
                    self.store@,
                    cmds@,
                ).0,
                spec_apply_all(old(self)@.store, all_cmds).1 == events@ + spec_apply_all(
                    self.store@,
                    cmds@,
                ).1,
                self.store@.wf() || self.store@ == old(self)@.store,
                old(self)@.wf(),
                self.last_playing == old(self)@.last_playing,
            decreases cmds.len(),
        {
            let ghost prev_store = self.store@;
            let ghost prev_cmds = cmds@;
            let ghost prev_events = events@;
            let cmd = cmds.remove(0);
            let off = self.store.apply(cmd);
            match off {
                Some(e) => events.push(e),
                None => {}
            }
            proof {
                assert(cmds@ =~= prev_cmds.drop_first());
                assert(events@ =~= prev_events + spec_opt_event(off));
                assert(events@ + spec_apply_all(self.store@, cmds@).1 =~= prev_events + (
                spec_opt_event(off) + spec_apply_all(self.store@, cmds@).1));
            }
        }
        proof {
            assert(cmds@ =~= Seq::<Command>::empty());
            assert(spec_apply_all(self.store@, cmds@).0 == self.store@);
            assert(events@ + spec_apply_all(self.store@, cmds@).1 =~= events@);
        }
        // Step 3: the stopped-to-playing edge resynchronizes the cursor.
        if transport.playing && !self.last_playing {
            self.store.current_index = 0;
            self.store.segment_start_microbeat = transport.position_microbeats;
            self.store.note_is_sounding = false;
        }
        let ghost st1 = self.store@;
        proof {
            assert(st1 =~= spec_resync(
                spec_apply_all(old(self)@.store, all_cmds).0,
                *transport,
                old(self)@.last_playing,
            ));
        }
        // Step 4: while stopped, only silence a note left sounding.
        if !transport.playing {
            if self.store.note_is_sounding {
                events.push(NoteEvent::NoteOff { pitch: self.store.sounding_pitch });
                self.store.note_is_sounding = false;
            }
            self.last_playing = false;
            proof {
                assert(self@ =~= spec_cycle(old(self)@, all_cmds, *transport).0);
                assert(events@ =~= spec_cycle(old(self)@, all_cmds, *transport).1);
                if old(self)@.inv() {
                    crate::laws::lemma_cycle_inv(old(self)@, all_cmds, *transport);
                }
            }
            return events;
        }
        // Step 5: an empty pattern emits nothing.
        if self.store.notes.len() == 0 {
            self.last_playing = true;
            proof {
                assert(self@ =~= spec_cycle(old(self)@, all_cmds, *transport).0);
                assert(events@ =~= spec_cycle(old(self)@, all_cmds, *transport).1);
                if old(self)@.inv() {
                    crate::laws::lemma_cycle_inv(old(self)@, all_cmds, *transport);
                }
            }
            return events;
        }
        let ghost evs_mid = events@;
        // Step 6: end the current segment once the transport passed it.
        let dur: u64 = self.store.notes[self.store.current_index].duration_microbeats;
        let end: u64 = beat_add(self.store.segment_start_microbeat, dur);
        if transport.position_microbeats >= end {
            if self.store.note_is_sounding {
                events.push(NoteEvent::NoteOff { pitch: self.store.sounding_pitch });
                self.store.note_is_sounding = false;
            }
            let next: usize = if self.store.current_index + 1 == self.store.notes.len() {
                0
            } else {
                self.store.current_index + 1
            };
            self.store.current_index = next;
            self.store.segment_start_microbeat = end;
        }
        // Step 7: start the current note once its segment has begun.
        if !self.store.note_is_sounding && transport.position_microbeats
            >= self.store.segment_start_microbeat {
            let n = self.store.notes[self.store.current_index];
            events.push(NoteEvent::NoteOn { pitch: n.pitch, velocity: n.velocity });
            self.store.note_is_sounding = true;
            self.store.sounding_pitch = n.pitch;
        }
        self.last_playing = true;
        proof {
            assert(self@.store =~= spec_advance(st1, *transport).0);
            assert(events@ =~= evs_mid + spec_advance(st1, *transport).1);
            assert(self@ =~= spec_cycle(old(self)@, all_cmds, *transport).0);
            assert(events@ =~= spec_cycle(old(self)@, all_cmds, *transport).1);
            if old(self)@.inv() {
                crate::laws::lemma_cycle_inv(old(self)@, all_cmds, *transport);
            }
        }
        events
    }
}

} // verus!
