//! Laws of the sequencer, stated over the engine's mathematical model and
//! proved once and for all: the monophonic event discipline, the
//! note-off owed when a sounding pattern is cleared, and the behaviour of
//! the play-state transitions.

use vstd::prelude::*;

use crate::engine::spec_advance;
use crate::engine::spec_apply_all;
use crate::engine::spec_beat_add;
use crate::engine::spec_cycle;
use crate::engine::spec_opt_event;
use crate::engine::spec_resync;
use crate::engine::SequencerView;
use crate::engine::TransportSnapshot;
use crate::pattern::spec_apply;
use crate::pattern::spec_pending_off;
use crate::pattern::Command;
use crate::pattern::NoteEvent;
use crate::pattern::StoreView;

verus! {

/// Monophonic discipline of an event sequence, starting from a given
/// sounding state: a note-on only while nothing sounds, a note-off only
/// for the pitch that sounds. In particular no two note-ons appear
/// without an intervening note-off.
pub open spec fn spec_events_ok(evs: Seq<NoteEvent>, sounding: bool, pitch: u8) -> bool
    decreases evs.len(),
{
    if evs.len() == 0 {
        true
    } else {
        match evs[0] {
            NoteEvent::NoteOn { pitch: p, velocity: _ } => !sounding && spec_events_ok(
                evs.drop_first(),
                true,
                p,
            ),
            NoteEvent::NoteOff { pitch: p } => sounding && p == pitch && spec_events_ok(
                evs.drop_first(),
                false,
                pitch,
            ),
        }
    }
}

/// The sounding state (and sounding pitch) left behind after an event
/// sequence plays out from the given start state.
pub open spec fn spec_sounding_after(evs: Seq<NoteEvent>, sounding: bool, pitch: u8) -> (
    bool,
    u8,
)
    decreases evs.len(),
{
    if evs.len() == 0 {
        (sounding, pitch)
    } else {
        match evs[0] {
            NoteEvent::NoteOn { pitch: p, velocity: _ } => spec_sounding_after(
                evs.drop_first(),
                true,
                p,
            ),
            NoteEvent::NoteOff { pitch: _ } => spec_sounding_after(evs.drop_first(), false, pitch),
        }
    }
}

/// Concatenation law for the monophonic discipline: a concatenation is
/// monophonic exactly when its first part is and its second part is from
/// the state the first part leaves behind.
pub proof fn lemma_events_concat(a: Seq<NoteEvent>, b: Seq<NoteEvent>, sounding: bool, pitch: u8)
    ensures
        spec_events_ok(a + b, sounding, pitch) == (spec_events_ok(a, sounding, pitch)
            && spec_events_ok(
            b,
            spec_sounding_after(a, sounding, pitch).0,
            spec_sounding_after(a, sounding, pitch).1,
        )),
        spec_sounding_after(a + b, sounding, pitch) == spec_sounding_after(
            b,
            spec_sounding_after(a, sounding, pitch).0,
            spec_sounding_after(a, sounding, pitch).1,
        ),
    decreases a.len(),
{
    if a.len() == 0 {
        assert(a + b =~= b);
    } else {
        assert((a + b).drop_first() =~= a.drop_first() + b);
        assert((a + b)[0] == a[0]);
        match a[0] {
            NoteEvent::NoteOn { pitch: p, velocity: _ } => {
                lemma_events_concat(a.drop_first(), b, true, p);
            }
            NoteEvent::NoteOff { pitch: _ } => {
                lemma_events_concat(a.drop_first(), b, false, pitch);
            }
        }
    }
}

/// Draining a command batch is monophonic: each command that finds a note
/// sounding emits exactly the owed note-off first, and the store ends the
/// drain tracking the state the events describe.
pub proof fn lemma_apply_all_monophonic(s: StoreView, cmds: Seq<Command>)
    ensures
        ({
            let (s2, evs) = spec_apply_all(s, cmds);
            &&& spec_events_ok(evs, s.note_is_sounding, s.sounding_pitch)
            &&& spec_sounding_after(evs, s.note_is_sounding, s.sounding_pitch).0
                == s2.note_is_sounding
            &&& spec_sounding_after(evs, s.note_is_sounding, s.sounding_pitch).1
                == s2.sounding_pitch
            &&& cmds.len() > 0 ==> !s2.note_is_sounding
        }),
    decreases cmds.len(),
{
    reveal_with_fuel(spec_events_ok, 3);
    reveal_with_fuel(spec_sounding_after, 3);
    if cmds.len() == 0 {
    } else {
        let (s1, off) = spec_apply(s, cmds[0]);
        let (s2, rest) = spec_apply_all(s1, cmds.drop_first());
        match cmds[0] {
            Command::SetPattern(_) => {}
            Command::Clear => {}
        }
        assert(off == spec_pending_off(s));
        assert(!s1.note_is_sounding && s1.sounding_pitch == s.sounding_pitch);
        let o = spec_opt_event(off);
        if s.note_is_sounding {
            assert(o =~= seq![NoteEvent::NoteOff { pitch: s.sounding_pitch }]);
            assert(o.drop_first() =~= Seq::<NoteEvent>::empty());
        } else {
            assert(o =~= Seq::<NoteEvent>::empty());
        }
        assert(spec_events_ok(o, s.note_is_sounding, s.sounding_pitch));
        assert(spec_sounding_after(o, s.note_is_sounding, s.sounding_pitch) == (
            false,
            s.sounding_pitch,
        ));
        lemma_apply_all_monophonic(s1, cmds.drop_first());
        lemma_events_concat(o, rest, s.note_is_sounding, s.sounding_pitch);
    }
}

/// Draining a command batch keeps the store well-formed.
pub proof fn lemma_apply_all_wf(s: StoreView, cmds: Seq<Command>)
    requires
        s.wf(),
    ensures
        spec_apply_all(s, cmds).0.wf(),
    decreases cmds.len(),
{
    if cmds.len() == 0 {
    } else {
        let (s1, _) = spec_apply(s, cmds[0]);
        match cmds[0] {
            Command::SetPattern(_) => {}
            Command::Clear => {}
        }
        lemma_apply_all_wf(s1, cmds.drop_first());
    }
}

/// Every cycle preserves the engine invariant.
pub proof fn lemma_cycle_inv(s: SequencerView, cmds: Seq<Command>, t: TransportSnapshot)
    requires
        s.inv(),
    ensures
        spec_cycle(s, cmds, t).0.inv(),
{
    lemma_apply_all_wf(s.store, cmds);
}

/// Law (monophonic invariant, one cycle): from any state satisfying the
/// engine invariant, the events of one cycle obey the monophonic
/// discipline, and the next state tracks exactly the sounding state the
/// events leave behind.
pub proof fn lemma_cycle_monophonic(s: SequencerView, cmds: Seq<Command>, t: TransportSnapshot)
    requires
        s.inv(),
    ensures
        ({
            let (s2, evs) = spec_cycle(s, cmds, t);
            &&& spec_events_ok(evs, s.store.note_is_sounding, s.store.sounding_pitch)
            &&& spec_sounding_after(evs, s.store.note_is_sounding, s.store.sounding_pitch).0
                == s2.store.note_is_sounding
            &&& s2.store.note_is_sounding ==> spec_sounding_after(
                evs,
                s.store.note_is_sounding,
                s.store.sounding_pitch,
            ).1 == s2.store.sounding_pitch
        }),
{
    reveal_with_fuel(spec_events_ok, 5);
    reveal_with_fuel(spec_sounding_after, 5);
    let (st0, offs) = spec_apply_all(s.store, cmds);
    lemma_apply_all_monophonic(s.store, cmds);
    lemma_apply_all_wf(s.store, cmds);
    let st1 = spec_resync(st0, t, s.last_playing);
    // On the stopped-to-playing edge nothing is sounding anyway: with no
    // commands the invariant says so, and any drained command leaves the
    // store silent.
    assert(cmds.len() > 0 ==> !st0.note_is_sounding);
    assert(st1.note_is_sounding == st0.note_is_sounding && st1.sounding_pitch
        == st0.sounding_pitch);
    let after_offs = spec_sounding_after(offs, s.store.note_is_sounding, s.store.sounding_pitch);
    if !t.playing {
        let tail = spec_opt_event(spec_pending_off(st1));
        if st1.note_is_sounding {
            assert(tail =~= seq![NoteEvent::NoteOff { pitch: st1.sounding_pitch }]);
            assert(tail.drop_first() =~= Seq::<NoteEvent>::empty());
        } else {
            assert(tail =~= Seq::<NoteEvent>::empty());
        }
        lemma_events_concat(offs, tail, s.store.note_is_sounding, s.store.sounding_pitch);
    } else if st1.notes.len() == 0 {
    } else {
        let (st2, evs2) = spec_advance(st1, t);
        let end = spec_beat_add(
            st1.segment_start_microbeat,
            st1.notes[st1.current_index as int].duration_microbeats,
        );
        if t.position_microbeats >= end {
            let next: usize = if st1.current_index + 1 == st1.notes.len() {
                0usize
            } else {
                (st1.current_index + 1) as usize
            };
            let sm = StoreView {
                current_index: next,
                segment_start_microbeat: end,
                note_is_sounding: false,
                ..st1
            };
            let n = sm.notes[sm.current_index as int];
            let on_ev = NoteEvent::NoteOn { pitch: n.pitch, velocity: n.velocity };
            if st1.note_is_sounding {
                let off_ev = NoteEvent::NoteOff { pitch: st1.sounding_pitch };
                assert(evs2 =~= seq![off_ev, on_ev]);
                assert(evs2.drop_first() =~= seq![on_ev]);
                assert(evs2.drop_first().drop_first() =~= Seq::<NoteEvent>::empty());
            } else {
                assert(evs2 =~= seq![on_ev]);
                assert(evs2.drop_first() =~= Seq::<NoteEvent>::empty());
            }
        } else {
            if !st1.note_is_sounding && t.position_microbeats >= st1.segment_start_microbeat {
                let n = st1.notes[st1.current_index as int];
                let on_ev = NoteEvent::NoteOn { pitch: n.pitch, velocity: n.velocity };
                assert(evs2 =~= seq![on_ev]);
                assert(evs2.drop_first() =~= Seq::<NoteEvent>::empty());
            } else {
                assert(evs2 =~= Seq::<NoteEvent>::empty());
            }
        }
        assert(spec_events_ok(evs2, st1.note_is_sounding, st1.sounding_pitch));
        lemma_events_concat(offs, evs2, s.store.note_is_sounding, s.store.sounding_pitch);
    }
}

/// A whole run of cycles: the state threaded through, and every emitted
/// event in order.
pub open spec fn spec_run_cycles(
    s: SequencerView,
    inputs: Seq<(Seq<Command>, TransportSnapshot)>,
) -> (SequencerView, Seq<NoteEvent>)
    decreases inputs.len(),
{
    if inputs.len() == 0 {
        (s, Seq::empty())
    } else {
        let (s1, evs1) = spec_cycle(s, inputs[0].0, inputs[0].1);
        let (s2, evs2) = spec_run_cycles(s1, inputs.drop_first());
        (s2, evs1 + evs2)
    }
}

/// Law (monophonic invariant, whole runs): over any run of cycles from a
/// state satisfying the engine invariant — a fresh engine in particular —
/// the concatenated event stream obeys the monophonic discipline: no two
/// note-ons are ever emitted without an intervening note-off, and every
/// note-off names the pitch that was sounding.
pub proof fn lemma_run_monophonic(
    s: SequencerView,
    inputs: Seq<(Seq<Command>, TransportSnapshot)>,
)
    requires
        s.inv(),
    ensures
        ({
            let (s2, evs) = spec_run_cycles(s, inputs);
            &&& spec_events_ok(evs, s.store.note_is_sounding, s.store.sounding_pitch)
            &&& s2.inv()
        }),
    decreases inputs.len(),
{
    if inputs.len() == 0 {
    } else {
        let (s1, evs1) = spec_cycle(s, inputs[0].0, inputs[0].1);
        lemma_cycle_monophonic(s, inputs[0].0, inputs[0].1);
        lemma_cycle_inv(s, inputs[0].0, inputs[0].1);
        lemma_run_monophonic(s1, inputs.drop_first());
        let (_, evs2) = spec_run_cycles(s1, inputs.drop_first());
        lemma_events_concat(evs1, evs2, s.store.note_is_sounding, s.store.sounding_pitch);
        // The next cycle starts from the sounding state the first cycle's
        // events left behind; when nothing sounds, any recorded pitch is
        // irrelevant to the discipline.
        if !s1.store.note_is_sounding {
            lemma_events_ok_pitch_irrelevant(
                evs2,
                spec_sounding_after(evs1, s.store.note_is_sounding, s.store.sounding_pitch).1,
                s1.store.sounding_pitch,
            );
        }
    }
}

/// While nothing sounds, the monophonic discipline does not depend on the
/// remembered pitch.
pub proof fn lemma_events_ok_pitch_irrelevant(evs: Seq<NoteEvent>, p1: u8, p2: u8)
    ensures
        spec_events_ok(evs, false, p1) == spec_events_ok(evs, false, p2),
    decreases evs.len(),
{
    if evs.len() == 0 {
    } else {
        match evs[0] {
            NoteEvent::NoteOn { pitch: _, velocity: _ } => {}
            NoteEvent::NoteOff { pitch: _ } => {}
        }
    }
}

/// Law: a `Clear` arriving while a note is sounding is answered in the
/// very next cycle by a note-off for that pitch, emitted before anything
/// else, and the pattern ends the cycle empty.
pub proof fn lemma_clear_emits_note_off(s: SequencerView, t: TransportSnapshot)
    requires
        s.wf(),
        s.store.note_is_sounding,
    ensures
        ({
            let (s2, evs) = spec_cycle(s, seq![Command::Clear], t);
            &&& evs.len() >= 1
            &&& evs[0] == NoteEvent::NoteOff { pitch: s.store.sounding_pitch }
            &&& s2.store.notes.len() == 0
        }),
{
    let cmds = seq![Command::Clear];
    assert(cmds.drop_first() =~= Seq::<Command>::empty());
    let (s1, off) = spec_apply(s.store, cmds[0]);
    assert(spec_apply_all(s1, cmds.drop_first()) == (s1, Seq::<NoteEvent>::empty()));
    assert(spec_apply_all(s.store, cmds).1 =~= seq![
        NoteEvent::NoteOff { pitch: s.store.sounding_pitch },
    ]);
}

/// Law (stopping): a cycle in which playback has stopped emits a note-off
/// exactly when a note was sounding at that instant, and only that; the
/// engine ends the cycle silent and remembers the stopped state.
pub proof fn lemma_stop_transition(s: SequencerView, t: TransportSnapshot)
    requires
        s.wf(),
        s.last_playing,
        !t.playing,
    ensures
        ({
            let (s2, evs) = spec_cycle(s, Seq::empty(), t);
            &&& s.store.note_is_sounding ==> evs == seq![
                NoteEvent::NoteOff { pitch: s.store.sounding_pitch },
            ]
            &&& !s.store.note_is_sounding ==> evs == Seq::<NoteEvent>::empty()
            &&& !s2.store.note_is_sounding
            &&& !s2.last_playing
            &&& s2.store.notes == s.store.notes
        }),
{
    let (s2, evs) = spec_cycle(s, Seq::empty(), t);
    assert(spec_apply_all(s.store, Seq::empty()) == (s.store, Seq::<NoteEvent>::empty()));
    if s.store.note_is_sounding {
        assert(evs =~= seq![NoteEvent::NoteOff { pitch: s.store.sounding_pitch }]);
    } else {
        assert(evs =~= Seq::<NoteEvent>::empty());
    }
}

/// Law (resuming): a cycle in which playback has resumed always rewinds
/// the cursor to the first note and aligns the first segment's start with
/// the transport position of that moment. With a first note of positive
/// duration whose segment does not saturate, the cycle then starts that
/// note at once.
pub proof fn lemma_start_transition(s: SequencerView, t: TransportSnapshot)
    requires
        s.inv(),
        !s.last_playing,
        t.playing,
        s.store.notes.len() > 0 ==> t.position_microbeats < spec_beat_add(
            t.position_microbeats,
            s.store.notes[0].duration_microbeats,
        ),
    ensures
        ({
            let (s2, evs) = spec_cycle(s, Seq::empty(), t);
            &&& s2.store.current_index == 0
            &&& s2.store.segment_start_microbeat == t.position_microbeats
            &&& s2.last_playing
            &&& s.store.notes.len() > 0 ==> evs == seq![
                NoteEvent::NoteOn {
                    pitch: s.store.notes[0].pitch,
                    velocity: s.store.notes[0].velocity,
                },
            ]
            &&& s.store.notes.len() == 0 ==> evs == Seq::<NoteEvent>::empty()
        }),
{
    let (s2, evs) = spec_cycle(s, Seq::empty(), t);
    assert(spec_apply_all(s.store, Seq::empty()) == (s.store, Seq::<NoteEvent>::empty()));
    let st1 = spec_resync(s.store, t, s.last_playing);
    if s.store.notes.len() > 0 {
        let (st2, evs2) = spec_advance(st1, t);
        let n = s.store.notes[0];
        assert(evs2 =~= seq![NoteEvent::NoteOn { pitch: n.pitch, velocity: n.velocity }]);
        assert(evs =~= evs2);
    } else {
        assert(evs =~= Seq::<NoteEvent>::empty());
    }
}

/// Law (pattern order): a playing cycle with no commands never touches the
/// pattern, moves the cursor at most one step around the loop, only moves
/// it when the transport passed the current segment's end, and any note-on
/// it emits is the cycle's last event and sounds exactly the note under
/// the cursor after the cycle, at that note's velocity.
pub proof fn lemma_cycle_order(s: SequencerView, t: TransportSnapshot)
    requires
        s.inv(),
        s.last_playing,
        t.playing,
        s.store.notes.len() > 0,
    ensures
        ({
            let (s2, evs) = spec_cycle(s, Seq::empty(), t);
            let next: usize = if s.store.current_index + 1 == s.store.notes.len() {
                0usize
            } else {
                (s.store.current_index + 1) as usize
            };
            let end = spec_beat_add(
                s.store.segment_start_microbeat,
                s.store.notes[s.store.current_index as int].duration_microbeats,
            );
            &&& s2.store.notes == s.store.notes
            &&& (s2.store.current_index == s.store.current_index || s2.store.current_index
                == next)
            &&& t.position_microbeats < end ==> s2.store.current_index == s.store.current_index
                && s2.store.segment_start_microbeat == s.store.segment_start_microbeat
            &&& t.position_microbeats >= end ==> s2.store.current_index == next
                && s2.store.segment_start_microbeat == end
            &&& forall|i: int|
                0 <= i < evs.len() && evs[i] is NoteOn ==> i == evs.len() - 1 && evs[i]
                    == NoteEvent::NoteOn {
                    pitch: s.store.notes[s2.store.current_index as int].pitch,
                    velocity: s.store.notes[s2.store.current_index as int].velocity,
                }
        }),
{
    let (s2, evs) = spec_cycle(s, Seq::empty(), t);
    assert(spec_apply_all(s.store, Seq::empty()) == (s.store, Seq::<NoteEvent>::empty()));
    let st1 = spec_resync(s.store, t, s.last_playing);
    assert(st1 == s.store);
    let (st2, evs2) = spec_advance(st1, t);
    assert(evs =~= evs2);
    let end = spec_beat_add(
        st1.segment_start_microbeat,
        st1.notes[st1.current_index as int].duration_microbeats,
    );
    if t.position_microbeats >= end {
        let next: usize = if st1.current_index + 1 == st1.notes.len() {
            0usize
        } else {
            (st1.current_index + 1) as usize
        };
        let sm = StoreView {
            current_index: next,
            segment_start_microbeat: end,
            note_is_sounding: false,
            ..st1
        };
        let n = sm.notes[sm.current_index as int];
        let on_ev = NoteEvent::NoteOn { pitch: n.pitch, velocity: n.velocity };
        if st1.note_is_sounding {
            let off_ev = NoteEvent::NoteOff { pitch: st1.sounding_pitch };
            assert(evs2 =~= seq![off_ev, on_ev]);
        } else {
            assert(evs2 =~= seq![on_ev]);
        }
    } else {
        if !st1.note_is_sounding && t.position_microbeats >= st1.segment_start_microbeat {
            let n = st1.notes[st1.current_index as int];
            assert(evs2 =~= seq![NoteEvent::NoteOn { pitch: n.pitch, velocity: n.velocity }]);
        } else {
            assert(evs2 =~= Seq::<NoteEvent>::empty());
        }
    }
}

} // verus!
