//! The pattern store: the looping note pattern and its playback cursor,
//! together with the commands that mutate it.

use vstd::prelude::*;

verus! {

/// Fixed-point scale for musical time: every beat position and duration in
/// this crate is an integer count of micro-beats, one millionth of a beat.
/// Decimal beat values on the wire are converted exactly at this resolution.
pub const MICROBEATS_PER_BEAT: u64 = 1_000_000;

/// One note of the looping pattern.
#[derive(Clone, Copy, Debug, PartialEq, Eq, Structural)]
pub struct Note {
    /// MIDI note number.
    pub pitch: u8,
    /// Length of the note's segment, in micro-beats.
    pub duration_microbeats: u64,
    /// MIDI velocity, 0 to 127.
    pub velocity: u8,
}

/// A pattern-mutation command, decoded from the wire on a network thread
/// and consumed exactly once by the pattern store.
#[derive(Clone, Debug, PartialEq)]
pub enum Command {
    /// Replace the whole pattern with the given notes.
    SetPattern(Vec<Note>),
    /// Empty the pattern.
    Clear,
}

/// The mathematical model of a command.
pub enum CommandView {
    SetPattern(Seq<Note>),
    Clear,
}

impl View for Command {
    type V = CommandView;

    open spec fn view(&self) -> CommandView {
        match self {
            Command::SetPattern(notes) => CommandView::SetPattern(notes@),
            Command::Clear => CommandView::Clear,
        }
    }
}

/// A note event for the host adapter to emit. Velocity stays on the MIDI
/// 0-127 scale; the host adapter owns any rescaling.
#[derive(Clone, Copy, Debug, PartialEq, Eq, Structural)]
pub enum NoteEvent {
    NoteOn { pitch: u8, velocity: u8 },
    NoteOff { pitch: u8 },
}

/// The mathematical model of the pattern store: the pattern as a sequence
/// of notes plus the playback cursor fields.
#[verifier::ext_equal]
pub struct StoreView {
    pub notes: Seq<Note>,
    pub current_index: usize,
    pub segment_start_microbeat: u64,
    pub note_is_sounding: bool,
    pub sounding_pitch: u8,
}

impl StoreView {
    /// Well-formedness: the cursor points into the pattern, and sits at
    /// zero while the pattern is empty.
    pub open spec fn wf(self) -> bool {
        if self.notes.len() == 0 {
            self.current_index == 0
        } else {
            self.current_index < self.notes.len()
        }
    }
}

/// The note-off a command owes the host: replacing or clearing the pattern
/// while a note is sounding must not leave that note stuck on.
pub open spec fn spec_pending_off(s: StoreView) -> Option<NoteEvent> {
    if s.note_is_sounding {
        Some(NoteEvent::NoteOff { pitch: s.sounding_pitch })
    } else {
        None
    }
}

/// What one command does to the store, paired with the note-off it owes.
/// Both commands reset the cursor to the start of the (new) pattern and
/// stop tracking any sounding note.
pub open spec fn spec_apply(s: StoreView, cmd: Command) -> (StoreView, Option<NoteEvent>) {
    match cmd {
        Command::SetPattern(notes) => (
            StoreView {
                notes: notes@,
                current_index: 0,
                segment_start_microbeat: 0,
                note_is_sounding: false,
                ..s
            },
            spec_pending_off(s),
        ),
        Command::Clear => (
            StoreView {
                notes: Seq::empty(),
                current_index: 0,
                segment_start_microbeat: 0,
                note_is_sounding: false,
                ..s
            },
            spec_pending_off(s),
        ),
    }
}

/// The pattern store: the looping pattern together with its playback
/// cursor. It is owned by the sequencer and mutated only from the
/// processing cycle, never concurrently with cursor advancement.
#[derive(Clone, Debug)]
pub struct PatternStore {
    pub notes: Vec<Note>,
    pub current_index: usize,
    pub segment_start_microbeat: u64,
    pub note_is_sounding: bool,
    pub sounding_pitch: u8,
}

impl View for PatternStore {
    type V = StoreView;

    open spec fn view(&self) -> StoreView {
        StoreView {
            notes: self.notes@,
            current_index: self.current_index,
            segment_start_microbeat: self.segment_start_microbeat,
            note_is_sounding: self.note_is_sounding,
            sounding_pitch: self.sounding_pitch,
        }
    }
}

impl PatternStore {
    /// An empty store with an inert cursor: no notes, nothing sounding.
    pub fn new() -> (s: PatternStore)
        ensures
            s@.notes.len() == 0,
            s@.current_index == 0,
            s@.segment_start_microbeat == 0,
            !s@.note_is_sounding,
            s@.sounding_pitch == 0,
            s@.wf(),
    {
        PatternStore {
            notes: Vec::new(),
            current_index: 0,
            segment_start_microbeat: 0,
            note_is_sounding: false,
            sounding_pitch: 0,
        }
    }

    /// Apply one command under exclusive access. Returns the note-off the
    /// command owes: `Some` exactly when a note was sounding, so the caller
    /// can emit it before the replaced pattern disappears.
    pub fn apply(&mut self, cmd: Command) -> (off: Option<NoteEvent>)
        ensures
            final(self)@ == spec_apply(old(self)@, cmd).0,
            off == spec_apply(old(self)@, cmd).1,
            final(self)@.wf(),
    {
        let off: Option<NoteEvent> = if self.note_is_sounding {
            Some(NoteEvent::NoteOff { pitch: self.sounding_pitch })
        } else {
            None
        };
        match cmd {
            Command::SetPattern(notes) => {
                self.notes = notes;
            }
            Command::Clear => {
                self.notes.clear();
            }
        }
        self.current_index = 0;
        self.segment_start_microbeat = 0;
        self.note_is_sounding = false;
        proof {
            assert(self@ =~= spec_apply(old(self)@, cmd).0);
        }
        off
    }
}

} // verus!
