//! The command-line grammar of the control client: one line of text
//! becomes a command plus an optional target track.
//!
//! A line may carry a `1:` or `2:` track prefix. A line starting with `{`
//! is a raw wire message and goes through the codec. Otherwise the first
//! word decides: `clear` or `stop` empty the pattern; `play` or `notes`
//! set one, reading the remaining words as pitches, with `dur:` and
//! `vel:` words (the last one wins) giving every note its duration and
//! velocity; words that are none of these are ignored.

use vstd::prelude::*;

use crate::codec::spec_decode;
use crate::codec::spec_is_clear_tag;
use crate::codec::spec_is_notes_key;
use crate::codec::decode_command;
use crate::codec::is_clear_tag;
use crate::codec::is_notes_key;
use crate::codec::DecodeError;
use crate::pattern::Command;
use crate::pattern::CommandView;
use crate::pattern::Note;
use crate::text::is_ws;
use crate::text::lemma_digits_end_bounds;
use crate::text::lemma_skip_ws_bounds;
use crate::text::spec_digits_end;
use crate::text::spec_digits_val;
use crate::text::spec_parse_micro;
use crate::text::spec_skip_ws;
use crate::text::digits_end;
use crate::text::digits_val_checked;
use crate::text::parse_micro;
use crate::text::skip_ws;

verus! {

/// Why a command line was refused.
#[derive(Clone, Copy, Debug, PartialEq, Eq, Structural)]
pub enum ParseError {
    /// A `play` line named no playable note.
    NoNotes,
    /// A `dur:` word did not carry a plain decimal beat number.
    InvalidDuration,
    /// A `vel:` word did not carry a velocity between 0 and 255.
    InvalidVelocity,
    /// The first word names no command.
    UnknownCommand,
    /// A raw wire message was malformed.
    Decode(DecodeError),
}

/// First index at or after `i` holding whitespace (or the end): the end
/// of the word starting at `i`.
pub open spec fn spec_token_end(s: Seq<u8>, i: int) -> int
    decreases s.len() - i when 0 <= i <= s.len()
{
    if i < s.len() && !is_ws(s[i]) {
        spec_token_end(s, i + 1)
    } else {
        i
    }
}

pub proof fn lemma_token_end_bounds(s: Seq<u8>, i: int)
    requires
        0 <= i <= s.len(),
    ensures
        i <= spec_token_end(s, i) <= s.len(),
    decreases s.len() - i,
{
    if i < s.len() && !is_ws(s[i]) {
        lemma_token_end_bounds(s, i + 1);
    }
}

/// Exec counterpart of [`spec_token_end`].
pub(crate) fn token_end(s: &Vec<u8>, i: usize) -> (r: usize)
    requires
        i <= s@.len(),
    ensures
        r == spec_token_end(s@, i as int),
        i <= r <= s@.len(),
    decreases s@.len() - i,
{
    if i < s.len() && !(s[i] == 32 || s[i] == 9 || s[i] == 10 || s[i] == 13) {
        token_end(s, i + 1)
    } else {
        i
    }
}

/// The bytes `s[a..b)` spell `play`.
pub open spec fn spec_is_play_word(s: Seq<u8>, a: int, b: int) -> bool {
    b - a == 4 && s[a] == 112 && s[a + 1] == 108 && s[a + 2] == 97 && s[a + 3] == 121
}

pub(crate) fn is_play_word(s: &Vec<u8>, a: usize, b: usize) -> (r: bool)
    requires
        a <= b <= s@.len(),
    ensures
        r == spec_is_play_word(s@, a as int, b as int),
{
    b - a == 4 && s[a] == 112 && s[a + 1] == 108 && s[a + 2] == 97 && s[a + 3] == 121
}

/// The bytes `s[a..b)` spell `stop`.
pub open spec fn spec_is_stop_word(s: Seq<u8>, a: int, b: int) -> bool {
    b - a == 4 && s[a] == 115 && s[a + 1] == 116 && s[a + 2] == 111 && s[a + 3] == 112
}

pub(crate) fn is_stop_word(s: &Vec<u8>, a: usize, b: usize) -> (r: bool)
    requires
        a <= b <= s@.len(),
    ensures
        r == spec_is_stop_word(s@, a as int, b as int),
{
    b - a == 4 && s[a] == 115 && s[a + 1] == 116 && s[a + 2] == 111 && s[a + 3] == 112
}

/// The word at `[i, e)` starts with `dur:`.
pub open spec fn spec_has_dur_prefix(s: Seq<u8>, i: int, e: int) -> bool {
    i + 4 <= e && s[i] == 100 && s[i + 1] == 117 && s[i + 2] == 114 && s[i + 3] == 58
}

/// The word at `[i, e)` starts with `vel:`.
pub open spec fn spec_has_vel_prefix(s: Seq<u8>, i: int, e: int) -> bool {
    i + 4 <= e && s[i] == 118 && s[i + 1] == 101 && s[i + 2] == 108 && s[i + 3] == 58
}

/// Reading the words of a `play` line from position `i` (at a word or the
/// end): the pitches collected so far plus the latest duration and
/// velocity, or the first failing `dur:`/`vel:` word's error.
pub open spec fn spec_play_args(s: Seq<u8>, i: int, notes: Seq<u8>, dur: u64, vel: u8) -> Result<
    (Seq<u8>, u64, u8),
    ParseError,
>
    decreases s.len() - i when 0 <= i <= s.len()
{
    let e = spec_token_end(s, i);
    if e == i {
        Ok((notes, dur, vel))
    } else {
        proof {
            lemma_token_end_bounds(s, i);
            lemma_skip_ws_bounds(s, e);
        }
        if spec_has_dur_prefix(s, i, e) {
            match spec_parse_micro(s, i + 4) {
                Ok((v, j)) => if j == e {
                    spec_play_args(s, spec_skip_ws(s, e), notes, v, vel)
                } else {
                    Err(ParseError::InvalidDuration)
                },
                Err(_) => Err(ParseError::InvalidDuration),
            }
        } else if spec_has_vel_prefix(s, i, e) {
            let j = spec_digits_end(s, i + 4);
            if j == e && j != i + 4 && spec_digits_val(s, i + 4, j) <= 255 {
                spec_play_args(
                    s,
                    spec_skip_ws(s, e),
                    notes,
                    dur,
                    spec_digits_val(s, i + 4, j) as u8,
                )
            } else {
                Err(ParseError::InvalidVelocity)
            }
        } else {
            let j = spec_digits_end(s, i);
            if j == e && j != i && spec_digits_val(s, i, j) <= 255 {
                spec_play_args(
                    s,
                    spec_skip_ws(s, e),
                    notes.push(spec_digits_val(s, i, j) as u8),
                    dur,
                    vel,
                )
            } else {
                spec_play_args(s, spec_skip_ws(s, e), notes, dur, vel)
            }
        }
    }
}

/// Exec counterpart of [`spec_play_args`].
fn play_args(s: &Vec<u8>, i: usize, notes: Vec<u8>, dur: u64, vel: u8) -> (r: Result<
    (Vec<u8>, u64, u8),
    ParseError,
>)
    requires
        i <= s@.len(),
    ensures
        match r {
            Ok((ns, d, v)) => spec_play_args(s@, i as int, notes@, dur, vel) == Ok::<
                _,
                ParseError,
            >((ns@, d, v)),
            Err(e) => spec_play_args(s@, i as int, notes@, dur, vel) == Err::<
                (Seq<u8>, u64, u8),
                _,
            >(e),
        },
    decreases s@.len() - i,
{
    let e = token_end(s, i);
    if e == i {
        return Ok((notes, dur, vel));
    }
    let has_dur: bool = e - i >= 4 && s[i] == 100 && s[i + 1] == 117 && s[i + 2] == 114 && s[i + 3]
        == 58;
    let has_vel: bool = e - i >= 4 && s[i] == 118 && s[i + 1] == 101 && s[i + 2] == 108 && s[i + 3]
        == 58;
    if has_dur {
        match parse_micro(s, i + 4) {
            Ok((v, j)) => {
                if j == e {
                    play_args(s, skip_ws(s, e), notes, v, vel)
                } else {
                    Err(ParseError::InvalidDuration)
                }
            }
            Err(_) => Err(ParseError::InvalidDuration),
        }
    } else if has_vel {
        let j = digits_end(s, i + 4);
        proof {
            lemma_digits_end_bounds(s@, i as int + 4);
        }
        if j == e && j != i + 4 {
            match digits_val_checked(s, i + 4, j, 255) {
                Some(v64) => play_args(s, skip_ws(s, e), notes, dur, v64 as u8),
                None => Err(ParseError::InvalidVelocity),
            }
        } else {
            Err(ParseError::InvalidVelocity)
        }
    } else {
        let j = digits_end(s, i);
        proof {
            lemma_digits_end_bounds(s@, i as int);
        }
        if j == e && j != i {
            match digits_val_checked(s, i, j, 255) {
                Some(v64) => {
                    let mut notes2 = notes;
                    notes2.push(v64 as u8);
                    play_args(s, skip_ws(s, e), notes2, dur, vel)
                }
                None => play_args(s, skip_ws(s, e), notes, dur, vel),
            }
        } else {
            play_args(s, skip_ws(s, e), notes, dur, vel)
        }
    }
}

/// The default duration of a `play` line: a quarter beat.
pub const DEFAULT_DURATION_MICROBEATS: u64 = 250_000;

/// The default velocity of a `play` line.
pub const DEFAULT_VELOCITY: u8 = 100;

/// The notes a finished `play` line denotes: every collected pitch, each
/// with the line's duration and velocity.
pub open spec fn spec_play_notes(ns: Seq<u8>, dur: u64, vel: u8) -> Seq<Note> {
    Seq::new(
        ns.len(),
        |k: int| Note { pitch: ns[k], duration_microbeats: dur, velocity: vel },
    )
}

/// One whole command line.
pub open spec fn spec_parse_command(s: Seq<u8>) -> Result<(CommandView, Option<u8>), ParseError> {
    let t0 = spec_skip_ws(s, 0);
    let target = if t0 + 1 < s.len() && s[t0] == 49 && s[t0 + 1] == 58 {
        Some(1u8)
    } else if t0 + 1 < s.len() && s[t0] == 50 && s[t0 + 1] == 58 {
        Some(2u8)
    } else {
        None::<u8>
    };
    let i = if target is Some {
        spec_skip_ws(s, t0 + 2)
    } else {
        t0
    };
    if i < s.len() && s[i] == 123 {
        match spec_decode(s.subrange(i, s.len() as int)) {
            Ok(m) => Ok((m, target)),
            Err(e) => Err(ParseError::Decode(e)),
        }
    } else {
        let e = spec_token_end(s, i);
        if e == i {
            Err(ParseError::UnknownCommand)
        } else if spec_is_clear_tag(s, i, e) || spec_is_stop_word(s, i, e) {
            Ok((CommandView::Clear, target))
        } else if spec_is_play_word(s, i, e) || spec_is_notes_key(s, i, e) {
            match spec_play_args(
                s,
                spec_skip_ws(s, e),
                Seq::empty(),
                DEFAULT_DURATION_MICROBEATS,
                DEFAULT_VELOCITY,
            ) {
                Err(pe) => Err(pe),
                Ok((ns, dur, vel)) => {
                    if ns.len() == 0 {
                        Err(ParseError::NoNotes)
                    } else {
                        Ok((CommandView::SetPattern(spec_play_notes(ns, dur, vel)), target))
                    }
                }
            }
        } else {
            Err(ParseError::UnknownCommand)
        }
    }
}

/// Parse one command line: exactly [`spec_parse_command`] of the bytes.
/// Returns the command and the track it targets, if any.
pub fn parse_command(input: &Vec<u8>) -> (r: Result<(Command, Option<u8>), ParseError>)
    ensures
        match (r, spec_parse_command(input@)) {
            (Ok((c, tg1)), Ok((m, tg2))) => c@ == m && tg1 == tg2,
            (Err(e1), Err(e2)) => e1 == e2,
            _ => false,
        },
{
    let s = input;
    let t0 = skip_ws(s, 0);
    let target: Option<u8> = if s.len() - t0 >= 2 && s[t0] == 49 && s[t0 + 1] == 58 {
        Some(1u8)
    } else if s.len() - t0 >= 2 && s[t0] == 50 && s[t0 + 1] == 58 {
        Some(2u8)
    } else {
        None
    };
    let i = if target.is_some() {
        skip_ws(s, t0 + 2)
    } else {
        t0
    };
    if i < s.len() && s[i] == 123 {
        let mut tail: Vec<u8> = Vec::new();
        let mut k: usize = i;
        proof {
            assert(tail@ =~= s@.subrange(i as int, k as int));
        }
        while k < s.len()
            invariant
                i <= k <= s@.len(),
                tail@ == s@.subrange(i as int, k as int),
            decreases s@.len() - k,
        {
            tail.push(s[k]);
            proof {
                assert(tail@ =~= s@.subrange(i as int, k as int + 1));
            }
            k = k + 1;
        }
        proof {
            assert(tail@ =~= s@.subrange(i as int, s@.len() as int));
        }
        match decode_command(&tail) {
            Ok(c) => Ok((c, target)),
            Err(e) => Err(ParseError::Decode(e)),
        }
    } else {
        let e = token_end(s, i);
        if e == i {
            return Err(ParseError::UnknownCommand);
        }
        if is_clear_tag(s, i, e) || is_stop_word(s, i, e) {
            return Ok((Command::Clear, target));
        }
        if is_play_word(s, i, e) || is_notes_key(s, i, e) {
            let start = skip_ws(s, e);
            let empty_notes: Vec<u8> = Vec::new();
            proof {
                assert(empty_notes@ =~= Seq::<u8>::empty());
            }
            match play_args(s, start, empty_notes, DEFAULT_DURATION_MICROBEATS, DEFAULT_VELOCITY) {
                Err(pe) => Err(pe),
                Ok((ns, dur, vel)) => {
                    if ns.len() == 0 {
                        return Err(ParseError::NoNotes);
                    }
                    let mut out: Vec<Note> = Vec::new();
                    let mut m: usize = 0;
                    while m < ns.len()
                        invariant
                            m <= ns@.len(),
                            out@.len() == m,
                            forall|q: int|
                                0 <= q < m ==> out@[q] == (Note {
                                    pitch: ns@[q],
                                    duration_microbeats: dur,
                                    velocity: vel,
                                }),
                        decreases ns@.len() - m,
                    {
                        out.push(Note { pitch: ns[m], duration_microbeats: dur, velocity: vel });
                        m = m + 1;
                    }
                    proof {
                        assert(out@ =~= spec_play_notes(ns@, dur, vel));
                    }
                    Ok((Command::SetPattern(out), target))
                }
            }
        } else {
            Err(ParseError::UnknownCommand)
        }
    }
}

} // verus!
