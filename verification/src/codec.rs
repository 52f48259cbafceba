//! The wire protocol codec: decoding command messages and encoding status
//! messages, as pure functions of the bytes.
//!
//! The grammar is the canonical JSON shape this codec itself emits: one
//! object per message, fields in their canonical order, whitespace allowed
//! between tokens, no string escapes. `set_pattern` pairs its three
//! parallel arrays positionally and truncates to the shortest; a failure
//! is reported as a [`DecodeError`] and must simply discard the message.

use vstd::prelude::*;

use crate::pattern::Command;
use crate::pattern::CommandView;
use crate::pattern::Note;
use crate::text::lemma_digits_end_bounds;
use crate::text::lemma_parse_micro_bounds;
use crate::text::lemma_skip_ws_bounds;
use crate::text::spec_digits_end;
use crate::text::spec_digits_val;
use crate::text::spec_parse_micro;
use crate::text::spec_parse_string;
use crate::text::spec_skip_ws;
use crate::text::digits_end;
use crate::text::digits_val_checked;
use crate::text::parse_micro;
use crate::text::parse_string;
use crate::text::skip_ws;

verus! {

/// Why a wire message was refused. Every error means "ignore this
/// message": it never propagates into the processing path.
#[derive(Clone, Copy, Debug, PartialEq, Eq, Structural)]
pub enum DecodeError {
    /// The text does not follow the message grammar.
    MalformedStructure,
    /// The type tag names no known message.
    UnknownTag,
    /// A numeric field has no digits where one is required, or is out of
    /// range for its type.
    InvalidNumber,
}

/// The bytes `s[a..b)` spell `type`.
pub open spec fn spec_is_type_key(s: Seq<u8>, a: int, b: int) -> bool {
    b - a == 4 && s[a] == 116 && s[a + 1] == 121 && s[a + 2] == 112 && s[a + 3] == 101
}

pub(crate) fn is_type_key(s: &Vec<u8>, a: usize, b: usize) -> (r: bool)
    requires
        a <= b <= s@.len(),
    ensures
        r == spec_is_type_key(s@, a as int, b as int),
{
    b - a == 4 && s[a] == 116 && s[a + 1] == 121 && s[a + 2] == 112 && s[a + 3] == 101
}

/// The bytes `s[a..b)` spell `notes`.
pub open spec fn spec_is_notes_key(s: Seq<u8>, a: int, b: int) -> bool {
    b - a == 5 && s[a] == 110 && s[a + 1] == 111 && s[a + 2] == 116 && s[a + 3] == 101 && s[a + 4]
        == 115
}

pub(crate) fn is_notes_key(s: &Vec<u8>, a: usize, b: usize) -> (r: bool)
    requires
        a <= b <= s@.len(),
    ensures
        r == spec_is_notes_key(s@, a as int, b as int),
{
    b - a == 5 && s[a] == 110 && s[a + 1] == 111 && s[a + 2] == 116 && s[a + 3] == 101 && s[a + 4]
        == 115
}

/// The bytes `s[a..b)` spell `durations`.
pub open spec fn spec_is_durations_key(s: Seq<u8>, a: int, b: int) -> bool {
    b - a == 9 && s[a] == 100 && s[a + 1] == 117 && s[a + 2] == 114 && s[a + 3] == 97 && s[a + 4]
        == 116 && s[a + 5] == 105 && s[a + 6] == 111 && s[a + 7] == 110 && s[a + 8] == 115
}

pub(crate) fn is_durations_key(s: &Vec<u8>, a: usize, b: usize) -> (r: bool)
    requires
        a <= b <= s@.len(),
    ensures
        r == spec_is_durations_key(s@, a as int, b as int),
{
    b - a == 9 && s[a] == 100 && s[a + 1] == 117 && s[a + 2] == 114 && s[a + 3] == 97 && s[a + 4]
        == 116 && s[a + 5] == 105 && s[a + 6] == 111 && s[a + 7] == 110 && s[a + 8] == 115
}

/// The bytes `s[a..b)` spell `velocities`.
pub open spec fn spec_is_velocities_key(s: Seq<u8>, a: int, b: int) -> bool {
    b - a == 10 && s[a] == 118 && s[a + 1] == 101 && s[a + 2] == 108 && s[a + 3] == 111 && s[a + 4]
        == 99 && s[a + 5] == 105 && s[a + 6] == 116 && s[a + 7] == 105 && s[a + 8] == 101 && s[a
        + 9] == 115
}

pub(crate) fn is_velocities_key(s: &Vec<u8>, a: usize, b: usize) -> (r: bool)
    requires
        a <= b <= s@.len(),
    ensures
        r == spec_is_velocities_key(s@, a as int, b as int),
{
    b - a == 10 && s[a] == 118 && s[a + 1] == 101 && s[a + 2] == 108 && s[a + 3] == 111 && s[a + 4]
        == 99 && s[a + 5] == 105 && s[a + 6] == 116 && s[a + 7] == 105 && s[a + 8] == 101 && s[a
        + 9] == 115
}

/// The bytes `s[a..b)` spell `set_pattern`.
pub open spec fn spec_is_set_pattern_tag(s: Seq<u8>, a: int, b: int) -> bool {
    b - a == 11 && s[a] == 115 && s[a + 1] == 101 && s[a + 2] == 116 && s[a + 3] == 95 && s[a + 4]
        == 112 && s[a + 5] == 97 && s[a + 6] == 116 && s[a + 7] == 116 && s[a + 8] == 101 && s[a
        + 9] == 114 && s[a + 10] == 110
}

pub(crate) fn is_set_pattern_tag(s: &Vec<u8>, a: usize, b: usize) -> (r: bool)
    requires
        a <= b <= s@.len(),
    ensures
        r == spec_is_set_pattern_tag(s@, a as int, b as int),
{
    b - a == 11 && s[a] == 115 && s[a + 1] == 101 && s[a + 2] == 116 && s[a + 3] == 95 && s[a + 4]
        == 112 && s[a + 5] == 97 && s[a + 6] == 116 && s[a + 7] == 116 && s[a + 8] == 101 && s[a
        + 9] == 114 && s[a + 10] == 110
}

/// The bytes `s[a..b)` spell `clear`.
pub open spec fn spec_is_clear_tag(s: Seq<u8>, a: int, b: int) -> bool {
    b - a == 5 && s[a] == 99 && s[a + 1] == 108 && s[a + 2] == 101 && s[a + 3] == 97 && s[a + 4]
        == 114
}

pub(crate) fn is_clear_tag(s: &Vec<u8>, a: usize, b: usize) -> (r: bool)
    requires
        a <= b <= s@.len(),
    ensures
        r == spec_is_clear_tag(s@, a as int, b as int),
{
    b - a == 5 && s[a] == 99 && s[a + 1] == 108 && s[a + 2] == 101 && s[a + 3] == 97 && s[a + 4]
        == 114
}

/// Elements of a `u8` array, starting at a position where a number must
/// stand; `acc` carries the values already read.
pub open spec fn spec_arr_u8_items(s: Seq<u8>, i: int, acc: Seq<u8>) -> Result<
    (Seq<u8>, int),
    DecodeError,
>
    decreases s.len() - i when 0 <= i <= s.len()
{
    let j = spec_digits_end(s, i);
    if j == i {
        Err(DecodeError::InvalidNumber)
    } else if spec_digits_val(s, i, j) > 255 {
        Err(DecodeError::InvalidNumber)
    } else {
        let v = spec_digits_val(s, i, j) as u8;
        let j2 = spec_skip_ws(s, j);
        if j2 < s.len() && s[j2] == 44 {
            let j3 = spec_skip_ws(s, j2 + 1);
            proof {
                lemma_digits_end_bounds(s, i);
                lemma_skip_ws_bounds(s, j);
                lemma_skip_ws_bounds(s, j2 + 1);
            }
            spec_arr_u8_items(s, j3, acc.push(v))
        } else if j2 < s.len() && s[j2] == 93 {
            Ok((acc.push(v), j2 + 1))
        } else {
            Err(DecodeError::MalformedStructure)
        }
    }
}

pub(crate) fn arr_u8_items(s: &Vec<u8>, i: usize, acc: Vec<u8>) -> (r: Result<
    (Vec<u8>, usize),
    DecodeError,
>)
    requires
        i <= s@.len(),
    ensures
        match r {
            Ok((v, j)) => spec_arr_u8_items(s@, i as int, acc@) == Ok::<_, DecodeError>(
                (v@, j as int),
            ) && j <= s@.len(),
            Err(e) => spec_arr_u8_items(s@, i as int, acc@) == Err::<(Seq<u8>, int), _>(e),
        },
    decreases s@.len() - i,
{
    let j = digits_end(s, i);
    if j == i {
        return Err(DecodeError::InvalidNumber);
    }
    proof {
        lemma_digits_end_bounds(s@, i as int);
    }
    match digits_val_checked(s, i, j, 255) {
        None => Err(DecodeError::InvalidNumber),
        Some(v64) => {
            let v: u8 = v64 as u8;
            let j2 = skip_ws(s, j);
            if j2 < s.len() && s[j2] == 44 {
                let j3 = skip_ws(s, j2 + 1);
                let mut acc2 = acc;
                acc2.push(v);
                arr_u8_items(s, j3, acc2)
            } else if j2 < s.len() && s[j2] == 93 {
                let mut acc2 = acc;
                acc2.push(v);
                Ok((acc2, j2 + 1))
            } else {
                Err(DecodeError::MalformedStructure)
            }
        }
    }
}

/// A whole `u8` array, starting at its opening bracket.
pub open spec fn spec_arr_u8(s: Seq<u8>, i: int) -> Result<(Seq<u8>, int), DecodeError> {
    if i < s.len() && s[i] == 91 {
        let j = spec_skip_ws(s, i + 1);
        if j < s.len() && s[j] == 93 {
            Ok((Seq::<u8>::empty(), j + 1))
        } else {
            spec_arr_u8_items(s, j, Seq::<u8>::empty())
        }
    } else {
        Err(DecodeError::MalformedStructure)
    }
}

pub(crate) fn arr_u8(s: &Vec<u8>, i: usize) -> (r: Result<(Vec<u8>, usize), DecodeError>)
    requires
        i <= s@.len(),
    ensures
        match r {
            Ok((v, j)) => spec_arr_u8(s@, i as int) == Ok::<_, DecodeError>((v@, j as int)) && j
                <= s@.len(),
            Err(e) => spec_arr_u8(s@, i as int) == Err::<(Seq<u8>, int), _>(e),
        },
{
    if i < s.len() && s[i] == 91 {
        let j = skip_ws(s, i + 1);
        if j < s.len() && s[j] == 93 {
            let out: Vec<u8> = Vec::new();
            proof {
                assert(out@ =~= Seq::<u8>::empty());
            }
            Ok((out, j + 1))
        } else {
            let acc: Vec<u8> = Vec::new();
            proof {
                assert(acc@ =~= Seq::<u8>::empty());
            }
            arr_u8_items(s, j, acc)
        }
    } else {
        Err(DecodeError::MalformedStructure)
    }
}

/// Elements of a beat-number array, values in micro-beats.
pub open spec fn spec_arr_micro_items(s: Seq<u8>, i: int, acc: Seq<u64>) -> Result<
    (Seq<u64>, int),
    DecodeError,
>
    decreases s.len() - i when 0 <= i <= s.len()
{
    match spec_parse_micro(s, i) {
        Err(_) => Err(DecodeError::InvalidNumber),
        Ok((v, j)) => {
            let j2 = spec_skip_ws(s, j);
            if j2 < s.len() && s[j2] == 44 {
                let j3 = spec_skip_ws(s, j2 + 1);
                proof {
                    lemma_parse_micro_bounds(s, i);
                    lemma_skip_ws_bounds(s, j);
                    lemma_skip_ws_bounds(s, j2 + 1);
                }
                spec_arr_micro_items(s, j3, acc.push(v))
            } else if j2 < s.len() && s[j2] == 93 {
                Ok((acc.push(v), j2 + 1))
            } else {
                Err(DecodeError::MalformedStructure)
            }
        }
    }
}

pub(crate) fn arr_micro_items(s: &Vec<u8>, i: usize, acc: Vec<u64>) -> (r: Result<
    (Vec<u64>, usize),
    DecodeError,
>)
    requires
        i <= s@.len(),
    ensures
        match r {
            Ok((v, j)) => spec_arr_micro_items(s@, i as int, acc@) == Ok::<_, DecodeError>(
                (v@, j as int),
            ) && j <= s@.len(),
            Err(e) => spec_arr_micro_items(s@, i as int, acc@) == Err::<(Seq<u64>, int), _>(e),
        },
    decreases s@.len() - i,
{
    match parse_micro(s, i) {
        Err(_) => Err(DecodeError::InvalidNumber),
        Ok((v, j)) => {
            let j2 = skip_ws(s, j);
            if j2 < s.len() && s[j2] == 44 {
                let j3 = skip_ws(s, j2 + 1);
                let mut acc2 = acc;
                acc2.push(v);
                arr_micro_items(s, j3, acc2)
            } else if j2 < s.len() && s[j2] == 93 {
                let mut acc2 = acc;
                acc2.push(v);
                Ok((acc2, j2 + 1))
            } else {
                Err(DecodeError::MalformedStructure)
            }
        }
    }
}

/// A whole beat-number array, starting at its opening bracket.
pub open spec fn spec_arr_micro(s: Seq<u8>, i: int) -> Result<(Seq<u64>, int), DecodeError> {
    if i < s.len() && s[i] == 91 {
        let j = spec_skip_ws(s, i + 1);
        if j < s.len() && s[j] == 93 {
            Ok((Seq::<u64>::empty(), j + 1))
        } else {
            spec_arr_micro_items(s, j, Seq::<u64>::empty())
        }
    } else {
        Err(DecodeError::MalformedStructure)
    }
}

pub(crate) fn arr_micro(s: &Vec<u8>, i: usize) -> (r: Result<(Vec<u64>, usize), DecodeError>)
    requires
        i <= s@.len(),
    ensures
        match r {
            Ok((v, j)) => spec_arr_micro(s@, i as int) == Ok::<_, DecodeError>((v@, j as int)) && j
                <= s@.len(),
            Err(e) => spec_arr_micro(s@, i as int) == Err::<(Seq<u64>, int), _>(e),
        },
{
    if i < s.len() && s[i] == 91 {
        let j = skip_ws(s, i + 1);
        if j < s.len() && s[j] == 93 {
            let out: Vec<u64> = Vec::new();
            proof {
                assert(out@ =~= Seq::<u64>::empty());
            }
            Ok((out, j + 1))
        } else {
            let acc: Vec<u64> = Vec::new();
            proof {
                assert(acc@ =~= Seq::<u64>::empty());
            }
            arr_micro_items(s, j, acc)
        }
    } else {
        Err(DecodeError::MalformedStructure)
    }
}

/// The shortest of three lengths: `set_pattern` pairs its arrays
/// positionally and silently discards the tails of the longer ones.
pub open spec fn spec_min3(a: int, b: int, c: int) -> int {
    if a <= b && a <= c {
        a
    } else if b <= c {
        b
    } else {
        c
    }
}

/// The notes a `set_pattern` payload denotes.
pub open spec fn spec_zip_notes(ns: Seq<u8>, ds: Seq<u64>, vs: Seq<u8>) -> Seq<Note> {
    Seq::new(
        spec_min3(ns.len() as int, ds.len() as int, vs.len() as int) as nat,
        |i: int|
            Note { pitch: ns[i], duration_microbeats: ds[i], velocity: vs[i] },
    )
}

pub(crate) fn zip_notes(ns: &Vec<u8>, ds: &Vec<u64>, vs: &Vec<u8>) -> (out: Vec<Note>)
    ensures
        out@ == spec_zip_notes(ns@, ds@, vs@),
{
    let mut n: usize = ns.len();
    if ds.len() < n {
        n = ds.len();
    }
    if vs.len() < n {
        n = vs.len();
    }
    let mut out: Vec<Note> = Vec::new();
    let mut i: usize = 0;
    while i < n
        invariant
            i <= n,
            n == spec_min3(ns@.len() as int, ds@.len() as int, vs@.len() as int),
            n <= ns@.len(),
            n <= ds@.len(),
            n <= vs@.len(),
            out@.len() == i,
            forall|m: int|
                0 <= m < i ==> out@[m] == (Note {
                    pitch: ns@[m],
                    duration_microbeats: ds@[m],
                    velocity: vs@[m],
                }),
        decreases n - i,
    {
        out.push(Note { pitch: ns[i], duration_microbeats: ds[i], velocity: vs[i] });
        i = i + 1;
    }
    proof {
        assert(out@ =~= spec_zip_notes(ns@, ds@, vs@));
    }
    out
}

/// The `set_pattern` payload: the three arrays in canonical order, then
/// the closing brace and nothing but whitespace after it. `i` stands just
/// after the closing quote of the tag.
pub open spec fn spec_decode_set_pattern(s: Seq<u8>, i: int) -> Result<
    CommandView,
    DecodeError,
> {
    let n0 = spec_skip_ws(s, i);
    if !(n0 < s.len() && s[n0] == 44) {
        Err(DecodeError::MalformedStructure)
    } else {
        let n1 = spec_skip_ws(s, n0 + 1);
        match spec_parse_string(s, n1) {
            None => Err(DecodeError::MalformedStructure),
            Some((na, nb)) => {
                if !spec_is_notes_key(s, na, nb) {
                    Err(DecodeError::MalformedStructure)
                } else {
                    let n2 = spec_skip_ws(s, nb + 1);
                    if !(n2 < s.len() && s[n2] == 58) {
                        Err(DecodeError::MalformedStructure)
                    } else {
                        let n3 = spec_skip_ws(s, n2 + 1);
                        match spec_arr_u8(s, n3) {
                            Err(e) => Err(e),
                            Ok((ns, p0)) => {
                                let d0 = spec_skip_ws(s, p0);
                                if !(d0 < s.len() && s[d0] == 44) {
                                    Err(DecodeError::MalformedStructure)
                                } else {
                                    let d1 = spec_skip_ws(s, d0 + 1);
                                    match spec_parse_string(s, d1) {
                                        None => Err(DecodeError::MalformedStructure),
                                        Some((da, db)) => {
                                            if !spec_is_durations_key(s, da, db) {
                                                Err(DecodeError::MalformedStructure)
                                            } else {
                                                let d2 = spec_skip_ws(s, db + 1);
                                                if !(d2 < s.len() && s[d2] == 58) {
                                                    Err(DecodeError::MalformedStructure)
                                                } else {
                                                    let d3 = spec_skip_ws(s, d2 + 1);
                                                    match spec_arr_micro(s, d3) {
                                                        Err(e) => Err(e),
                                                        Ok((ds, p1)) => spec_decode_velocities(
                                                            s,
                                                            p1,
                                                            ns,
                                                            ds,
                                                        ),
                                                    }
                                                }
                                            }
                                        }
                                    }
                                }
                            }
                        }
                    }
                }
            }
        }
    }
}

/// The tail of a `set_pattern` message: the `velocities` array and the
/// closing brace.
pub open spec fn spec_decode_velocities(s: Seq<u8>, i: int, ns: Seq<u8>, ds: Seq<u64>) -> Result<
    CommandView,
    DecodeError,
> {
    let v0 = spec_skip_ws(s, i);
    if !(v0 < s.len() && s[v0] == 44) {
        Err(DecodeError::MalformedStructure)
    } else {
        let v1 = spec_skip_ws(s, v0 + 1);
        match spec_parse_string(s, v1) {
            None => Err(DecodeError::MalformedStructure),
            Some((va, vb)) => {
                if !spec_is_velocities_key(s, va, vb) {
                    Err(DecodeError::MalformedStructure)
                } else {
                    let v2 = spec_skip_ws(s, vb + 1);
                    if !(v2 < s.len() && s[v2] == 58) {
                        Err(DecodeError::MalformedStructure)
                    } else {
                        let v3 = spec_skip_ws(s, v2 + 1);
                        match spec_arr_u8(s, v3) {
                            Err(e) => Err(e),
                            Ok((vs, p2)) => {
                                let z0 = spec_skip_ws(s, p2);
                                if z0 < s.len() && s[z0] == 125 && spec_skip_ws(s, z0 + 1)
                                    == s.len() {
                                    Ok(CommandView::SetPattern(spec_zip_notes(ns, ds, vs)))
                                } else {
                                    Err(DecodeError::MalformedStructure)
                                }
                            }
                        }
                    }
                }
            }
        }
    }
}

/// Decoding a whole command message from its bytes.
pub open spec fn spec_decode(s: Seq<u8>) -> Result<CommandView, DecodeError> {
    let i0 = spec_skip_ws(s, 0);
    if !(i0 < s.len() && s[i0] == 123) {
        Err(DecodeError::MalformedStructure)
    } else {
        let i1 = spec_skip_ws(s, i0 + 1);
        match spec_parse_string(s, i1) {
            None => Err(DecodeError::MalformedStructure),
            Some((ka, kb)) => {
                if !spec_is_type_key(s, ka, kb) {
                    Err(DecodeError::MalformedStructure)
                } else {
                    let i2 = spec_skip_ws(s, kb + 1);
                    if !(i2 < s.len() && s[i2] == 58) {
                        Err(DecodeError::MalformedStructure)
                    } else {
                        let i3 = spec_skip_ws(s, i2 + 1);
                        match spec_parse_string(s, i3) {
                            None => Err(DecodeError::MalformedStructure),
                            Some((ta, tb)) => {
                                if spec_is_clear_tag(s, ta, tb) {
                                    let i4 = spec_skip_ws(s, tb + 1);
                                    if i4 < s.len() && s[i4] == 125 && spec_skip_ws(s, i4 + 1)
                                        == s.len() {
                                        Ok(CommandView::Clear)
                                    } else {
                                        Err(DecodeError::MalformedStructure)
                                    }
                                } else if spec_is_set_pattern_tag(s, ta, tb) {
                                    spec_decode_set_pattern(s, tb + 1)
                                } else {
                                    Err(DecodeError::UnknownTag)
                                }
                            }
                        }
                    }
                }
            }
        }
    }
}

/// Decode one command message: exactly [`spec_decode`] of the bytes. A
/// decode error tells the caller to discard the message and carry on.
pub fn decode_command(input: &Vec<u8>) -> (r: Result<Command, DecodeError>)
    ensures
        match (r, spec_decode(input@)) {
            (Ok(c), Ok(m)) => c@ == m,
            (Err(e1), Err(e2)) => e1 == e2,
            _ => false,
        },
{
    let s = input;
    let i0 = skip_ws(s, 0);
    if !(i0 < s.len() && s[i0] == 123) {
        return Err(DecodeError::MalformedStructure);
    }
    let i1 = skip_ws(s, i0 + 1);
    let key = parse_string(s, i1);
    match key {
        None => Err(DecodeError::MalformedStructure),
        Some((ka, kb)) => {
            if !is_type_key(s, ka, kb) {
                return Err(DecodeError::MalformedStructure);
            }
            let i2 = skip_ws(s, kb + 1);
            if !(i2 < s.len() && s[i2] == 58) {
                return Err(DecodeError::MalformedStructure);
            }
            let i3 = skip_ws(s, i2 + 1);
            match parse_string(s, i3) {
                None => Err(DecodeError::MalformedStructure),
                Some((ta, tb)) => {
                    if is_clear_tag(s, ta, tb) {
                        let i4 = skip_ws(s, tb + 1);
                        if i4 < s.len() && s[i4] == 125 && skip_ws(s, i4 + 1) == s.len() {
                            Ok(Command::Clear)
                        } else {
                            Err(DecodeError::MalformedStructure)
                        }
                    } else if is_set_pattern_tag(s, ta, tb) {
                        decode_set_pattern(s, tb + 1)
                    } else {
                        Err(DecodeError::UnknownTag)
                    }
                }
            }
        }
    }
}

/// Exec counterpart of [`spec_decode_set_pattern`].
fn decode_set_pattern(s: &Vec<u8>, i: usize) -> (r: Result<Command, DecodeError>)
    requires
        i <= s@.len(),
    ensures
        match (r, spec_decode_set_pattern(s@, i as int)) {
            (Ok(c), Ok(m)) => c@ == m,
            (Err(e1), Err(e2)) => e1 == e2,
            _ => false,
        },
{
    let n0 = skip_ws(s, i);
    if !(n0 < s.len() && s[n0] == 44) {
        return Err(DecodeError::MalformedStructure);
    }
    let n1 = skip_ws(s, n0 + 1);
    match parse_string(s, n1) {
        None => Err(DecodeError::MalformedStructure),
        Some((na, nb)) => {
            if !is_notes_key(s, na, nb) {
                return Err(DecodeError::MalformedStructure);
            }
            let n2 = skip_ws(s, nb + 1);
            if !(n2 < s.len() && s[n2] == 58) {
                return Err(DecodeError::MalformedStructure);
            }
            let n3 = skip_ws(s, n2 + 1);
            match arr_u8(s, n3) {
                Err(e) => Err(e),
                Ok((ns, p0)) => {
                    let d0 = skip_ws(s, p0);
                    if !(d0 < s.len() && s[d0] == 44) {
                        return Err(DecodeError::MalformedStructure);
                    }
                    let d1 = skip_ws(s, d0 + 1);
                    match parse_string(s, d1) {
                        None => Err(DecodeError::MalformedStructure),
                        Some((da, db)) => {
                            if !is_durations_key(s, da, db) {
                                return Err(DecodeError::MalformedStructure);
                            }
                            let d2 = skip_ws(s, db + 1);
                            if !(d2 < s.len() && s[d2] == 58) {
                                return Err(DecodeError::MalformedStructure);
                            }
                            let d3 = skip_ws(s, d2 + 1);
                            match arr_micro(s, d3) {
                                Err(e) => Err(e),
                                Ok((ds, p1)) => decode_velocities(s, p1, ns, ds),
                            }
                        }
                    }
                }
            }
        }
    }
}

/// Exec counterpart of [`spec_decode_velocities`].
fn decode_velocities(s: &Vec<u8>, i: usize, ns: Vec<u8>, ds: Vec<u64>) -> (r: Result<
    Command,
    DecodeError,
>)
    requires
        i <= s@.len(),
    ensures
        match (r, spec_decode_velocities(s@, i as int, ns@, ds@)) {
            (Ok(c), Ok(m)) => c@ == m,
            (Err(e1), Err(e2)) => e1 == e2,
            _ => false,
        },
{
    let v0 = skip_ws(s, i);
    if !(v0 < s.len() && s[v0] == 44) {
        return Err(DecodeError::MalformedStructure);
    }
    let v1 = skip_ws(s, v0 + 1);
    match parse_string(s, v1) {
        None => Err(DecodeError::MalformedStructure),
        Some((va, vb)) => {
            if !is_velocities_key(s, va, vb) {
                return Err(DecodeError::MalformedStructure);
            }
            let v2 = skip_ws(s, vb + 1);
            if !(v2 < s.len() && s[v2] == 58) {
                return Err(DecodeError::MalformedStructure);
            }
            let v3 = skip_ws(s, v2 + 1);
            match arr_u8(s, v3) {
                Err(e) => Err(e),
                Ok((vs, p2)) => {
                    let z0 = skip_ws(s, p2);
                    if z0 < s.len() && s[z0] == 125 && skip_ws(s, z0 + 1) == s.len() {
                        Ok(Command::SetPattern(zip_notes(&ns, &ds, &vs)))
                    } else {
                        Err(DecodeError::MalformedStructure)
                    }
                }
            }
        }
    }
}

/// Decimal digits of a non-negative number, most significant first.
pub open spec fn spec_u64_dec(n: int) -> Seq<u8>
    decreases n when n >= 0
{
    if n < 10 {
        seq![(48 + n) as u8]
    } else {
        spec_u64_dec(n / 10).push((48 + n % 10) as u8)
    }
}

/// Appends the decimal digits of `n`.
pub(crate) fn push_u64_dec(n: u64, out: &mut Vec<u8>)
    ensures
        final(out)@ == old(out)@ + spec_u64_dec(n as int),
    decreases n,
{
    if n < 10 {
        out.push((48 + n) as u8);
        proof {
            assert(out@ =~= old(out)@ + spec_u64_dec(n as int));
        }
    } else {
        push_u64_dec(n / 10, out);
        out.push((48 + n % 10) as u8);
        proof {
            assert(out@ =~= old(out)@ + spec_u64_dec(n as int));
        }
    }
}

/// The six fraction digits of a micro-beat remainder, zero padded.
pub open spec fn spec_frac6(frac: int) -> Seq<u8> {
    seq![
        (48 + frac / 100_000 % 10) as u8,
        (48 + frac / 10_000 % 10) as u8,
        (48 + frac / 1_000 % 10) as u8,
        (48 + frac / 100 % 10) as u8,
        (48 + frac / 10 % 10) as u8,
        (48 + frac % 10) as u8,
    ]
}

/// Trailing zeros trimmed, always keeping at least one digit.
pub open spec fn spec_trim_zeros(s: Seq<u8>) -> Seq<u8>
    decreases s.len(),
{
    if s.len() > 1 && s.last() == 48 {
        spec_trim_zeros(s.drop_last())
    } else {
        s
    }
}

/// A micro-beat count rendered as a decimal beat number: whole part, a
/// point, and the fraction with trailing zeros trimmed (so a whole number
/// of beats still ends in `.0`).
pub open spec fn spec_micro_dec(m: u64) -> Seq<u8> {
    spec_u64_dec(m as int / 1_000_000) + seq![46u8] + spec_trim_zeros(
        spec_frac6(m as int % 1_000_000),
    )
}

/// Appends the decimal beat number for `m` micro-beats.
pub(crate) fn push_micro_dec(m: u64, out: &mut Vec<u8>)
    ensures
        final(out)@ == old(out)@ + spec_micro_dec(m),
{
    push_u64_dec(m / 1_000_000, out);
    out.push(46);
    let frac: u64 = m % 1_000_000;
    let mut digits: Vec<u8> = Vec::new();
    digits.push((48 + frac / 100_000 % 10) as u8);
    digits.push((48 + frac / 10_000 % 10) as u8);
    digits.push((48 + frac / 1_000 % 10) as u8);
    digits.push((48 + frac / 100 % 10) as u8);
    digits.push((48 + frac / 10 % 10) as u8);
    digits.push((48 + frac % 10) as u8);
    proof {
        assert(digits@ =~= spec_frac6(frac as int));
    }
    while digits.len() > 1 && digits[digits.len() - 1] == 48
        invariant
            digits@.len() >= 1,
            spec_trim_zeros(digits@) == spec_trim_zeros(spec_frac6(m as int % 1_000_000)),
        decreases digits.len(),
    {
        let ghost before = digits@;
        digits.pop();
        proof {
            assert(digits@ =~= before.drop_last());
        }
    }
    out.append(&mut digits);
    proof {
        assert(out@ =~= old(out)@ + spec_micro_dec(m));
    }
}

/// Comma-separated pitches of the notes from index `i` on.
pub open spec fn spec_pitch_csv(notes: Seq<Note>, i: int) -> Seq<u8>
    decreases notes.len() - i when 0 <= i <= notes.len()
{
    if i >= notes.len() {
        Seq::empty()
    } else if i == notes.len() - 1 {
        spec_u64_dec(notes[i].pitch as int)
    } else {
        spec_u64_dec(notes[i].pitch as int) + seq![44u8] + spec_pitch_csv(notes, i + 1)
    }
}

pub(crate) fn push_pitch_csv(notes: &Vec<Note>, i: usize, out: &mut Vec<u8>)
    requires
        i <= notes@.len(),
    ensures
        final(out)@ == old(out)@ + spec_pitch_csv(notes@, i as int),
    decreases notes@.len() - i,
{
    if i < notes.len() {
        push_u64_dec(notes[i].pitch as u64, out);
        if i + 1 < notes.len() {
            out.push(44);
            push_pitch_csv(notes, i + 1, out);
            proof {
                assert(out@ =~= old(out)@ + spec_pitch_csv(notes@, i as int));
            }
        }
    }
    proof {
        assert(out@ =~= old(out)@ + spec_pitch_csv(notes@, i as int));
    }
}

/// Comma-separated durations of the notes from index `i` on.
pub open spec fn spec_duration_csv(notes: Seq<Note>, i: int) -> Seq<u8>
    decreases notes.len() - i when 0 <= i <= notes.len()
{
    if i >= notes.len() {
        Seq::empty()
    } else if i == notes.len() - 1 {
        spec_micro_dec(notes[i].duration_microbeats)
    } else {
        spec_micro_dec(notes[i].duration_microbeats) + seq![44u8] + spec_duration_csv(notes, i + 1)
    }
}

pub(crate) fn push_duration_csv(notes: &Vec<Note>, i: usize, out: &mut Vec<u8>)
    requires
        i <= notes@.len(),
    ensures
        final(out)@ == old(out)@ + spec_duration_csv(notes@, i as int),
    decreases notes@.len() - i,
{
    if i < notes.len() {
        push_micro_dec(notes[i].duration_microbeats, out);
        if i + 1 < notes.len() {
            out.push(44);
            push_duration_csv(notes, i + 1, out);
            proof {
                assert(out@ =~= old(out)@ + spec_duration_csv(notes@, i as int));
            }
        }
    }
    proof {
        assert(out@ =~= old(out)@ + spec_duration_csv(notes@, i as int));
    }
}

/// Comma-separated velocities of the notes from index `i` on.
pub open spec fn spec_velocity_csv(notes: Seq<Note>, i: int) -> Seq<u8>
    decreases notes.len() - i when 0 <= i <= notes.len()
{
    if i >= notes.len() {
        Seq::empty()
    } else if i == notes.len() - 1 {
        spec_u64_dec(notes[i].velocity as int)
    } else {
        spec_u64_dec(notes[i].velocity as int) + seq![44u8] + spec_velocity_csv(notes, i + 1)
    }
}

pub(crate) fn push_velocity_csv(notes: &Vec<Note>, i: usize, out: &mut Vec<u8>)
    requires
        i <= notes@.len(),
    ensures
        final(out)@ == old(out)@ + spec_velocity_csv(notes@, i as int),
    decreases notes@.len() - i,
{
    if i < notes.len() {
        push_u64_dec(notes[i].velocity as u64, out);
        if i + 1 < notes.len() {
            out.push(44);
            push_velocity_csv(notes, i + 1, out);
            proof {
                assert(out@ =~= old(out)@ + spec_velocity_csv(notes@, i as int));
            }
        }
    }
    proof {
        assert(out@ =~= old(out)@ + spec_velocity_csv(notes@, i as int));
    }
}

/// The bytes of `{"type":"clear"}`.
pub open spec fn spec_lit_clear_msg() -> Seq<u8> {
    seq![123u8, 34, 116, 121, 112, 101, 34, 58, 34, 99, 108, 101, 97, 114, 34, 125]
}

/// The bytes of `{"type":"set_pattern","notes":[`.
pub open spec fn spec_lit_sp_head() -> Seq<u8> {
    seq![
        123u8, 34, 116, 121, 112, 101, 34, 58, 34, 115, 101, 116, 95, 112, 97, 116, 116, 101, 114,
        110, 34, 44, 34, 110, 111, 116, 101, 115, 34, 58, 91,
    ]
}

/// The bytes of `],"durations":[`.
pub open spec fn spec_lit_mid_durations() -> Seq<u8> {
    seq![93u8, 44, 34, 100, 117, 114, 97, 116, 105, 111, 110, 115, 34, 58, 91]
}

/// The bytes of `],"velocities":[`.
pub open spec fn spec_lit_mid_velocities() -> Seq<u8> {
    seq![93u8, 44, 34, 118, 101, 108, 111, 99, 105, 116, 105, 101, 115, 34, 58, 91]
}

/// The bytes of `]}`.
pub open spec fn spec_lit_sp_tail() -> Seq<u8> {
    seq![93u8, 125]
}

/// The canonical encoding of a command: the exact byte shape this
/// codec's decoder accepts back.
pub open spec fn spec_encode_command(c: CommandView) -> Seq<u8> {
    match c {
        CommandView::Clear => spec_lit_clear_msg(),
        CommandView::SetPattern(notes) => spec_lit_sp_head() + spec_pitch_csv(notes, 0)
            + spec_lit_mid_durations() + spec_duration_csv(notes, 0) + spec_lit_mid_velocities()
            + spec_velocity_csv(notes, 0) + spec_lit_sp_tail(),
    }
}

/// Encode a command message: exactly [`spec_encode_command`] of it.
#[verifier::rlimit(100)]
pub fn encode_command(c: &Command) -> (out: Vec<u8>)
    ensures
        out@ == spec_encode_command(c@),
{
    let mut out: Vec<u8> = Vec::new();
    match c {
        Command::Clear => {
            out.push(123);
            out.push(34);
            out.push(116);
            out.push(121);
            out.push(112);
            out.push(101);
            out.push(34);
            out.push(58);
            out.push(34);
            out.push(99);
            out.push(108);
            out.push(101);
            out.push(97);
            out.push(114);
            out.push(34);
            out.push(125);
            proof {
                assert(out@ =~= spec_encode_command(c@));
            }
            out
        }
        Command::SetPattern(notes) => {
            out.push(123);
            out.push(34);
            out.push(116);
            out.push(121);
            out.push(112);
            out.push(101);
            out.push(34);
            out.push(58);
            out.push(34);
            out.push(115);
            out.push(101);
            out.push(116);
            out.push(95);
            out.push(112);
            out.push(97);
            out.push(116);
            out.push(116);
            out.push(101);
            out.push(114);
            out.push(110);
            out.push(34);
            out.push(44);
            out.push(34);
            out.push(110);
            out.push(111);
            out.push(116);
            out.push(101);
            out.push(115);
            out.push(34);
            out.push(58);
            out.push(91);
            proof {
                assert(out@ =~= spec_lit_sp_head());
            }
            push_pitch_csv(notes, 0, &mut out);
            out.push(93);
            out.push(44);
            out.push(34);
            out.push(100);
            out.push(117);
            out.push(114);
            out.push(97);
            out.push(116);
            out.push(105);
            out.push(111);
            out.push(110);
            out.push(115);
            out.push(34);
            out.push(58);
            out.push(91);
            proof {
                assert(out@ =~= spec_lit_sp_head() + spec_pitch_csv(notes@, 0)
                    + spec_lit_mid_durations());
            }
            push_duration_csv(notes, 0, &mut out);
            out.push(93);
            out.push(44);
            out.push(34);
            out.push(118);
            out.push(101);
            out.push(108);
            out.push(111);
            out.push(99);
            out.push(105);
            out.push(116);
            out.push(105);
            out.push(101);
            out.push(115);
            out.push(34);
            out.push(58);
            out.push(91);
            proof {
                assert(out@ =~= spec_lit_sp_head() + spec_pitch_csv(notes@, 0)
                    + spec_lit_mid_durations() + spec_duration_csv(notes@, 0)
                    + spec_lit_mid_velocities());
            }
            push_velocity_csv(notes, 0, &mut out);
            out.push(93);
            out.push(125);
            proof {
                assert(out@ =~= spec_encode_command(c@));
            }
            out
        }
    }
}

/// The bytes of `true` or `false`.
pub open spec fn spec_bool_dec(b: bool) -> Seq<u8> {
    if b {
        seq![116u8, 114, 117, 101]
    } else {
        seq![102u8, 97, 108, 115, 101]
    }
}

/// The bytes of `{"type":"transport","playing":`.
pub open spec fn spec_lit_st_head() -> Seq<u8> {
    seq![
        123u8, 34, 116, 121, 112, 101, 34, 58, 34, 116, 114, 97, 110, 115, 112, 111, 114, 116, 34,
        44, 34, 112, 108, 97, 121, 105, 110, 103, 34, 58,
    ]
}

/// The bytes of `,"tempo":`.
pub open spec fn spec_lit_st_tempo() -> Seq<u8> {
    seq![44u8, 34, 116, 101, 109, 112, 111, 34, 58]
}

/// The bytes of `,"time_sig_num":`.
pub open spec fn spec_lit_st_num() -> Seq<u8> {
    seq![44u8, 34, 116, 105, 109, 101, 95, 115, 105, 103, 95, 110, 117, 109, 34, 58]
}

/// The bytes of `,"time_sig_denom":`.
pub open spec fn spec_lit_st_denom() -> Seq<u8> {
    seq![44u8, 34, 116, 105, 109, 101, 95, 115, 105, 103, 95, 100, 101, 110, 111, 109, 34, 58]
}

/// The bytes of `,"position_beats":`.
pub open spec fn spec_lit_st_pos() -> Seq<u8> {
    seq![44u8, 34, 112, 111, 115, 105, 116, 105, 111, 110, 95, 98, 101, 97, 116, 115, 34, 58]
}

/// The canonical encoding of a status message reporting a transport
/// snapshot to network peers.
pub open spec fn spec_encode_status(t: crate::engine::TransportSnapshot) -> Seq<u8> {
    spec_lit_st_head() + spec_bool_dec(t.playing) + spec_lit_st_tempo() + spec_micro_dec(
        t.tempo_microbpm,
    ) + spec_lit_st_num() + spec_u64_dec(t.time_sig_num as int) + spec_lit_st_denom()
        + spec_u64_dec(t.time_sig_denom as int) + spec_lit_st_pos() + spec_micro_dec(
        t.position_microbeats,
    ) + seq![125u8]
}

/// Encode a status message: exactly [`spec_encode_status`] of the
/// snapshot. Emitting it is a capability the core exposes; it schedules
/// nothing itself.
#[verifier::rlimit(100)]
pub fn encode_status(t: &crate::engine::TransportSnapshot) -> (out: Vec<u8>)
    ensures
        out@ == spec_encode_status(*t),
{
    let mut out: Vec<u8> = Vec::new();
    out.push(123);
    out.push(34);
    out.push(116);
    out.push(121);
    out.push(112);
    out.push(101);
    out.push(34);
    out.push(58);
    out.push(34);
    out.push(116);
    out.push(114);
    out.push(97);
    out.push(110);
    out.push(115);
    out.push(112);
    out.push(111);
    out.push(114);
    out.push(116);
    out.push(34);
    out.push(44);
    out.push(34);
    out.push(112);
    out.push(108);
    out.push(97);
    out.push(121);
    out.push(105);
    out.push(110);
    out.push(103);
    out.push(34);
    out.push(58);
    if t.playing {
        out.push(116);
        out.push(114);
        out.push(117);
        out.push(101);
    } else {
        out.push(102);
        out.push(97);
        out.push(108);
        out.push(115);
        out.push(101);
    }
    proof {
        assert(out@ =~= spec_lit_st_head() + spec_bool_dec(t.playing));
    }
    out.push(44);
    out.push(34);
    out.push(116);
    out.push(101);
    out.push(109);
    out.push(112);
    out.push(111);
    out.push(34);
    out.push(58);
    push_micro_dec(t.tempo_microbpm, &mut out);
    proof {
        assert(out@ =~= spec_lit_st_head() + spec_bool_dec(t.playing) + spec_lit_st_tempo()
            + spec_micro_dec(t.tempo_microbpm));
    }
    out.push(44);
    out.push(34);
    out.push(116);
    out.push(105);
    out.push(109);
    out.push(101);
    out.push(95);
    out.push(115);
    out.push(105);
    out.push(103);
    out.push(95);
    out.push(110);
    out.push(117);
    out.push(109);
    out.push(34);
    out.push(58);
    push_u64_dec(t.time_sig_num as u64, &mut out);
    proof {
        assert(out@ =~= spec_lit_st_head() + spec_bool_dec(t.playing) + spec_lit_st_tempo()
            + spec_micro_dec(t.tempo_microbpm) + spec_lit_st_num() + spec_u64_dec(
            t.time_sig_num as int,
        ));
    }
    out.push(44);
    out.push(34);
    out.push(116);
    out.push(105);
    out.push(109);
    out.push(101);
    out.push(95);
    out.push(115);
    out.push(105);
    out.push(103);
    out.push(95);
    out.push(100);
    out.push(101);
    out.push(110);
    out.push(111);
    out.push(109);
    out.push(34);
    out.push(58);
    push_u64_dec(t.time_sig_denom as u64, &mut out);
    proof {
        assert(out@ =~= spec_lit_st_head() + spec_bool_dec(t.playing) + spec_lit_st_tempo()
            + spec_micro_dec(t.tempo_microbpm) + spec_lit_st_num() + spec_u64_dec(
            t.time_sig_num as int,
        ) + spec_lit_st_denom() + spec_u64_dec(t.time_sig_denom as int));
    }
    out.push(44);
    out.push(34);
    out.push(112);
    out.push(111);
    out.push(115);
    out.push(105);
    out.push(116);
    out.push(105);
    out.push(111);
    out.push(110);
    out.push(95);
    out.push(98);
    out.push(101);
    out.push(97);
    out.push(116);
    out.push(115);
    out.push(34);
    out.push(58);
    push_micro_dec(t.position_microbeats, &mut out);
    out.push(125);
    proof {
        assert(out@ =~= spec_encode_status(*t));
    }
    out
}

} // verus!
