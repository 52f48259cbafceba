//! Byte-level lexing shared by the wire codec and the command-line
//! grammar: whitespace runs, digit runs, bounded decimal values, decimal
//! beat numbers at micro-beat resolution, and quoted strings.
//!
//! Every executable function here returns exactly what its spec-level
//! counterpart denotes, so the parsers built on top can be specified as
//! pure functions of the input bytes.

use vstd::prelude::*;

verus! {

/// Largest whole-beat count a decimal beat number may carry: above this,
/// scaling to micro-beats would overflow the 64-bit fixed point.
pub const MAX_WHOLE_BEATS: u64 = 18_446_744_073_708;

/// JSON whitespace.
pub open spec fn is_ws(b: u8) -> bool {
    b == 32 || b == 9 || b == 10 || b == 13
}

/// ASCII decimal digit.
pub open spec fn is_digit(b: u8) -> bool {
    48 <= b <= 57
}

/// First index at or after `i` holding a non-whitespace byte (or the end).
pub open spec fn spec_skip_ws(s: Seq<u8>, i: int) -> int
    decreases s.len() - i when 0 <= i <= s.len()
{
    if i < s.len() && is_ws(s[i]) {
        spec_skip_ws(s, i + 1)
    } else {
        i
    }
}

pub proof fn lemma_skip_ws_bounds(s: Seq<u8>, i: int)
    requires
        0 <= i <= s.len(),
    ensures
        i <= spec_skip_ws(s, i) <= s.len(),
    decreases s.len() - i,
{
    if i < s.len() && is_ws(s[i]) {
        lemma_skip_ws_bounds(s, i + 1);
    }
}

/// Exec counterpart of [`spec_skip_ws`].
pub(crate) fn skip_ws(s: &Vec<u8>, i: usize) -> (r: usize)
    requires
        i <= s@.len(),
    ensures
        r == spec_skip_ws(s@, i as int),
        i <= r <= s@.len(),
    decreases s@.len() - i,
{
    if i < s.len() && (s[i] == 32 || s[i] == 9 || s[i] == 10 || s[i] == 13) {
        skip_ws(s, i + 1)
    } else {
        i
    }
}

/// First index at or after `i` holding a non-digit byte (or the end).
pub open spec fn spec_digits_end(s: Seq<u8>, i: int) -> int
    decreases s.len() - i when 0 <= i <= s.len()
{
    if i < s.len() && is_digit(s[i]) {
        spec_digits_end(s, i + 1)
    } else {
        i
    }
}

pub proof fn lemma_digits_end_bounds(s: Seq<u8>, i: int)
    requires
        0 <= i <= s.len(),
    ensures
        i <= spec_digits_end(s, i) <= s.len(),
        forall|k: int| i <= k < spec_digits_end(s, i) ==> is_digit(s[k]),
    decreases s.len() - i,
{
    if i < s.len() && is_digit(s[i]) {
        lemma_digits_end_bounds(s, i + 1);
    }
}

/// Exec counterpart of [`spec_digits_end`].
pub(crate) fn digits_end(s: &Vec<u8>, i: usize) -> (r: usize)
    requires
        i <= s@.len(),
    ensures
        r == spec_digits_end(s@, i as int),
        i <= r <= s@.len(),
    decreases s@.len() - i,
{
    if i < s.len() && 48 <= s[i] && s[i] <= 57 {
        digits_end(s, i + 1)
    } else {
        i
    }
}

/// Value of the digit run `s[i..j)`, read most significant first.
pub open spec fn spec_digits_val(s: Seq<u8>, i: int, j: int) -> int
    decreases j - i when i <= j
{
    if i < j {
        spec_digits_val(s, i, j - 1) * 10 + (s[j - 1] - 48)
    } else {
        0
    }
}

pub proof fn lemma_digits_val_bounds(s: Seq<u8>, i: int, j: int)
    requires
        0 <= i <= j <= s.len(),
        forall|k: int| i <= k < j ==> is_digit(s[k]),
    ensures
        0 <= spec_digits_val(s, i, j) < spec_pow10((j - i) as nat),
    decreases j - i,
{
    reveal_with_fuel(spec_pow10, 2);
    if i < j {
        lemma_digits_val_bounds(s, i, j - 1);
    }
}

/// Powers of ten, for bounding digit runs.
pub open spec fn spec_pow10(n: nat) -> int
    decreases n,
{
    if n == 0 {
        1
    } else {
        10 * spec_pow10((n - 1) as nat)
    }
}

/// Exec counterpart of [`spec_digits_val`], refusing values above `bound`:
/// `None` exactly when the run's value exceeds it.
pub(crate) fn digits_val_checked(s: &Vec<u8>, i: usize, j: usize, bound: u64) -> (r: Option<u64>)
    requires
        i <= j <= s@.len(),
        forall|k: int| i <= k < j ==> is_digit(s@[k]),
    ensures
        match r {
            Some(v) => v as int == spec_digits_val(s@, i as int, j as int) && v <= bound,
            None => spec_digits_val(s@, i as int, j as int) > bound,
        },
    decreases j - i,
{
    if j == i {
        Some(0)
    } else {
        proof {
            lemma_digits_val_bounds(s@, i as int, j as int - 1);
        }
        match digits_val_checked(s, i, j - 1, bound) {
            None => None,
            Some(hi) => {
                let d: u64 = (s[j - 1] - 48) as u64;
                if hi > bound / 10 {
                    None
                } else {
                    let p: u64 = hi * 10;
                    if d > bound - p {
                        None
                    } else {
                        Some(p + d)
                    }
                }
            }
        }
    }
}

/// Scale factor that brings a fraction of `len` digits to six places.
pub open spec fn spec_frac_scale(len: int) -> int {
    if len == 1 {
        100_000
    } else if len == 2 {
        10_000
    } else if len == 3 {
        1_000
    } else if len == 4 {
        100
    } else if len == 5 {
        10
    } else {
        1
    }
}

/// Micro-beat value of the fraction digits `s[i..k)`: only the first six
/// digits carry weight at this resolution; anything finer is truncated.
pub open spec fn spec_frac_micro(s: Seq<u8>, i: int, k: int) -> int {
    let end = if k > i + 6 { i + 6 } else { k };
    spec_digits_val(s, i, end) * spec_frac_scale(end - i)
}

pub proof fn lemma_frac_micro_bounds(s: Seq<u8>, i: int, k: int)
    requires
        0 <= i < k <= s.len(),
        forall|m: int| i <= m < k ==> is_digit(s[m]),
    ensures
        0 <= spec_frac_micro(s, i, k) < 1_000_000,
{
    let end = if k > i + 6 { i + 6 } else { k };
    lemma_digits_val_bounds(s, i, end);
    reveal_with_fuel(spec_pow10, 8);
}

/// A decimal beat number at `i`: a digit run, optionally followed by a
/// point and another digit run, converted exactly to micro-beats (with
/// fraction digits past the sixth truncated). `Err` when no digit starts
/// at `i`, when the point is not followed by a digit, or when the whole
/// part exceeds [`MAX_WHOLE_BEATS`].
pub open spec fn spec_parse_micro(s: Seq<u8>, i: int) -> Result<(u64, int), ()> {
    let j = spec_digits_end(s, i);
    if j == i {
        Err(())
    } else if spec_digits_val(s, i, j) > MAX_WHOLE_BEATS {
        Err(())
    } else {
        let whole = spec_digits_val(s, i, j);
        if j < s.len() && s[j] == 46 {
            let k = spec_digits_end(s, j + 1);
            if k == j + 1 {
                Err(())
            } else {
                Ok(((whole * 1_000_000 + spec_frac_micro(s, j + 1, k)) as u64, k))
            }
        } else {
            Ok(((whole * 1_000_000) as u64, j))
        }
    }
}

pub proof fn lemma_parse_micro_bounds(s: Seq<u8>, i: int)
    requires
        0 <= i <= s.len(),
    ensures
        spec_parse_micro(s, i) matches Ok(v) ==> i < v.1 <= s.len(),
{
    lemma_digits_end_bounds(s, i);
    let j = spec_digits_end(s, i);
    if i < j && j < s.len() && s[j] == 46 {
        lemma_digits_end_bounds(s, j + 1);
    }
}

/// Exec counterpart of [`spec_parse_micro`].
pub(crate) fn parse_micro(s: &Vec<u8>, i: usize) -> (r: Result<(u64, usize), ()>)
    requires
        i <= s@.len(),
    ensures
        match r {
            Ok((v, j)) => spec_parse_micro(s@, i as int) == Ok::<_, ()>((v, j as int)) && i < j
                <= s@.len(),
            Err(e) => spec_parse_micro(s@, i as int) == Err::<(u64, int), ()>(()),
        },
{
    let j = digits_end(s, i);
    if j == i {
        return Err(());
    }
    proof {
        lemma_digits_end_bounds(s@, i as int);
    }
    let whole_opt = digits_val_checked(s, i, j, MAX_WHOLE_BEATS);
    match whole_opt {
        None => Err(()),
        Some(whole) => {
            if j < s.len() && s[j] == 46 {
                let k = digits_end(s, j + 1);
                if k == j + 1 {
                    return Err(());
                }
                proof {
                    lemma_digits_end_bounds(s@, j as int + 1);
                    lemma_frac_micro_bounds(s@, j as int + 1, k as int);
                }
                let end: usize = if k - j > 7 {
                    j + 7
                } else {
                    k
                };
                proof {
                    lemma_digits_val_bounds(s@, j as int + 1, end as int);
                    reveal_with_fuel(spec_pow10, 8);
                }
                match digits_val_checked(s, j + 1, end, 999_999) {
                    None => {
                        proof {
                            assert(false);
                        }
                        Err(())
                    }
                    Some(fv) => {
                        let flen: usize = end - (j + 1);
                        let scale: u64 = if flen == 1 {
                            100_000
                        } else if flen == 2 {
                            10_000
                        } else if flen == 3 {
                            1_000
                        } else if flen == 4 {
                            100
                        } else if flen == 5 {
                            10
                        } else {
                            1
                        };
                        let frac: u64 = fv * scale;
                        Ok((whole * 1_000_000 + frac, k))
                    }
                }
            } else {
                Ok((whole * 1_000_000, j))
            }
        }
    }
}

/// First index at or after `i` holding a quote or a backslash (or the
/// end). String contents run up to it; escapes are not part of this
/// codec's grammar.
pub open spec fn spec_str_end(s: Seq<u8>, i: int) -> int
    decreases s.len() - i when 0 <= i <= s.len()
{
    if i < s.len() && s[i] != 34 && s[i] != 92 {
        spec_str_end(s, i + 1)
    } else {
        i
    }
}

pub proof fn lemma_str_end_bounds(s: Seq<u8>, i: int)
    requires
        0 <= i <= s.len(),
    ensures
        i <= spec_str_end(s, i) <= s.len(),
    decreases s.len() - i,
{
    if i < s.len() && s[i] != 34 && s[i] != 92 {
        lemma_str_end_bounds(s, i + 1);
    }
}

/// Exec counterpart of [`spec_str_end`].
pub(crate) fn str_end(s: &Vec<u8>, i: usize) -> (r: usize)
    requires
        i <= s@.len(),
    ensures
        r == spec_str_end(s@, i as int),
        i <= r <= s@.len(),
    decreases s@.len() - i,
{
    if i < s.len() && s[i] != 34 && s[i] != 92 {
        str_end(s, i + 1)
    } else {
        i
    }
}

/// A quoted string at `i`: `Some((a, b))` gives the content bounds
/// `s[a..b)`; parsing resumes at `b + 1`. Escapes are not accepted.
pub open spec fn spec_parse_string(s: Seq<u8>, i: int) -> Option<(int, int)> {
    if i < s.len() && s[i] == 34 {
        let e = spec_str_end(s, i + 1);
        if e < s.len() && s[e] == 34 {
            Some((i + 1, e))
        } else {
            None
        }
    } else {
        None
    }
}

/// Exec counterpart of [`spec_parse_string`].
pub(crate) fn parse_string(s: &Vec<u8>, i: usize) -> (r: Option<(usize, usize)>)
    requires
        i <= s@.len(),
    ensures
        match r {
            Some((a, b)) => spec_parse_string(s@, i as int) == Some((a as int, b as int)) && i < a
                <= b < s@.len(),
            None => spec_parse_string(s@, i as int) is None,
        },
{
    if i < s.len() && s[i] == 34 {
        let e = str_end(s, i + 1);
        if e < s.len() && s[e] == 34 {
            Some((i + 1, e))
        } else {
            None
        }
    } else {
        None
    }
}

} // verus!
