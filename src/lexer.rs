//! Insignificant text (whitespace and the two comment styles) and the atomic
//! tokens: integers, identifiers and keys.
//!
//! Every rule is a spec function from the remaining input to a value and the
//! input left after it; every executable scanner works on a byte slice and a
//! position and is proved to agree with its rule on the input from that position.

use crate::types::{Key, KeyV, ParseError};
use vstd::prelude::*;

verus! {

/// The input from position `i` on.
pub open spec fn at(s: Seq<u8>, i: int) -> Seq<u8> {
    s.subrange(i, s.len() as int)
}

pub open spec fn is_ws(b: u8) -> bool {
    b == 32 || b == 9 || b == 13 || b == 10
}

pub open spec fn is_digit(b: u8) -> bool {
    48 <= b <= 57
}

pub open spec fn is_ident_byte(b: u8) -> bool {
    is_digit(b) || (65 <= b <= 90) || (97 <= b <= 122) || b == 95
}

/// The characters of a run of ASCII bytes.
pub open spec fn chars_of(b: Seq<u8>) -> Seq<char> {
    b.map_values(|x: u8| x as char)
}

/// Where the skipper stands: in code, inside a line comment, or inside a block comment.
#[derive(Clone, Copy, PartialEq, Eq, Structural)]
pub enum Mode {
    Code,
    Line,
    Block,
}

/// Skipping insignificant text in mode `m`: whitespace, `//` up to and
/// including the end of the line (or of the input), and `/*` up to and
/// including the first `*/` after it. A block comment that never closes is an error.
pub open spec fn skip_in(t: Seq<u8>, m: Mode) -> Result<Seq<u8>, ParseError>
    decreases t.len(),
{
    match m {
        Mode::Code => {
            if t.len() > 0 && is_ws(t[0]) {
                skip_in(at(t, 1), Mode::Code)
            } else if t.len() >= 2 && t[0] == 47 && t[1] == 47 {
                skip_in(at(t, 2), Mode::Line)
            } else if t.len() >= 2 && t[0] == 47 && t[1] == 42 {
                skip_in(at(t, 2), Mode::Block)
            } else {
                Ok(t)
            }
        },
        Mode::Line => {
            if t.len() == 0 {
                Ok(t)
            } else if t[0] == 10 {
                skip_in(at(t, 1), Mode::Code)
            } else {
                skip_in(at(t, 1), Mode::Line)
            }
        },
        Mode::Block => {
            if t.len() < 2 {
                Err(ParseError::UnterminatedComment)
            } else if t[0] == 42 && t[1] == 47 {
                skip_in(at(t, 2), Mode::Code)
            } else {
                skip_in(at(t, 1), Mode::Block)
            }
        },
    }
}

/// The input left after the insignificant text at its start.
pub open spec fn skip(t: Seq<u8>) -> Result<Seq<u8>, ParseError> {
    skip_in(t, Mode::Code)
}

/// `r` is the executable form of the spec result `sr` over input `s`: the same
/// error, or a position whose remaining input is the spec's.
pub open spec fn agrees_pos(s: Seq<u8>, sr: Result<Seq<u8>, ParseError>, r: Result<usize, ParseError>) -> bool {
    match sr {
        Ok(t) => match r {
            Ok(j) => j <= s.len() && t == at(s, j as int),
            Err(_) => false,
        },
        Err(e) => r == Err::<usize, ParseError>(e),
    }
}

pub proof fn lemma_at_at(s: Seq<u8>, i: int, k: int)
    requires
        0 <= i,
        0 <= k,
        i + k <= s.len(),
    ensures
        at(at(s, i), k) == at(s, i + k),
        at(s, i).len() == s.len() - i,
        k < s.len() - i ==> at(s, i)[k] == s[i + k],
{
    assert(at(at(s, i), k) =~= at(s, i + k));
}

/// Moves past the insignificant text that starts at `i`.
pub fn skip_from(s: &[u8], i: usize) -> (r: Result<usize, ParseError>)
    requires
        i <= s@.len(),
    ensures
        agrees_pos(s@, skip(at(s@, i as int)), r),
        r matches Ok(j) ==> i <= j,
{
    let n = s.len();
    let mut j = i;
    let mut m = Mode::Code;
    loop
        invariant
            i <= j <= n,
            n == s@.len(),
            skip_in(at(s@, j as int), m) == skip(at(s@, i as int)),
        decreases n - j,
    {
        proof {
            lemma_at_at(s@, j as int, 0);
            if j + 1 <= n {
                lemma_at_at(s@, j as int, 1);
            }
            if j + 2 <= n {
                lemma_at_at(s@, j as int, 2);
            }
        }
        match m {
            Mode::Code => {
                if j < n && (s[j] == 32 || s[j] == 9 || s[j] == 13 || s[j] == 10) {
                    j = j + 1;
                } else if n - j >= 2 && s[j] == 47 && s[j + 1] == 47 {
                    j = j + 2;
                    m = Mode::Line;
                } else if n - j >= 2 && s[j] == 47 && s[j + 1] == 42 {
                    j = j + 2;
                    m = Mode::Block;
                } else {
                    return Ok(j);
                }
            },
            Mode::Line => {
                if j == n {
                    return Ok(j);
                } else if s[j] == 10 {
                    j = j + 1;
                    m = Mode::Code;
                } else {
                    j = j + 1;
                }
            },
            Mode::Block => {
                if n - j < 2 {
                    return Err(ParseError::UnterminatedComment);
                } else if s[j] == 42 && s[j + 1] == 47 {
                    j = j + 2;
                    m = Mode::Code;
                } else {
                    j = j + 1;
                }
            },
        }
    }
}


/// `r` is the executable form of the spec result `sr` over input `s`: the same
/// error, or a value whose view is the spec's and a position whose remaining
/// input is the spec's.
pub open spec fn agrees<T: View>(
    s: Seq<u8>,
    sr: Result<(T::V, Seq<u8>), ParseError>,
    r: Result<(T, usize), ParseError>,
) -> bool {
    match sr {
        Ok((v, t)) => match r {
            Ok((x, j)) => x@ == v && j <= s.len() && t == at(s, j as int),
            Err(_) => false,
        },
        Err(e) => match r {
            Ok(_) => false,
            Err(e2) => e2 == e,
        },
    }
}

/// The number of digits at the start of `t`.
pub open spec fn digit_run(t: Seq<u8>) -> nat
    decreases t.len(),
{
    if t.len() > 0 && is_digit(t[0]) {
        1 + digit_run(at(t, 1))
    } else {
        0
    }
}

/// The number of identifier bytes at the start of `t`.
pub open spec fn ident_run(t: Seq<u8>) -> nat
    decreases t.len(),
{
    if t.len() > 0 && is_ident_byte(t[0]) {
        1 + ident_run(at(t, 1))
    } else {
        0
    }
}

/// The base-10 value of a run of digits.
pub open spec fn decimal_value(d: Seq<u8>) -> nat
    decreases d.len(),
{
    if d.len() == 0 {
        0
    } else {
        (decimal_value(d.subrange(0, d.len() - 1)) * 10 + (d.last() - 48)) as nat
    }
}

/// An unsigned integer: `0`, or a nonzero digit followed by digits. A zero
/// followed by more digits, or a value beyond 64 bits, is an invalid integer.
pub open spec fn integer_raw(t: Seq<u8>) -> Result<(u64, Seq<u8>), ParseError> {
    let n = digit_run(t);
    if n == 0 {
        Err(ParseError::Syntax)
    } else if t[0] == 48 && n > 1 {
        Err(ParseError::InvalidInteger)
    } else if decimal_value(t.subrange(0, n as int)) > u64::MAX {
        Err(ParseError::InvalidInteger)
    } else {
        Ok((decimal_value(t.subrange(0, n as int)) as u64, at(t, n as int)))
    }
}

/// An integer after insignificant text.
pub open spec fn integer(t: Seq<u8>) -> Result<(u64, Seq<u8>), ParseError> {
    match skip(t) {
        Ok(r) => integer_raw(r),
        Err(e) => Err(e),
    }
}

/// An identifier (one or more of `A-Z a-z 0-9 _`) after insignificant text.
pub open spec fn word(t: Seq<u8>) -> Result<(Seq<u8>, Seq<u8>), ParseError> {
    match skip(t) {
        Ok(r) => {
            let n = ident_run(r);
            if n == 0 {
                Err(ParseError::Syntax)
            } else {
                Ok((r.subrange(0, n as int), at(r, n as int)))
            }
        },
        Err(e) => Err(e),
    }
}

/// A key: `FN` directly followed by a digit starts a functional key, whose
/// number is an integer; otherwise an identifier is a named key.
pub open spec fn key_raw(t: Seq<u8>) -> Result<(KeyV, Seq<u8>), ParseError> {
    if t.len() >= 3 && t[0] == 70 && t[1] == 78 && is_digit(t[2]) {
        match integer_raw(at(t, 2)) {
            Ok((n, r)) => Ok((KeyV::Fx(n), r)),
            Err(e) => Err(e),
        }
    } else {
        let n = ident_run(t);
        if n == 0 {
            Err(ParseError::Syntax)
        } else {
            Ok((KeyV::Named(chars_of(t.subrange(0, n as int))), at(t, n as int)))
        }
    }
}

/// A key after insignificant text.
pub open spec fn key(t: Seq<u8>) -> Result<(KeyV, Seq<u8>), ParseError> {
    match skip(t) {
        Ok(r) => key_raw(r),
        Err(e) => Err(e),
    }
}

pub proof fn lemma_digit_run(t: Seq<u8>, k: int)
    requires
        0 <= k <= t.len(),
        forall|m: int| 0 <= m < k ==> is_digit(#[trigger] t[m]),
        k == t.len() || !is_digit(t[k]),
    ensures
        digit_run(t) == k,
    decreases k,
{
    if k > 0 {
        lemma_at_at(t, 1, 0);
        assert forall|m: int| 0 <= m < k - 1 implies is_digit(#[trigger] at(t, 1)[m]) by {
            assert(at(t, 1)[m] == t[m + 1]);
        }
        if k < t.len() {
            assert(at(t, 1)[k - 1] == t[k]);
        }
        lemma_digit_run(at(t, 1), k - 1);
    }
}

pub proof fn lemma_ident_run(t: Seq<u8>, k: int)
    requires
        0 <= k <= t.len(),
        forall|m: int| 0 <= m < k ==> is_ident_byte(#[trigger] t[m]),
        k == t.len() || !is_ident_byte(t[k]),
    ensures
        ident_run(t) == k,
    decreases k,
{
    if k > 0 {
        lemma_at_at(t, 1, 0);
        assert forall|m: int| 0 <= m < k - 1 implies is_ident_byte(#[trigger] at(t, 1)[m]) by {
            assert(at(t, 1)[m] == t[m + 1]);
        }
        if k < t.len() {
            assert(at(t, 1)[k - 1] == t[k]);
        }
        lemma_ident_run(at(t, 1), k - 1);
    }
}

/// A longer run of digits never has a smaller value.
pub proof fn lemma_decimal_monotone(d: Seq<u8>, k: int)
    requires
        0 <= k <= d.len(),
        forall|m: int| 0 <= m < d.len() ==> is_digit(#[trigger] d[m]),
    ensures
        decimal_value(d.subrange(0, k)) <= decimal_value(d),
    decreases d.len() - k,
{
    if k < d.len() {
        let p = d.subrange(0, d.len() - 1);
        assert(p.subrange(0, k) =~= d.subrange(0, k));
        lemma_decimal_monotone(p, k);
        assert(d.subrange(0, d.len() as int) =~= d);
    } else {
        assert(d.subrange(0, k) =~= d);
    }
}

/// The end of the run of bytes of one class that starts at `i`.
fn digits_end(s: &[u8], i: usize) -> (j: usize)
    requires
        i <= s@.len(),
    ensures
        i <= j <= s@.len(),
        j - i == digit_run(at(s@, i as int)),
        forall|m: int| i <= m < j ==> is_digit(#[trigger] s@[m]),
{
    let n = s.len();
    let mut j = i;
    while j < n && 48 <= s[j] && s[j] <= 57
        invariant
            i <= j <= n,
            n == s@.len(),
            forall|m: int| i <= m < j ==> is_digit(#[trigger] s@[m]),
        decreases n - j,
    {
        j = j + 1;
    }
    proof {
        let t = at(s@, i as int);
        assert forall|m: int| 0 <= m < j - i implies is_digit(#[trigger] t[m]) by {
            assert(t[m] == s@[i + m]);
        }
        if j < n {
            assert(t[j - i] == s@[j as int]);
        }
        lemma_digit_run(t, j - i);
    }
    j
}

fn ident_end(s: &[u8], i: usize) -> (j: usize)
    requires
        i <= s@.len(),
    ensures
        i <= j <= s@.len(),
        j - i == ident_run(at(s@, i as int)),
        forall|m: int| i <= m < j ==> is_ident_byte(#[trigger] s@[m]),
{
    let n = s.len();
    let mut j = i;
    while j < n && ((48 <= s[j] && s[j] <= 57) || (65 <= s[j] && s[j] <= 90) || (97 <= s[j]
        && s[j] <= 122) || s[j] == 95)
        invariant
            i <= j <= n,
            n == s@.len(),
            forall|m: int| i <= m < j ==> is_ident_byte(#[trigger] s@[m]),
        decreases n - j,
    {
        j = j + 1;
    }
    proof {
        let t = at(s@, i as int);
        assert forall|m: int| 0 <= m < j - i implies is_ident_byte(#[trigger] t[m]) by {
            assert(t[m] == s@[i + m]);
        }
        if j < n {
            assert(t[j - i] == s@[j as int]);
        }
        lemma_ident_run(t, j - i);
    }
    j
}

/// Reads the integer that starts exactly at `i`.
pub fn integer_raw_at(s: &[u8], i: usize) -> (r: Result<(u64, usize), ParseError>)
    requires
        i <= s@.len(),
    ensures
        agrees(s@, integer_raw(at(s@, i as int)), r),
{
    let ghost t = at(s@, i as int);
    let e = digits_end(s, i);
    if e == i {
        return Err(ParseError::Syntax);
    }
    proof {
        assert(t[0] == s@[i as int]);
    }
    if s[i] == 48 && e - i > 1 {
        return Err(ParseError::InvalidInteger);
    }
    let ghost d = t.subrange(0, e - i);
    proof {
        assert(d =~= s@.subrange(i as int, e as int));
    }
    let mut v: u64 = 0;
    let mut j = i;
    while j < e
        invariant
            i <= j <= e <= s@.len(),
            d == s@.subrange(i as int, e as int),
            d == at(s@, i as int).subrange(0, e - i),
            e - i == digit_run(at(s@, i as int)),
            !(s@[i as int] == 48 && e - i > 1),
            at(s@, i as int)[0] == s@[i as int],
            forall|m: int| i <= m < e ==> is_digit(#[trigger] s@[m]),
            v as nat == decimal_value(s@.subrange(i as int, j as int)),
        decreases e - j,
    {
        let c = s[j] - 48;
        let dv = c as u64;
        proof {
            let p = s@.subrange(i as int, j + 1);
            assert(p.subrange(0, p.len() - 1) =~= s@.subrange(i as int, j as int));
            assert(p.last() == s@[j as int]);
        }
        if v > (u64::MAX - dv) / 10 {
            proof {
                assert(v * 10 + dv > u64::MAX) by (nonlinear_arith)
                    requires
                        v > (u64::MAX - dv) / 10,
                        dv <= 9,
                ;
                assert forall|m: int| 0 <= m < d.len() implies is_digit(#[trigger] d[m]) by {
                    assert(d[m] == s@[i + m]);
                }
                assert(d.subrange(0, j + 1 - i) =~= s@.subrange(i as int, j + 1));
                lemma_decimal_monotone(d, j + 1 - i);
                assert(decimal_value(s@.subrange(i as int, j + 1)) == v * 10 + dv);
                assert(decimal_value(d) > u64::MAX);
            }
            return Err(ParseError::InvalidInteger);
        }
        proof {
            assert(v * 10 + dv <= u64::MAX) by (nonlinear_arith)
                requires
                    v <= (u64::MAX - dv) / 10,
                    dv <= 9,
            ;
        }
        v = v * 10 + dv;
        j = j + 1;
    }
    proof {
        lemma_at_at(s@, i as int, e - i);
    }
    Ok((v, e))
}

/// Reads the identifier that starts exactly at `i`, as the positions it spans.
pub fn ident_span(s: &[u8], i: usize) -> (r: Result<usize, ParseError>)
    requires
        i <= s@.len(),
    ensures
        match r {
            Ok(e) => i < e <= s@.len() && e - i == ident_run(at(s@, i as int)),
            Err(err) => err == ParseError::Syntax && ident_run(at(s@, i as int)) == 0,
        },
        r matches Ok(e) ==> forall|m: int| i <= m < e ==> is_ident_byte(#[trigger] s@[m]),
{
    let e = ident_end(s, i);
    if e == i {
        Err(ParseError::Syntax)
    } else {
        Ok(e)
    }
}

/// Relies on `String::from_utf8`: ASCII bytes are valid UTF-8, and each one
/// becomes the character with the same code.
#[verifier::external_body]
fn ascii_string(s: &[u8], a: usize, b: usize) -> (r: String)
    requires
        a <= b <= s@.len(),
        forall|m: int| a <= m < b ==> #[trigger] s@[m] < 128,
    ensures
        r@ == chars_of(s@.subrange(a as int, b as int)),
{
    String::from_utf8(s[a..b].to_vec()).unwrap_or_default()
}

/// The identifier that starts exactly at `i`, as a string, and where it ends.
pub fn name_at(s: &[u8], i: usize) -> (r: Result<(String, usize), ParseError>)
    requires
        i <= s@.len(),
    ensures
        match r {
            Ok((w, e)) => i < e <= s@.len() && e - i == ident_run(at(s@, i as int))
                && w@ == chars_of(s@.subrange(i as int, e as int)),
            Err(err) => err == ParseError::Syntax && ident_run(at(s@, i as int)) == 0,
        },
{
    let e = ident_span(s, i)?;
    let w = ascii_string(s, i, e);
    Ok((w, e))
}

/// Reads the key that starts exactly at `i`.
pub fn key_raw_at(s: &[u8], i: usize) -> (r: Result<(Key, usize), ParseError>)
    requires
        i <= s@.len(),
    ensures
        agrees(s@, key_raw(at(s@, i as int)), r),
{
    let ghost t = at(s@, i as int);
    let n = s.len();
    proof {
        lemma_at_at(s@, i as int, 0);
    }
    if n - i >= 3 && s[i] == 70 && s[i + 1] == 78 && 48 <= s[i + 2] && s[i + 2] <= 57 {
        proof {
            lemma_at_at(s@, i as int, 2);
        }
        let (v, e) = integer_raw_at(s, i + 2)?;
        Ok((Key::Fx(v), e))
    } else {
        let (w, e) = name_at(s, i)?;
        proof {
            assert(t.subrange(0, e - i) =~= s@.subrange(i as int, e as int));
            lemma_at_at(s@, i as int, e - i);
        }
        Ok((Key::Key(w), e))
    }
}

/// Reads the key that follows the insignificant text at `i`.
pub fn key_at(s: &[u8], i: usize) -> (r: Result<(Key, usize), ParseError>)
    requires
        i <= s@.len(),
    ensures
        agrees(s@, key(at(s@, i as int)), r),
{
    let j = skip_from(s, i)?;
    key_raw_at(s, j)
}


/// Skipping never lengthens the input.
pub proof fn lemma_skip_shorter(t: Seq<u8>, m: Mode)
    ensures
        skip_in(t, m) matches Ok(r) ==> r.len() <= t.len(),
    decreases t.len(),
{
    match m {
        Mode::Code => {
            if t.len() > 0 && is_ws(t[0]) {
                lemma_skip_shorter(at(t, 1), Mode::Code);
            } else if t.len() >= 2 && t[0] == 47 && t[1] == 47 {
                lemma_skip_shorter(at(t, 2), Mode::Line);
            } else if t.len() >= 2 && t[0] == 47 && t[1] == 42 {
                lemma_skip_shorter(at(t, 2), Mode::Block);
            }
        },
        Mode::Line => {
            if t.len() > 0 {
                if t[0] == 10 {
                    lemma_skip_shorter(at(t, 1), Mode::Code);
                } else {
                    lemma_skip_shorter(at(t, 1), Mode::Line);
                }
            }
        },
        Mode::Block => {
            if t.len() >= 2 {
                if t[0] == 42 && t[1] == 47 {
                    lemma_skip_shorter(at(t, 2), Mode::Code);
                } else {
                    lemma_skip_shorter(at(t, 1), Mode::Block);
                }
            }
        },
    }
}

pub proof fn lemma_runs_bounded(t: Seq<u8>)
    ensures
        digit_run(t) <= t.len(),
        ident_run(t) <= t.len(),
    decreases t.len(),
{
    if t.len() > 0 {
        lemma_runs_bounded(at(t, 1));
    }
}

/// A key, a word or an integer that is read consumes input.
pub proof fn lemma_tokens_shorter(t: Seq<u8>)
    ensures
        integer_raw(t) matches Ok((_, r)) ==> r.len() < t.len(),
        key_raw(t) matches Ok((_, r)) ==> r.len() < t.len(),
        integer(t) matches Ok((_, r)) ==> r.len() < t.len(),
        key(t) matches Ok((_, r)) ==> r.len() < t.len(),
        word(t) matches Ok((_, r)) ==> r.len() < t.len(),
{
    lemma_runs_bounded(t);
    if t.len() >= 2 {
        lemma_runs_bounded(at(t, 2));
    }
    lemma_skip_shorter(t, Mode::Code);
    if let Ok(r) = skip(t) {
        lemma_runs_bounded(r);
        if r.len() >= 2 {
            lemma_runs_bounded(at(r, 2));
        }
    }
}

} // verus!
