//! The three token recognizers and the dispatcher that picks one of them.
//!
//! Every scanner works on the characters of the whole input and a start
//! offset, and reports the offset of the first character after the token.
use vstd::prelude::*;
use crate::classify::{is_alpha, is_alpha_numeric, is_digit, is_letter, is_letter_or_digit, is_numeric};

verus! {

/// Why scanning failed, with the character offset where it happened.
#[derive(Debug, Clone, Copy, PartialEq, Eq, Structural)]
pub enum LexError {
    /// The character at this offset is no letter, digit or `"`.
    UnrecognizedCharacter(usize),
    /// The decimal point at this offset is not followed by a digit.
    MalformedNumber(usize),
    /// The string literal opened by the quote at this offset is never closed.
    UnterminatedString(usize),
}

/// The end of the run of letters and digits that starts at `i`.
pub open spec fn letters_digits_end(s: Seq<char>, i: int) -> int
    decreases s.len() - i,
{
    if 0 <= i < s.len() && is_letter_or_digit(s[i]) {
        letters_digits_end(s, i + 1)
    } else {
        i
    }
}

/// The end of the run of digits that starts at `i`.
pub open spec fn digits_end(s: Seq<char>, i: int) -> int
    decreases s.len() - i,
{
    if 0 <= i < s.len() && is_digit(s[i]) {
        digits_end(s, i + 1)
    } else {
        i
    }
}

/// The offset of the first `"` at or after `i`, or the length of `s` if none.
pub open spec fn quote_from(s: Seq<char>, i: int) -> int
    decreases s.len() - i,
{
    if 0 <= i < s.len() && s[i] != '"' {
        quote_from(s, i + 1)
    } else {
        i
    }
}

/// Where the identifier that starts at `i` ends.
pub open spec fn ident_end(s: Seq<char>, i: int) -> int {
    letters_digits_end(s, i + 1)
}

/// Where the number that starts at `i` ends: its digits, and a decimal point
/// with further digits if one follows; a point with no digit after it fails.
pub open spec fn number_end(s: Seq<char>, i: int) -> Result<int, LexError> {
    let j = digits_end(s, i + 1);
    if j < s.len() && s[j] == '.' {
        if j + 1 < s.len() && is_digit(s[j + 1]) {
            Ok(digits_end(s, j + 2))
        } else {
            Err(LexError::MalformedNumber(j as usize))
        }
    } else {
        Ok(j)
    }
}

/// Where the string literal that starts at `i` ends: just past the next `"`.
pub open spec fn string_end(s: Seq<char>, i: int) -> Result<int, LexError> {
    let q = quote_from(s, i + 1);
    if q < s.len() {
        Ok(q + 1)
    } else {
        Err(LexError::UnterminatedString(i as usize))
    }
}

/// Where the token that starts at `i` ends, its class chosen by `s[i]`.
pub open spec fn token_end(s: Seq<char>, i: int) -> Result<int, LexError> {
    if is_letter(s[i]) {
        Ok(ident_end(s, i))
    } else if is_digit(s[i]) {
        number_end(s, i)
    } else if s[i] == '"' {
        string_end(s, i)
    } else {
        Err(LexError::UnrecognizedCharacter(i as usize))
    }
}

/// An end offset of the model as the executable code reports it.
pub open spec fn as_offset(r: Result<int, LexError>) -> Result<usize, LexError> {
    match r {
        Ok(e) => Ok(e as usize),
        Err(x) => Err(x),
    }
}

pub(crate) proof fn lemma_letters_digits_run(s: Seq<char>, i: int)
    requires
        0 <= i <= s.len(),
    ensures
        i <= letters_digits_end(s, i) <= s.len(),
        forall|k: int| i <= k < letters_digits_end(s, i) ==> is_letter_or_digit(#[trigger] s[k]),
    decreases s.len() - i,
{
    if i < s.len() && is_letter_or_digit(s[i]) {
        lemma_letters_digits_run(s, i + 1);
    }
}

pub(crate) proof fn lemma_digits_run(s: Seq<char>, i: int)
    requires
        0 <= i <= s.len(),
    ensures
        i <= digits_end(s, i) <= s.len(),
        forall|k: int| i <= k < digits_end(s, i) ==> is_digit(#[trigger] s[k]),
    decreases s.len() - i,
{
    if i < s.len() && is_digit(s[i]) {
        lemma_digits_run(s, i + 1);
    }
}

pub(crate) proof fn lemma_quote_from_run(s: Seq<char>, i: int)
    requires
        0 <= i <= s.len(),
    ensures
        i <= quote_from(s, i) <= s.len(),
        forall|k: int| i <= k < quote_from(s, i) ==> #[trigger] s[k] != '"',
        quote_from(s, i) < s.len() ==> s[quote_from(s, i)] == '"',
    decreases s.len() - i,
{
    if i < s.len() && s[i] != '"' {
        lemma_quote_from_run(s, i + 1);
    }
}

/// A token that is measured ends past its start and within the input.
pub proof fn lemma_token_end_bounds(s: Seq<char>, i: int)
    requires
        0 <= i < s.len(),
    ensures
        token_end(s, i) matches Ok(e) ==> i < e <= s.len(),
{
    lemma_letters_digits_run(s, i + 1);
    lemma_digits_run(s, i + 1);
    lemma_quote_from_run(s, i + 1);
    let j = digits_end(s, i + 1);
    if j + 2 <= s.len() {
        lemma_digits_run(s, j + 2);
    }
}

/// Measures the identifier that starts at `start`.
pub fn ident_at(cs: &Vec<char>, start: usize) -> (r: usize)
    requires
        start < cs@.len(),
        is_letter(cs@[start as int]),
    ensures
        r == ident_end(cs@, start as int),
{
    let n = cs.len();
    let mut i: usize = start + 1;
    while i < n && is_alpha_numeric(cs[i])
        invariant
            n == cs@.len(),
            start < i <= cs@.len(),
            letters_digits_end(cs@, i as int) == ident_end(cs@, start as int),
        decreases cs@.len() - i,
    {
        i = i + 1;
    }
    i
}

/// Skips the run of digits that starts at `from`.
fn skip_digits(cs: &Vec<char>, from: usize) -> (r: usize)
    requires
        from <= cs@.len(),
    ensures
        r == digits_end(cs@, from as int),
{
    let mut i: usize = from;
    while i < cs.len() && is_numeric(cs[i])
        invariant
            from <= i <= cs@.len(),
            digits_end(cs@, i as int) == digits_end(cs@, from as int),
        decreases cs@.len() - i,
    {
        i = i + 1;
    }
    i
}

/// Measures the number that starts at `start`.
pub fn number_at(cs: &Vec<char>, start: usize) -> (r: Result<usize, LexError>)
    requires
        start < cs@.len(),
        is_digit(cs@[start as int]),
    ensures
        r == as_offset(number_end(cs@, start as int)),
{
    let n = cs.len();
    let j = skip_digits(cs, start + 1);
    if j < n && cs[j] == '.' {
        if j + 1 < n && is_numeric(cs[j + 1]) {
            Ok(skip_digits(cs, j + 2))
        } else {
            Err(LexError::MalformedNumber(j))
        }
    } else {
        Ok(j)
    }
}

/// Measures the string literal whose opening quote stands at `start`.
pub fn string_at(cs: &Vec<char>, start: usize) -> (r: Result<usize, LexError>)
    requires
        start < cs@.len(),
        cs@[start as int] == '"',
    ensures
        r == as_offset(string_end(cs@, start as int)),
{
    let n = cs.len();
    let mut i: usize = start + 1;
    while i < n && cs[i] != '"'
        invariant
            n == cs@.len(),
            start < i <= cs@.len(),
            quote_from(cs@, i as int) == quote_from(cs@, start + 1),
        decreases cs@.len() - i,
    {
        i = i + 1;
    }
    if i < n {
        Ok(i + 1)
    } else {
        Err(LexError::UnterminatedString(start))
    }
}

/// Measures the token that starts at `start`, or reports `None` at the end
/// of the input.
pub fn next_token_at(cs: &Vec<char>, start: usize) -> (r: Result<Option<usize>, LexError>)
    requires
        start <= cs@.len(),
    ensures
        start == cs@.len() ==> r == Ok::<Option<usize>, LexError>(None),
        start < cs@.len() ==> match token_end(cs@, start as int) {
            Ok(e) => r == Ok::<Option<usize>, LexError>(Some(e as usize)),
            Err(x) => r == Err::<Option<usize>, LexError>(x),
        },
{
    if start == cs.len() {
        return Ok(None);
    }
    let c = cs[start];
    if is_alpha(c) {
        Ok(Some(ident_at(cs, start)))
    } else if is_numeric(c) {
        match number_at(cs, start) {
            Ok(e) => Ok(Some(e)),
            Err(x) => Err(x),
        }
    } else if c == '"' {
        match string_at(cs, start) {
            Ok(e) => Ok(Some(e)),
            Err(x) => Err(x),
        }
    } else {
        Err(LexError::UnrecognizedCharacter(start))
    }
}

} // verus!
