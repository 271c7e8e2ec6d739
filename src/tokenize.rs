//! The tokenizer: splits a whole input into its tokens, left to right.
use vstd::prelude::*;
use crate::classify::{is_digit, is_letter};
use crate::scan::{
    as_offset, ident_at, ident_end, lemma_token_end_bounds, next_token_at, number_at, number_end,
    string_at, string_end, token_end, LexError,
};
use crate::text::{chars_of, string_of_range};

verus! {

/// The tokens of `s` from offset `i` on, or the first error met there.
pub open spec fn lex_from(s: Seq<char>, i: int) -> Result<Seq<Seq<char>>, LexError>
    decreases s.len() - i,
{
    if i < 0 || i >= s.len() {
        Ok(Seq::empty())
    } else {
        match token_end(s, i) {
            Ok(e) => {
                // A token always ends past its start and within `s`
                // (`lemma_token_end_bounds`); the guard states it for the recursion.
                if i < e <= s.len() {
                    prepend(seq![s.subrange(i, e)], lex_from(s, e))
                } else {
                    Ok(Seq::empty())
                }
            },
            Err(x) => Err(x),
        }
    }
}

/// The tokens of the whole of `s`, or the first error met in it.
pub open spec fn lex(s: Seq<char>) -> Result<Seq<Seq<char>>, LexError> {
    lex_from(s, 0)
}

/// `done` followed by the tokens of `r`, or the error of `r`.
pub open spec fn prepend(
    done: Seq<Seq<char>>,
    r: Result<Seq<Seq<char>>, LexError>,
) -> Result<Seq<Seq<char>>, LexError> {
    match r {
        Ok(rest) => Ok(done + rest),
        Err(x) => Err(x),
    }
}

/// The characters of each string of `v`.
pub open spec fn token_views(v: Seq<String>) -> Seq<Seq<char>> {
    v.map_values(|t: String| t@)
}

/// Splits `s` into its tokens: identifiers, numbers and string literals,
/// with nothing between them. Fails with the first malformed token.
pub fn tokenize(s: &str) -> (r: Result<Vec<String>, LexError>)
    ensures
        match lex(s@) {
            Ok(ts) => r matches Ok(v) && token_views(v@) == ts,
            Err(x) => r == Err::<Vec<String>, LexError>(x),
        },
{
    let cs = chars_of(s);
    let mut tokens: Vec<String> = Vec::new();
    let mut start: usize = 0;
    assert(token_views(tokens@) =~= Seq::<Seq<char>>::empty());
    assert(prepend(Seq::empty(), lex(cs@)) == lex(cs@)) by {
        if let Ok(ts) = lex(cs@) {
            assert(Seq::<Seq<char>>::empty() + ts =~= ts);
        }
    }
    loop
        invariant
            start <= cs@.len(),
            cs@ == s@,
            lex(cs@) == prepend(token_views(tokens@), lex_from(cs@, start as int)),
        decreases cs@.len() - start,
    {
        match next_token_at(&cs, start) {
            Ok(Some(end)) => {
                proof {
                    lemma_token_end_bounds(cs@, start as int);
                }
                let t = string_of_range(&cs, start, end);
                let ghost done = token_views(tokens@);
                tokens.push(t);
                proof {
                    let tok = cs@.subrange(start as int, end as int);
                    assert(token_views(tokens@) =~= done + seq![tok]);
                    if let Ok(rest) = lex_from(cs@, end as int) {
                        assert(done + (seq![tok] + rest) =~= (done + seq![tok]) + rest);
                    }
                }
                start = end;
            },
            Ok(None) => {
                assert(token_views(tokens@) + Seq::<Seq<char>>::empty() =~= token_views(tokens@));
                return Ok(tokens);
            },
            Err(x) => {
                return Err(x);
            },
        }
    }
}

/// The offset just past the next token of `s`, or `None` when `s` is empty.
pub fn next_token(s: &str) -> (r: Result<Option<usize>, LexError>)
    ensures
        s@.len() == 0 ==> r == Ok::<Option<usize>, LexError>(None),
        s@.len() > 0 ==> match token_end(s@, 0) {
            Ok(e) => r == Ok::<Option<usize>, LexError>(Some(e as usize)),
            Err(x) => r == Err::<Option<usize>, LexError>(x),
        },
{
    let cs = chars_of(s);
    next_token_at(&cs, 0)
}

/// The offset just past the identifier at the start of `s`.
pub fn ident(s: &str) -> (r: usize)
    requires
        s@.len() > 0,
        is_letter(s@[0]),
    ensures
        r == ident_end(s@, 0),
{
    let cs = chars_of(s);
    ident_at(&cs, 0)
}

/// The offset just past the number at the start of `s`.
pub fn number(s: &str) -> (r: Result<usize, LexError>)
    requires
        s@.len() > 0,
        is_digit(s@[0]),
    ensures
        r == as_offset(number_end(s@, 0)),
{
    let cs = chars_of(s);
    number_at(&cs, 0)
}

/// The offset just past the string literal at the start of `s`.
pub fn string(s: &str) -> (r: Result<usize, LexError>)
    requires
        s@.len() > 0,
        s@[0] == '"',
    ensures
        r == as_offset(string_end(s@, 0)),
{
    let cs = chars_of(s);
    string_at(&cs, 0)
}

} // verus!
