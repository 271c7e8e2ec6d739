//! What holds of every successful tokenization.
use vstd::prelude::*;
use crate::classify::{is_digit, is_letter, is_letter_or_digit};
use crate::scan::{
    digits_end, lemma_digits_run, lemma_letters_digits_run, lemma_quote_from_run,
    lemma_token_end_bounds, quote_from, token_end,
};
use crate::tokenize::{lex, lex_from};

verus! {

/// A letter followed by letters and digits.
pub open spec fn is_identifier(t: Seq<char>) -> bool {
    &&& t.len() > 0
    &&& is_letter(t[0])
    &&& forall|k: int| 1 <= k < t.len() ==> is_letter_or_digit(#[trigger] t[k])
}

/// One or more digits.
pub open spec fn is_digit_run(t: Seq<char>) -> bool {
    &&& t.len() > 0
    &&& forall|k: int| 0 <= k < t.len() ==> is_digit(#[trigger] t[k])
}

/// Digits, or digits, a decimal point and digits.
pub open spec fn is_number(t: Seq<char>) -> bool {
    ||| is_digit_run(t)
    ||| exists|p: int|
        0 < p < t.len() && #[trigger] t[p] == '.' && is_digit_run(t.subrange(0, p))
            && is_digit_run(t.subrange(p + 1, t.len() as int))
}

/// A `"`, characters other than `"`, and a closing `"`.
pub open spec fn is_string_literal(t: Seq<char>) -> bool {
    &&& t.len() >= 2
    &&& t[0] == '"'
    &&& t[t.len() - 1] == '"'
    &&& forall|k: int| 0 < k < t.len() - 1 ==> #[trigger] t[k] != '"'
}

/// A non-empty token whose first character alone decides its class: a letter
/// starts an identifier, a digit a number, a `"` a string literal.
pub open spec fn is_token(t: Seq<char>) -> bool {
    &&& t.len() > 0
    &&& if is_letter(t[0]) {
        is_identifier(t)
    } else if is_digit(t[0]) {
        is_number(t)
    } else {
        t[0] == '"' && is_string_literal(t)
    }
}

/// The tokens in order, joined with nothing between them.
pub open spec fn concat(ts: Seq<Seq<char>>) -> Seq<char> {
    ts.flatten()
}

proof fn lemma_measured_token_is_token(s: Seq<char>, i: int)
    requires
        0 <= i < s.len(),
        token_end(s, i) is Ok,
    ensures
        is_token(s.subrange(i, token_end(s, i)->Ok_0)),
{
    lemma_token_end_bounds(s, i);
    let e = token_end(s, i)->Ok_0;
    let t = s.subrange(i, e);
    if is_letter(s[i]) {
        lemma_letters_digits_run(s, i + 1);
        assert forall|k: int| 1 <= k < t.len() implies is_letter_or_digit(#[trigger] t[k]) by {
            assert(t[k] == s[i + k]);
        }
    } else if is_digit(s[i]) {
        lemma_digits_run(s, i + 1);
        let j = digits_end(s, i + 1);
        if j < s.len() && s[j] == '.' {
            lemma_digits_run(s, j + 2);
            let p = j - i;
            let head = t.subrange(0, p);
            let tail = t.subrange(p + 1, t.len() as int);
            assert forall|k: int| 0 <= k < head.len() implies is_digit(#[trigger] head[k]) by {
                assert(head[k] == s[i + k]);
            }
            assert forall|k: int| 0 <= k < tail.len() implies is_digit(#[trigger] tail[k]) by {
                assert(tail[k] == s[j + 1 + k]);
            }
            assert(t[p] == '.');
        } else {
            assert forall|k: int| 0 <= k < t.len() implies is_digit(#[trigger] t[k]) by {
                assert(t[k] == s[i + k]);
            }
        }
    } else {
        lemma_quote_from_run(s, i + 1);
        assert(quote_from(s, i + 1) == e - 1);
        assert forall|k: int| 0 < k < t.len() - 1 implies #[trigger] t[k] != '"' by {
            assert(t[k] == s[i + k]);
        }
    }
}

proof fn lemma_lex_from_properties(s: Seq<char>, i: int)
    requires
        0 <= i <= s.len(),
        lex_from(s, i) is Ok,
    ensures
        concat(lex_from(s, i)->Ok_0) == s.subrange(i, s.len() as int),
        forall|k: int|
            0 <= k < lex_from(s, i)->Ok_0.len() ==> is_token(#[trigger] lex_from(s, i)->Ok_0[k]),
    decreases s.len() - i,
{
    if i == s.len() {
        assert(s.subrange(i, s.len() as int) =~= Seq::<char>::empty());
    } else {
        lemma_token_end_bounds(s, i);
        let e = token_end(s, i)->Ok_0;
        lemma_lex_from_properties(s, e);
        lemma_measured_token_is_token(s, i);
        let t = s.subrange(i, e);
        let rest = lex_from(s, e)->Ok_0;
        let ts = lex_from(s, i)->Ok_0;
        assert(ts == seq![t] + rest);
        assert(ts.drop_first() =~= rest);
        assert(s.subrange(i, s.len() as int) =~= t + s.subrange(e, s.len() as int));
        assert forall|k: int| 0 <= k < ts.len() implies is_token(#[trigger] ts[k]) by {
            if k > 0 {
                assert(ts[k] == rest[k - 1]);
            }
        }
    }
}

/// Tokenization loses nothing: the tokens, joined in order with nothing
/// between them, give back the input exactly.
pub proof fn lemma_tokens_concat_to_input(s: Seq<char>)
    requires
        lex(s) is Ok,
    ensures
        concat(lex(s)->Ok_0) == s,
{
    lemma_lex_from_properties(s, 0);
    assert(s.subrange(0, s.len() as int) =~= s);
}

/// Every token is non-empty, and its first character alone decides its class.
pub proof fn lemma_every_token_is_well_formed(s: Seq<char>)
    requires
        lex(s) is Ok,
    ensures
        forall|k: int| 0 <= k < lex(s)->Ok_0.len() ==> is_token(#[trigger] lex(s)->Ok_0[k]),
{
    lemma_lex_from_properties(s, 0);
}

/// Tokenizing the joined tokens of an input gives the same tokens again.
pub proof fn lemma_retokenize_is_identity(s: Seq<char>)
    requires
        lex(s) is Ok,
    ensures
        lex(concat(lex(s)->Ok_0)) == lex(s),
{
    lemma_tokens_concat_to_input(s);
}

} // verus!
