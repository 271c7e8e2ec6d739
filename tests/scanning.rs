use stutter_lexer::scan::LexError;
use stutter_lexer::tokenize::{next_token, number, string, tokenize};

#[test]
fn number_with_fraction() {
    assert_eq!(number("12.5"), Ok(4));
    assert_eq!(number("3.14x"), Ok(4));
    assert_eq!(number("7"), Ok(1));
}

#[test]
fn number_ending_in_point_is_malformed() {
    assert_eq!(number("12."), Err(LexError::MalformedNumber(2)));
    assert_eq!(number("12.a"), Err(LexError::MalformedNumber(2)));
}

#[test]
fn unterminated_string() {
    assert_eq!(string("\"abc"), Err(LexError::UnterminatedString(0)));
    assert_eq!(string("\""), Err(LexError::UnterminatedString(0)));
}

#[test]
fn string_body_may_hold_anything_but_a_quote() {
    assert_eq!(string("\"a b\n\u{e9}\"x"), Ok(7));
    assert_eq!(tokenize("\"\u{e9}t\u{e9}\"x").unwrap(), &["\"\u{e9}t\u{e9}\"", "x"]);
}

#[test]
fn empty_input_has_no_tokens() {
    assert_eq!(tokenize("").unwrap(), Vec::<String>::new());
    assert_eq!(next_token(""), Ok(None));
}

#[test]
fn next_token_dispatches_on_first_character() {
    assert_eq!(next_token("ab1+"), Ok(Some(3)));
    assert_eq!(next_token("42x"), Ok(Some(2)));
    assert_eq!(next_token("\"q\"z"), Ok(Some(3)));
    assert_eq!(next_token(" a"), Err(LexError::UnrecognizedCharacter(0)));
}

#[test]
fn tokenize_reports_errors_at_input_offsets() {
    assert_eq!(tokenize("ab 12"), Err(LexError::UnrecognizedCharacter(2)));
    assert_eq!(tokenize("ab12."), Err(LexError::UnrecognizedCharacter(4)));
    assert_eq!(tokenize("x 1.5"), Err(LexError::UnrecognizedCharacter(1)));
    assert_eq!(tokenize("7.25\"open"), Err(LexError::UnterminatedString(4)));
    assert_eq!(tokenize("9.x"), Err(LexError::MalformedNumber(1)));
}

#[test]
fn decimal_numbers_in_a_token_stream() {
    assert_eq!(tokenize("12.5ab\"c\"3").unwrap(), &["12.5", "ab", "\"c\"", "3"]);
}

#[test]
fn tokens_join_back_to_the_input() {
    let input = "\"hello12\"43ab59\"\"7.5z";
    let tokens = tokenize(input).unwrap();
    assert_eq!(tokens.concat(), input);
    assert!(tokens.iter().all(|t| !t.is_empty()));
}

#[test]
fn retokenizing_joined_tokens_is_stable() {
    let tokens = tokenize("abc\"x y\"12.75q9").unwrap();
    assert_eq!(tokenize(&tokens.concat()).unwrap(), tokens);
}
