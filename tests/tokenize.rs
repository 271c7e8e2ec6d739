use stutter_lexer::classify::{is_alpha, is_alpha_numeric, is_numeric};
use stutter_lexer::tokenize::{ident, number, string, tokenize};

#[test]
fn test_tokenize() {
    assert_eq!(tokenize("abc12").unwrap(), &["abc12"]);
    assert_eq!(tokenize("12abc").unwrap(), &["12", "abc"]);
    assert_eq!(tokenize("12abc12").unwrap(), &["12", "abc12"]);
    assert_eq!(tokenize(r#""hello12"43ab59"#).unwrap(), &[r#""hello12""#, "43", "ab59"]);
}

#[test]
fn test_ident() {
    assert_eq!(ident("abc"), 3);
    assert_eq!(ident("abc12"), 5);
    assert_eq!(ident(r#"abc"12""#), 3);
}

#[test]
fn test_number() {
    assert_eq!(number("123"), Ok(3));
    assert_eq!(number("12a"), Ok(2));
}

#[test]
fn test_string() {
    assert_eq!(string(r#""abc""#), Ok(5));
    assert_eq!(string(r#""""#), Ok(2));
    assert_eq!(string(r#""12abc34""#), Ok(9));
    assert_eq!(string(r#""abc"hello"#), Ok(5));
    assert_eq!(string(r#""" ""#), Ok(2));
    assert_eq!(string(r#""12abc34" lookie here"#), Ok(9));
}

#[test]
fn test_is_numeric() {
    assert!(is_numeric('0'));
    assert!(is_numeric('9'));
    // '/' is directly below '0' in ASCII
    assert!(!is_numeric('/'));
    // ':' is directly above '9' in ASCII
    assert!(!is_numeric(':'));
}

#[test]
fn test_is_alpha() {
    assert!(is_alpha('a'));
    assert!(is_alpha('z'));
    assert!(is_alpha('A'));
    assert!(is_alpha('Z'));
    assert!(!is_alpha('@'));
    assert!(!is_alpha('['));
    assert!(!is_alpha('`'));
    assert!(!is_alpha('{'));
}

#[test]
fn test_is_alpha_numeric() {
    assert!(is_alpha_numeric('0'));
    assert!(is_alpha_numeric('9'));
    assert!(!is_alpha_numeric('/'));
    assert!(!is_alpha_numeric(':'));
    assert!(is_alpha_numeric('a'));
    assert!(is_alpha_numeric('z'));
    assert!(is_alpha_numeric('A'));
    assert!(is_alpha_numeric('Z'));
    assert!(!is_alpha_numeric('@'));
    assert!(!is_alpha_numeric('['));
    assert!(!is_alpha_numeric('`'));
    assert!(!is_alpha_numeric('{'));
}
