//! A lexical scanner for a small language of identifiers, numbers and
//! double-quoted string literals.
pub mod classify;
pub mod properties;
pub mod scan;
pub mod text;
pub mod tokenize;
