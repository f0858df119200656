//! A lexical scanner for a small C-like scripting language.
//!
//! The scanner turns source text into a stream of tokens: keywords,
//! identifiers, numeric literals, operators, delimiters, and a terminal
//! end-of-input token.  Its behaviour is specified exactly by the spec
//! functions in [`lexer`], and the scanning laws (steady end of input,
//! operator lookahead, maximal munch, whitespace insensitivity) are proved
//! there as lemmas.

pub mod lexer;
