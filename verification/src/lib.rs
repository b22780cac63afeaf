//! A lexical-analyzer generator in the tradition of `lex`.
//!
//! A specification has three sections separated by `%%`: definitions, rules
//! and user code. The crate tokenizes and parses such a specification, expands
//! named patterns inside the rule patterns, and emits a C scanner.
//!
//! The emitted scanner holds a regular-expression engine as C text. The crate
//! holds the same engine a second time, as verified Rust, so that a rule set
//! can be examined without a C compiler. The two are written to the same
//! algorithm, but only the Rust engine is verified: of the C text the
//! contracts fix the bytes, not what they do, and nothing here compiles or
//! runs it. By its text the C engine differs from the Rust engine where C
//! itself makes a difference: a pattern passes through a C string literal, so
//! that the C compiler reads its backslash escapes and a `"` ends it; a zero
//! byte ends a pattern; a token of more than 1023 bytes ends the process;
//! so does a pattern that is no expression, or an automaton of too many
//! states, where the Rust engine returns an error. The module [`regex`] says
//! more of each.
//!
//! - [`lexer`] splits a specification into its sections and tokenizes them.
//! - [`parser`] builds the tree of a specification and expands its macros.
//! - [`codegen`] emits the C source of the scanner.
//! - [`driver`] goes from the text of a specification to the C source.
//! - [`regex`] holds the Rust engine: patterns, automata and the
//!   longest-match scan, with the proof that the automaton of a list of
//!   patterns matches exactly what the patterns denote.
pub mod error;
pub mod bytes;
pub mod lexer;
pub mod ast;
pub mod parser;
pub mod codegen;
pub mod regex;
pub mod driver;
