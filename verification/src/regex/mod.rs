//! The regular-expression engine of the generated scanners, in verified
//! Rust: a parser for patterns, the construction of one automaton for a list
//! of patterns, and the simulation that finds the longest match.
//!
//! The emitted scanner holds the same engine as C text (`codegen::code`).
//! `build_many`, `match_full`, `Scanner::yy_match` and `yylex` here are the
//! counterparts of the C functions `build_many`, `match_full`, `yy_match` and
//! `yylex` there: the same grammar of patterns, the same numbering of states,
//! the same scan. Nothing in this crate compiles or runs the C text, and no
//! contract speaks of what it does. By its text it differs from the engine
//! here in these places:
//!
//! - A pattern reaches the C engine through a C string literal. The C
//!   compiler reads the backslash escapes in it first, and a `"` ends it.
//!   Here a pattern is read as it stands.
//! - A zero byte ends a pattern in C, and ends the input of the C
//!   `match_full`. Here it is a byte like any other.
//! - C keeps the token in a buffer of 1024 bytes. Where a scan takes more
//!   than 1023 bytes, the C `yy_match` prints a message and ends the process.
//!   Here a token has no ceiling.
//! - On a pattern that is no expression, and on an automaton of more than 999
//!   states, the C engine prints a message and ends the process. Here
//!   `build_many` returns the error.
//! - The C `yy_match` returns -1 for a scan without a match, and `yylex` runs
//!   no action for it. Here the rule of such a scan is `None`, and `yylex`
//!   leaves it out of its result.
pub mod ast;
pub mod parser;
pub mod nfa;
pub mod builder;
pub mod matcher;
pub mod scanner;
pub mod laws;
pub mod meaning;
pub mod thompson;
pub mod correct;
