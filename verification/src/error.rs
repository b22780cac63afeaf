use vstd::prelude::*;

verus! {

/// What exactly is wrong with the shape of a specification or of a regular
/// expression.
#[derive(Debug, Clone, Copy, PartialEq, Eq, Structural)]
pub enum SyntaxKind {
    /// A macro name with no pattern after it.
    MissingPattern,
    /// A rule pattern with no action after it.
    MissingAction,
    /// A token that no production accepts at this place.
    UnexpectedToken,
    /// A `[` without its `]`.
    UnmatchedBracket,
    /// A `(` without its `)`.
    UnmatchedParen,
    /// Input left over after a complete regular expression.
    TrailingGarbage,
}

/// The ways in which reading a specification or compiling a rule set fails.
#[derive(Debug, Clone, Copy, PartialEq, Eq, Structural)]
pub enum Error {
    /// The source holds fewer than two `%%` delimiters.
    MalformedInput,
    /// No token of the current section starts at this byte offset of the
    /// specification.
    LexicalError(usize),
    /// The tokens of a specification, or the bytes of a pattern, do not fit
    /// their grammar. The offset counts in the specification, or in the
    /// pattern; it is that of the offending token, or of the end of the text
    /// where the text ran out.
    SyntaxError(SyntaxKind, usize),
    /// The pattern of the rule with this index still holds a macro reference
    /// after the most rounds of expansion that are made: as many as there are
    /// macros.
    ExpansionLimit(usize),
    /// The automaton would need more states than the engine's fixed ceiling.
    RegexOverflow,
}

} // verus!
