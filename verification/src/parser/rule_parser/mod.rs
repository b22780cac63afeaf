//! A plain generator for rules whose patterns are literal text: it emits a C
//! source that compares the input with each pattern, byte by byte, at each
//! position.
use vstd::prelude::*;
use vstd::string::StringSliceAdditionalSpecFns;
use crate::bytes::append;
use crate::codegen::{
    ACTION_END, ACTION_START, ARRAY_END, ARRAY_START, CASE_END, CASE_OPEN, CASE_START, COUNT_START,
    ENTRY_END, ENTRY_START, LINE_END, action_cases, action_function, pattern_array,
    pattern_entries, push_decimal,
};
use crate::parser::rule_parser::code::{MATCH, PREPARE};

pub mod code;

verus! {

/// The line that opens `yylex`.
pub const YYLEX_START: &'static str = "int yylex() {\n";

/// The line of `yylex` that reads the input file.
pub const YYLEX_READ: &'static str = "  read_file(\"test.txt\");\n";

/// The line of `yylex` that runs the matcher.
pub const YYLEX_MATCH: &'static str = "  match();\n";

/// The line of `yylex` that returns.
pub const YYLEX_RETURN: &'static str = "  return 0;\n";

/// The line that closes `yylex`.
pub const YYLEX_END: &'static str = "}\n";

/// Collects patterns and actions and emits the source of the plain matcher.
pub struct RuleParser<'a> {
    pair_count: usize,
    patterns: Vec<&'a [u8]>,
    actions: Vec<&'a [u8]>,
}

/// The values of a list of texts.
pub open spec fn texts_view(v: Seq<&[u8]>) -> Seq<Seq<u8>> {
    Seq::new(v.len(), |i: int| v[i]@)
}

/// The function `yylex` of the plain matcher.
pub open spec fn plain_yylex() -> Seq<u8> {
    YYLEX_START.spec_bytes() + YYLEX_READ.spec_bytes() + YYLEX_MATCH.spec_bytes()
        + YYLEX_RETURN.spec_bytes() + YYLEX_END.spec_bytes()
}

/// The source of the plain matcher for the given patterns and actions.
pub open spec fn plain_code(patterns: Seq<Seq<u8>>, actions: Seq<Seq<u8>>) -> Seq<u8> {
    PREPARE.spec_bytes() + pattern_array(patterns) + action_function(actions) + MATCH.spec_bytes()
        + plain_yylex()
}

impl<'a> RuleParser<'a> {
    /// The count is the number of patterns.
    pub closed spec fn wf(&self) -> bool {
        self.pair_count == self.patterns@.len()
    }

    /// The patterns that were added, in order.
    pub closed spec fn patterns(&self) -> Seq<Seq<u8>> {
        texts_view(self.patterns@)
    }

    /// The actions that were added, in order.
    pub closed spec fn actions(&self) -> Seq<Seq<u8>> {
        texts_view(self.actions@)
    }

    /// A generator without rules.
    pub fn new() -> (p: Self)
        ensures
            p.wf(),
            p.patterns() == Seq::<Seq<u8>>::empty(),
            p.actions() == Seq::<Seq<u8>>::empty(),
    {
        let p = RuleParser { pair_count: 0, patterns: Vec::new(), actions: Vec::new() };
        assert(p.patterns() =~= Seq::<Seq<u8>>::empty());
        assert(p.actions() =~= Seq::<Seq<u8>>::empty());
        p
    }

    /// Adds a pattern after those that are there.
    pub fn add_pattern(&mut self, pattern: &'a [u8])
        requires
            old(self).wf(),
        ensures
            final(self).wf(),
            final(self).patterns() == old(self).patterns().push(pattern@),
            final(self).actions() == old(self).actions(),
    {
        self.patterns.push(pattern);
        self.pair_count = self.patterns.len();
        assert(final(self).patterns() =~= old(self).patterns().push(pattern@));
    }

    /// Adds an action after those that are there.
    pub fn add_action(&mut self, action: &'a [u8])
        requires
            old(self).wf(),
        ensures
            final(self).wf(),
            final(self).actions() == old(self).actions().push(action@),
            final(self).patterns() == old(self).patterns(),
    {
        self.actions.push(action);
        assert(final(self).actions() =~= old(self).actions().push(action@));
    }

    /// Emits the source of the plain matcher for the rules that were added.
    pub fn gen_code(&self) -> (out: Vec<u8>)
        requires
            self.wf(),
        ensures
            out@ == plain_code(self.patterns(), self.actions()),
    {
        let mut out: Vec<u8> = Vec::new();
        append(&mut out, PREPARE.as_bytes());
        self.gen_pattern_array(&mut out);
        self.gen_action_function(&mut out);
        append(&mut out, MATCH.as_bytes());
        self.gen_yylex_function(&mut out);
        assert(out@ =~= plain_code(self.patterns(), self.actions()));
        out
    }

    /// Appends the definition of `g_pattern_count` and the array `g_patterns`.
    fn gen_pattern_array(&self, out: &mut Vec<u8>)
        requires
            self.wf(),
        ensures
            final(out)@ == old(out)@ + pattern_array(self.patterns()),
    {
        let ghost patterns = self.patterns();
        append(out, COUNT_START.as_bytes());
        push_decimal(out, self.pair_count);
        append(out, LINE_END.as_bytes());
        append(out, ARRAY_START.as_bytes());
        let ghost head = out@;
        let mut i: usize = 0;
        while i < self.patterns.len()
            invariant
                i <= self.patterns.len(),
                patterns == self.patterns(),
                out@ == head + pattern_entries(patterns, i as int),
            decreases self.patterns.len() - i,
        {
            append(out, ENTRY_START.as_bytes());
            append(out, self.patterns[i]);
            append(out, ENTRY_END.as_bytes());
            i += 1;
            assert(out@ =~= head + pattern_entries(patterns, i as int));
        }
        append(out, ARRAY_END.as_bytes());
        append(out, LINE_END.as_bytes());
        assert(final(out)@ =~= old(out)@ + pattern_array(patterns));
    }

    /// Appends the function `action`.
    fn gen_action_function(&self, out: &mut Vec<u8>)
        ensures
            final(out)@ == old(out)@ + action_function(self.actions()),
    {
        let ghost actions = self.actions();
        append(out, ACTION_START.as_bytes());
        let ghost head = out@;
        let mut i: usize = 0;
        while i < self.actions.len()
            invariant
                i <= self.actions.len(),
                actions == self.actions(),
                out@ == head + action_cases(actions, i as int),
            decreases self.actions.len() - i,
        {
            append(out, CASE_START.as_bytes());
            push_decimal(out, i);
            append(out, CASE_OPEN.as_bytes());
            append(out, self.actions[i]);
            append(out, CASE_END.as_bytes());
            i += 1;
            assert(out@ =~= head + action_cases(actions, i as int));
        }
        append(out, ACTION_END.as_bytes());
        assert(final(out)@ =~= old(out)@ + action_function(actions));
    }

    /// Appends the function `yylex`.
    fn gen_yylex_function(&self, out: &mut Vec<u8>)
        ensures
            final(out)@ == old(out)@ + plain_yylex(),
    {
        append(out, YYLEX_START.as_bytes());
        append(out, YYLEX_READ.as_bytes());
        append(out, YYLEX_MATCH.as_bytes());
        append(out, YYLEX_RETURN.as_bytes());
        append(out, YYLEX_END.as_bytes());
        assert(final(out)@ =~= old(out)@ + plain_yylex());
    }
}

impl<'a> Default for RuleParser<'a> {
    /// A generator without rules.
    fn default() -> (p: Self)
        ensures
            p.wf(),
            p.patterns() == Seq::<Seq<u8>>::empty(),
            p.actions() == Seq::<Seq<u8>>::empty(),
    {
        RuleParser::new()
    }
}

} // verus!
