//! Emitting the C source of a scanner.
//!
//! The source is made of these parts, in this order: the fixed start, the
//! embedded engine, the C code of the definitions section under a marker, the
//! array of patterns, the function that dispatches on the index of the matched
//! pattern, `yylex`, and the user code under a marker.
use vstd::prelude::*;
use vstd::string::StringSliceAdditionalSpecFns;
use crate::ast::definition::options_view;
use crate::ast::rule::{RuleView, rules_view};
use crate::ast::{Root, RootView};
use crate::bytes::append;
use crate::codegen::code::{
    PREPARE, REGEX_AST, REGEX_BUILDER, REGEX_EDGE, REGEX_HEAD, REGEX_LEXER, REGEX_MATCH, REGEX_NFA,
    REGEX_PARSER, REGEX_STATE, YYLEX,
};

pub mod code;

verus! {

/// An option that the generator knows.
#[derive(Debug, Clone, Copy, PartialEq, Eq, Structural)]
pub enum GenOption {
    /// `noyywrap`: the scanner stops at the end of its input.
    Noyywrap,
}

/// The name of the option `noyywrap`.
pub const NOYYWRAP: &'static str = "noyywrap";

/// The comment line before the C code of the definitions section.
pub const DEFINITION_MARKER: &'static str = "/*** Definition Code ***/\n";

/// The comment line before the code that the rules give.
pub const RULE_MARKER: &'static str = "/*** Rule Code ***/\n";

/// The comment line before the user code.
pub const USERCODE_MARKER: &'static str = "/*** User Code ***/\n";

/// A line feed.
pub const LINE_END: &'static str = "\n";

/// The start of the line that defines the number of patterns.
pub const COUNT_START: &'static str = "#define g_pattern_count ";

/// The line that opens the array of patterns.
pub const ARRAY_START: &'static str = "char *g_patterns[] = {\n";

/// What stands before a pattern in the array.
pub const ENTRY_START: &'static str = "  \"";

/// What stands after a pattern in the array.
pub const ENTRY_END: &'static str = "\",\n";

/// The line that closes the array of patterns.
pub const ARRAY_END: &'static str = "};\n";

/// The line that opens the dispatch function.
pub const ACTION_START: &'static str = "void action(int pattern_index) {\n";

/// The start of the line that tests for one pattern index.
pub const CASE_START: &'static str = "  if (pattern_index == ";

/// The end of the line that tests for one pattern index.
pub const CASE_OPEN: &'static str = ") {\n";

/// What closes the branch of one pattern index.
pub const CASE_END: &'static str = "\n  }\n";

/// The line that closes the dispatch function.
pub const ACTION_END: &'static str = "}\n";

/// The patterns and actions of the rules, side by side: entry `i` of each
/// belongs to rule `i`.
#[derive(Debug, PartialEq)]
pub struct RuleTable<'a> {
    pub pair_count: usize,
    pub patterns: Vec<Vec<u8>>,
    pub actions: Vec<&'a [u8]>,
}

/// The mathematical value of a `RuleTable`.
pub struct RuleTableView {
    pub pair_count: nat,
    pub patterns: Seq<Seq<u8>>,
    pub actions: Seq<Seq<u8>>,
}

impl<'a> View for RuleTable<'a> {
    type V = RuleTableView;

    open spec fn view(&self) -> RuleTableView {
        RuleTableView {
            pair_count: self.pair_count as nat,
            patterns: Seq::new(self.patterns@.len(), |i: int| self.patterns@[i]@),
            actions: Seq::new(self.actions@.len(), |i: int| self.actions@[i]@),
        }
    }
}

/// The table of the rules `rules`.
pub open spec fn table_of(rules: Seq<RuleView>) -> RuleTableView {
    RuleTableView {
        pair_count: rules.len(),
        patterns: Seq::new(rules.len(), |i: int| rules[i].pattern),
        actions: Seq::new(rules.len(), |i: int| rules[i].action),
    }
}

/// The rules of a specification, none where it has no rules node.
pub open spec fn rules_of(root: RootView) -> Seq<RuleView> {
    match root.rules {
        Some(Some(rules)) => rules,
        _ => Seq::empty(),
    }
}

/// The decimal digits of `n`.
pub open spec fn decimal(n: nat) -> Seq<u8>
    decreases n,
{
    if n < 10 {
        seq![(0x30 + n) as u8]
    } else {
        decimal(n / 10).push((0x30 + n % 10) as u8)
    }
}

/// The array entry of one pattern: the pattern between double quotes, as it
/// stands, on a line of its own.
pub open spec fn pattern_entry(pattern: Seq<u8>) -> Seq<u8> {
    ENTRY_START.spec_bytes() + pattern + ENTRY_END.spec_bytes()
}

/// The array entries of the first `n` patterns, one after the other in the
/// order of the patterns.
pub open spec fn pattern_entries(patterns: Seq<Seq<u8>>, n: int) -> Seq<u8>
    decreases n,
{
    if n <= 0 {
        Seq::empty()
    } else {
        pattern_entries(patterns, n - 1) + pattern_entry(patterns[n - 1])
    }
}

/// The entries of `n` patterns begin with the entries of the first `i` of
/// them.
pub proof fn lemma_entries_begin(patterns: Seq<Seq<u8>>, n: int, i: int)
    requires
        0 <= i <= n,
    ensures
        pattern_entries(patterns, i).len() <= pattern_entries(patterns, n).len(),
        pattern_entries(patterns, n).subrange(0, pattern_entries(patterns, i).len() as int)
            == pattern_entries(patterns, i),
    decreases n - i,
{
    if i < n {
        lemma_entries_begin(patterns, n - 1, i);
        let head = pattern_entries(patterns, n - 1);
        let all = pattern_entries(patterns, n);
        let len = pattern_entries(patterns, i).len() as int;
        assert(all.subrange(0, len) =~= head.subrange(0, len));
    } else {
        assert(pattern_entries(patterns, n).subrange(0, pattern_entries(patterns, n).len() as int)
            =~= pattern_entries(patterns, n));
    }
}

/// The array keeps every pattern at its place: the array of `n` patterns holds
/// one entry for each of them and nothing else, and its entry number `i`,
/// which stands right after the entries of the first `i` patterns, is the
/// entry of pattern `i`.
pub proof fn lemma_entry_in_place(patterns: Seq<Seq<u8>>, n: int, i: int)
    requires
        0 <= i < n <= patterns.len(),
    ensures
        ({
            let all = pattern_entries(patterns, n);
            let from = pattern_entries(patterns, i).len() as int;
            let to = pattern_entries(patterns, i + 1).len() as int;
            &&& to == from + pattern_entry(patterns[i]).len()
            &&& to <= all.len()
            &&& all.subrange(from, to) == pattern_entry(patterns[i])
            &&& i + 1 == n ==> to == all.len()
        }),
{
    let all = pattern_entries(patterns, n);
    let upto = pattern_entries(patterns, i + 1);
    let from = pattern_entries(patterns, i).len() as int;
    let to = upto.len() as int;
    lemma_entries_begin(patterns, n, i + 1);
    assert(all.subrange(from, to) =~= all.subrange(0, to).subrange(from, to));
    assert(upto.subrange(from, to) =~= pattern_entry(patterns[i]));
}

/// The definition of `g_pattern_count` and the array `g_patterns`, which holds
/// the patterns in their order.
pub open spec fn pattern_array(patterns: Seq<Seq<u8>>) -> Seq<u8> {
    COUNT_START.spec_bytes() + decimal(patterns.len()) + LINE_END.spec_bytes()
        + ARRAY_START.spec_bytes() + pattern_entries(patterns, patterns.len() as int)
        + ARRAY_END.spec_bytes() + LINE_END.spec_bytes()
}

/// The branches of the dispatch function for the first `n` actions: branch `i`
/// tests for index `i` and holds action `i`.
pub open spec fn action_cases(actions: Seq<Seq<u8>>, n: int) -> Seq<u8>
    decreases n,
{
    if n <= 0 {
        Seq::empty()
    } else {
        action_cases(actions, n - 1) + CASE_START.spec_bytes() + decimal((n - 1) as nat)
            + CASE_OPEN.spec_bytes() + actions[n - 1] + CASE_END.spec_bytes()
    }
}

/// The function `action`, which runs the action of the pattern whose index it
/// is given.
pub open spec fn action_function(actions: Seq<Seq<u8>>) -> Seq<u8> {
    ACTION_START.spec_bytes() + action_cases(actions, actions.len() as int)
        + ACTION_END.spec_bytes()
}

/// The embedded engine.
pub open spec fn engine() -> Seq<u8> {
    REGEX_HEAD.spec_bytes() + REGEX_STATE.spec_bytes() + REGEX_LEXER.spec_bytes()
        + REGEX_AST.spec_bytes() + REGEX_PARSER.spec_bytes() + REGEX_EDGE.spec_bytes()
        + REGEX_NFA.spec_bytes() + REGEX_BUILDER.spec_bytes() + REGEX_MATCH.spec_bytes()
}

/// The C code of the definitions section under its marker; nothing where the
/// section holds none.
pub open spec fn definition_code(root: RootView) -> Seq<u8> {
    match root.definitions {
        Some(node) => match node.code {
            Some(code) => DEFINITION_MARKER.spec_bytes() + code + LINE_END.spec_bytes(),
            None => Seq::empty(),
        },
        None => Seq::empty(),
    }
}

/// The code that the rules give: the pattern array, the dispatch function and
/// `yylex`, under a marker.
pub open spec fn rule_code(table: RuleTableView) -> Seq<u8> {
    RULE_MARKER.spec_bytes() + pattern_array(table.patterns) + action_function(table.actions)
        + YYLEX.spec_bytes() + LINE_END.spec_bytes()
}

/// The user code under its marker; nothing where there is none.
pub open spec fn user_code(root: RootView) -> Seq<u8> {
    match root.usercode {
        Some(code) => USERCODE_MARKER.spec_bytes() + code,
        None => Seq::empty(),
    }
}

/// The C source of the scanner for the specification `root`.
pub open spec fn generated(root: RootView) -> Seq<u8> {
    PREPARE.spec_bytes() + engine() + definition_code(root) + rule_code(table_of(rules_of(root)))
        + user_code(root)
}

/// The options among the first `n` of `names` that the generator knows, in
/// their order.
pub open spec fn known_options(names: Seq<Seq<u8>>, n: int) -> Seq<GenOption>
    decreases n,
{
    if n <= 0 {
        Seq::empty()
    } else if names[n - 1] == NOYYWRAP.spec_bytes() {
        known_options(names, n - 1).push(GenOption::Noyywrap)
    } else {
        known_options(names, n - 1)
    }
}

/// The options of a specification that the generator knows.
pub open spec fn options_of(root: RootView) -> Seq<GenOption> {
    match root.definitions {
        Some(node) => match node.options {
            Some(names) => known_options(names, names.len() as int),
            None => Seq::empty(),
        },
        None => Seq::empty(),
    }
}

impl<'a> RuleTable<'a> {
    /// The three fields agree on the number of rules.
    pub open spec fn wf(&self) -> bool {
        self.pair_count == self.patterns@.len() && self.pair_count == self.actions@.len()
    }

    /// A table without rules.
    pub fn new() -> (table: Self)
        ensures
            table.wf(),
            table@ == table_of(Seq::empty()),
    {
        let table = RuleTable { pair_count: 0, patterns: Vec::new(), actions: Vec::new() };
        assert(table@.patterns =~= Seq::empty());
        assert(table@.actions =~= Seq::empty());
        assert(table_of(Seq::empty()).patterns =~= Seq::empty());
        assert(table_of(Seq::empty()).actions =~= Seq::empty());
        table
    }

    /// Adds a rule at the end of the table.
    pub fn append_pair(&mut self, pattern: &[u8], action: &'a [u8])
        requires
            old(self).wf(),
        ensures
            final(self).wf(),
            final(self)@.pair_count == old(self)@.pair_count + 1,
            final(self)@.patterns == old(self)@.patterns.push(pattern@),
            final(self)@.actions == old(self)@.actions.push(action@),
    {
        let mut copy: Vec<u8> = Vec::new();
        append(&mut copy, pattern);
        assert(copy@ =~= pattern@);
        self.patterns.push(copy);
        self.actions.push(action);
        self.pair_count = self.patterns.len();
        assert(final(self)@.patterns =~= old(self)@.patterns.push(pattern@));
        assert(final(self)@.actions =~= old(self)@.actions.push(action@));
    }
}

/// Whether two byte strings are equal.
pub fn same_bytes(a: &[u8], b: &[u8]) -> (r: bool)
    ensures
        r == (a@ == b@),
{
    if a.len() != b.len() {
        return false;
    }
    let mut i: usize = 0;
    while i < a.len()
        invariant
            i <= a.len(),
            a.len() == b.len(),
            forall|k: int| 0 <= k < i ==> a@[k] == b@[k],
        decreases a.len() - i,
    {
        if a[i] != b[i] {
            return false;
        }
        i += 1;
    }
    assert(a@ =~= b@);
    true
}

/// Appends the decimal digits of `n` to `out`.
pub fn push_decimal(out: &mut Vec<u8>, n: usize)
    ensures
        final(out)@ == old(out)@ + decimal(n as nat),
    decreases n,
{
    if n >= 10 {
        push_decimal(out, n / 10);
    }
    let digit: u8 = 0x30 + (n % 10) as u8;
    out.push(digit);
    proof {
        if n < 10 {
            assert(old(out)@.push(digit) =~= old(out)@ + decimal(n as nat));
        } else {
            assert((old(out)@ + decimal((n / 10) as nat)).push(digit) =~= old(out)@ + decimal(
                n as nat,
            ));
        }
    }
}

/// The generator of the scanner for one specification.
pub struct CodeGen<'a> {
    ast: Root<'a>,
    options: Vec<GenOption>,
    rule_table: RuleTable<'a>,
}

impl<'a> CodeGen<'a> {
    /// The rule table is well formed.
    pub closed spec fn wf(&self) -> bool {
        self.rule_table.wf()
    }

    /// The specification that the scanner is generated for.
    pub closed spec fn ast(&self) -> RootView {
        self.ast@
    }

    /// The options that `generate` has recognized.
    pub closed spec fn spec_options(&self) -> Seq<GenOption> {
        self.options@
    }

    /// The table that `generate` has filled.
    pub closed spec fn spec_rule_table(&self) -> RuleTableView {
        self.rule_table@
    }

    /// A generator for the specification `ast`, with no option recognized yet
    /// and an empty rule table.
    pub fn new(ast: Root<'a>) -> (gen: Self)
        ensures
            gen.wf(),
            gen.ast() == ast@,
            gen.spec_options() == Seq::<GenOption>::empty(),
            gen.spec_rule_table() == table_of(Seq::empty()),
    {
        CodeGen { ast, options: Vec::new(), rule_table: RuleTable::new() }
    }

    /// The options that `generate` has recognized.
    pub fn options(&self) -> (r: &Vec<GenOption>)
        ensures
            r@ == self.spec_options(),
    {
        &self.options
    }

    /// The table that `generate` has filled.
    pub fn rule_table(&self) -> (r: &RuleTable<'a>)
        ensures
            r@ == self.spec_rule_table(),
            self.wf() ==> r.wf(),
    {
        &self.rule_table
    }

    /// Emits the C source of the scanner. Also records the options that the
    /// generator knows and fills the rule table, each anew.
    pub fn generate(&mut self) -> (out: Vec<u8>)
        ensures
            final(self).wf(),
            final(self).ast() == old(self).ast(),
            out@ == generated(old(self).ast()),
            final(self).spec_options() == options_of(old(self).ast()),
            final(self).spec_rule_table() == table_of(rules_of(old(self).ast())),
    {
        let mut out: Vec<u8> = Vec::new();
        append(&mut out, PREPARE.as_bytes());
        append(&mut out, REGEX_HEAD.as_bytes());
        append(&mut out, REGEX_STATE.as_bytes());
        append(&mut out, REGEX_LEXER.as_bytes());
        append(&mut out, REGEX_AST.as_bytes());
        append(&mut out, REGEX_PARSER.as_bytes());
        append(&mut out, REGEX_EDGE.as_bytes());
        append(&mut out, REGEX_NFA.as_bytes());
        append(&mut out, REGEX_BUILDER.as_bytes());
        append(&mut out, REGEX_MATCH.as_bytes());
        assert(out@ =~= PREPARE.spec_bytes() + engine());
        match &self.ast.definition_node {
            Some(node) => match &node.code {
                Some(code) => {
                    append(&mut out, DEFINITION_MARKER.as_bytes());
                    append(&mut out, code.value);
                    append(&mut out, LINE_END.as_bytes());
                },
                None => {},
            },
            None => {},
        }
        assert(out@ =~= PREPARE.spec_bytes() + engine() + definition_code(self.ast@));
        self.apply_options();
        self.fill_rule_table();
        let ghost before = out@;
        self.gen_rule_code(&mut out);
        match &self.ast.usercode_node {
            Some(node) => {
                append(&mut out, USERCODE_MARKER.as_bytes());
                append(&mut out, node.value);
            },
            None => {},
        }
        assert(out@ =~= before + rule_code(self.rule_table@) + user_code(self.ast@));
        out
    }

    /// Records the options of the specification that the generator knows.
    fn apply_options(&mut self)
        ensures
            final(self).ast == old(self).ast,
            final(self).rule_table == old(self).rule_table,
            final(self).options@ == options_of(old(self).ast@),
    {
        let mut known: Vec<GenOption> = Vec::new();
        match &self.ast.definition_node {
            Some(node) => match &node.options {
                Some(options) => {
                    let ghost names = options_view(options@);
                    let mut i: usize = 0;
                    while i < options.len()
                        invariant
                            i <= options.len(),
                            names == options_view(options@),
                            known@ == known_options(names, i as int),
                        decreases options.len() - i,
                    {
                        assert(names[i as int] == options@[i as int]@);
                        if same_bytes(options[i].value, NOYYWRAP.as_bytes()) {
                            known.push(GenOption::Noyywrap);
                        }
                        i += 1;
                    }
                },
                None => {},
            },
            None => {},
        }
        self.options = known;
    }

    /// Fills the rule table with the rules of the specification.
    fn fill_rule_table(&mut self)
        ensures
            final(self).ast == old(self).ast,
            final(self).options == old(self).options,
            final(self).rule_table.wf(),
            final(self).rule_table@ == table_of(rules_of(old(self).ast@)),
    {
        let mut table = RuleTable::new();
        match &self.ast.rule_node {
            Some(node) => match &node.rules {
                Some(rules) => {
                    let ghost rs = rules_view(rules@);
                    let mut i: usize = 0;
                    assert(rs.subrange(0, 0) =~= Seq::<RuleView>::empty());
                    while i < rules.len()
                        invariant
                            i <= rules.len(),
                            rs == rules_view(rules@),
                            table.wf(),
                            table@ == table_of(rs.subrange(0, i as int)),
                        decreases rules.len() - i,
                    {
                        assert(rs[i as int] == rules@[i as int]@);
                        table.append_pair(rules[i].pattern.as_slice(), rules[i].action);
                        i += 1;
                        proof {
                            let next = table_of(rs.subrange(0, i as int));
                            assert(table@.patterns =~= next.patterns);
                            assert(table@.actions =~= next.actions);
                        }
                    }
                    assert(rs.subrange(0, i as int) =~= rs);
                },
                None => {},
            },
            None => {},
        }
        self.rule_table = table;
    }

    /// Appends the code that the rules of the table give: the marker, the
    /// pattern array, the dispatch function and `yylex`.
    pub fn gen_rule_code(&self, out: &mut Vec<u8>)
        requires
            self.wf(),
        ensures
            final(out)@ == old(out)@ + rule_code(self.spec_rule_table()),
    {
        append(out, RULE_MARKER.as_bytes());
        self.gen_pattern_array(out);
        self.gen_action_function(out);
        append(out, YYLEX.as_bytes());
        append(out, LINE_END.as_bytes());
        assert(final(out)@ =~= old(out)@ + rule_code(self.rule_table@));
    }

    /// Appends the definition of `g_pattern_count` and the array `g_patterns`
    /// for the patterns of the table: the count is their number, and the array
    /// holds one entry for each, in their order.
    pub fn gen_pattern_array(&self, out: &mut Vec<u8>)
        requires
            self.wf(),
        ensures
            final(out)@ == old(out)@ + pattern_array(self.spec_rule_table().patterns),
            self.spec_rule_table().pair_count == self.spec_rule_table().patterns.len(),
    {
        let ghost patterns = self.rule_table@.patterns;
        append(out, COUNT_START.as_bytes());
        push_decimal(out, self.rule_table.pair_count);
        append(out, LINE_END.as_bytes());
        append(out, ARRAY_START.as_bytes());
        let ghost head = out@;
        let mut i: usize = 0;
        while i < self.rule_table.patterns.len()
            invariant
                i <= self.rule_table.patterns.len(),
                patterns == self.rule_table@.patterns,
                out@ == head + pattern_entries(patterns, i as int),
            decreases self.rule_table.patterns.len() - i,
        {
            let ghost before = out@;
            append(out, ENTRY_START.as_bytes());
            append(out, self.rule_table.patterns[i].as_slice());
            append(out, ENTRY_END.as_bytes());
            i += 1;
            assert(out@ =~= head + pattern_entries(patterns, i as int));
        }
        append(out, ARRAY_END.as_bytes());
        append(out, LINE_END.as_bytes());
        assert(final(out)@ =~= old(out)@ + pattern_array(patterns));
    }

    /// Appends the function `action` for the actions of the table: one branch
    /// for each, in their order, which tests for its index.
    pub fn gen_action_function(&self, out: &mut Vec<u8>)
        requires
            self.wf(),
        ensures
            final(out)@ == old(out)@ + action_function(self.spec_rule_table().actions),
    {
        let ghost actions = self.rule_table@.actions;
        append(out, ACTION_START.as_bytes());
        let ghost head = out@;
        let mut i: usize = 0;
        while i < self.rule_table.actions.len()
            invariant
                i <= self.rule_table.actions.len(),
                actions == self.rule_table@.actions,
                out@ == head + action_cases(actions, i as int),
            decreases self.rule_table.actions.len() - i,
        {
            append(out, CASE_START.as_bytes());
            push_decimal(out, i);
            append(out, CASE_OPEN.as_bytes());
            append(out, self.rule_table.actions[i]);
            append(out, CASE_END.as_bytes());
            i += 1;
            assert(out@ =~= head + action_cases(actions, i as int));
        }
        append(out, ACTION_END.as_bytes());
        assert(final(out)@ =~= old(out)@ + action_function(actions));
    }
}

} // verus!
