//! From the text of a specification to the C source of its scanner.
use vstd::prelude::*;
use vstd::string::StringSliceAdditionalSpecFns;
use crate::ast::RootView;
use crate::codegen::code::{PREPARE, YYLEX};
use crate::codegen::{
    CodeGen, LINE_END, RULE_MARKER, action_function, definition_code, engine, generated,
    pattern_array, rules_of, table_of, user_code,
};
use crate::bytes::append;
use crate::error::Error;
use crate::regex::builder::{build_many, combined, patterns_view};
use crate::regex::scanner::{Match, all_scanned, yylex};
use crate::lexer::{Lexer, delimiters, token_stream};
use crate::parser::Parser;
use crate::parser::expand::expand;
use crate::parser::grammar::parse_tokens;
use crate::parser::order::{
    declared_patterns, lemma_rule_order_preserved, macros_in, rules_in,
};

verus! {

/// The tree of the specification `source`, or the error that reading it
/// gives: `MalformedInput` where it has fewer than two delimiters, else the
/// first error of its tokens.
pub open spec fn parsed_source(source: Seq<u8>) -> Result<RootView, Error> {
    match delimiters(source) {
        None => Err(Error::MalformedInput),
        Some(d) => parse_tokens(token_stream(source, d)),
    }
}

/// The C source of the scanner for the specification `source`, or the error
/// that reading the specification gives.
pub open spec fn compiled(source: Seq<u8>) -> Result<Seq<u8>, Error> {
    match parsed_source(source) {
        Ok(root) => Ok(generated(root)),
        Err(e) => Err(e),
    }
}

/// Reads the specification `source` and emits the C source of its scanner.
pub fn compile(source: &[u8]) -> (r: Result<Vec<u8>, Error>)
    ensures
        match r {
            Ok(code) => compiled(source@) == Ok::<_, Error>(code@),
            Err(e) => compiled(source@) == Err::<Seq<u8>, _>(e),
        },
{
    let lexer = match Lexer::new(source) {
        Ok(lexer) => lexer,
        Err(e) => {
            return Err(e);
        },
    };
    let mut parser = Parser::new(lexer);
    let root = match parser.parse() {
        Ok(root) => root,
        Err(e) => {
            return Err(e);
        },
    };
    let mut generator = CodeGen::new(root);
    Ok(generator.generate())
}

/// The patterns of the rules of a parsed specification, in their order.
pub open spec fn rule_patterns(root: RootView) -> Seq<Seq<u8>> {
    Seq::new(rules_of(root).len(), |i: int| rules_of(root)[i].pattern)
}

/// What the engine of the module `regex` finds in `input` with the rules of
/// the specification `source`: the tokens with their rules, or the error that
/// reading the specification or building the automaton of its patterns
/// gives.
pub open spec fn simulated(source: Seq<u8>, input: Seq<u8>) -> Result<Seq<(Seq<u8>, int)>, Error> {
    match parsed_source(source) {
        Err(e) => Err(e),
        Ok(root) => match combined(rule_patterns(root), rule_patterns(root).len() as int) {
            Err(e) => Err(e),
            Ok(nfa) => Ok(all_scanned(nfa, input, 0)),
        },
    }
}

/// Reads the specification `source`, builds the automaton of its rule
/// patterns and scans `input` with it from start to end. Returns the tokens
/// with their rules, in order.
///
/// This runs the engine of the module `regex`, by the algorithm of the
/// emitted `yylex`. It is no run of the emitted C text, which can do
/// otherwise in the places that the module `regex` lists: among them, the C
/// compiler reads the backslash escapes of a pattern before the C engine
/// sees it, and a pattern that is no expression ends the C process.
pub fn simulate(source: &[u8], input: &[u8]) -> (r: Result<Vec<Match>, Error>)
    ensures
        match r {
            Ok(tokens) => simulated(source@, input@).is_ok() && tokens@.len() == simulated(
                source@,
                input@,
            ).unwrap().len() && forall|i: int|
                0 <= i < tokens@.len() ==> (#[trigger] tokens@[i]).text@ == simulated(
                    source@,
                    input@,
                ).unwrap()[i].0 && tokens@[i].rule.is_some() && tokens@[i].rule.unwrap()
                    == simulated(source@, input@).unwrap()[i].1,
            Err(e) => simulated(source@, input@) == Err::<Seq<(Seq<u8>, int)>, _>(e),
        },
{
    let lexer = match Lexer::new(source) {
        Ok(lexer) => lexer,
        Err(e) => {
            return Err(e);
        },
    };
    let mut parser = Parser::new(lexer);
    let root = match parser.parse() {
        Ok(root) => root,
        Err(e) => {
            return Err(e);
        },
    };
    let mut patterns: Vec<Vec<u8>> = Vec::new();
    match root.rule_node {
        Some(node) => match node.rules {
            Some(rules) => {
                let ghost all = rule_patterns(root@);
                let mut i: usize = 0;
                assert(patterns_view(patterns@) =~= all.subrange(0, 0));
                while i < rules.len()
                    invariant
                        i <= rules.len(),
                        all.len() == rules.len(),
                        forall|k: int| 0 <= k < rules.len() ==> all[k] == (#[trigger] rules@[k]).pattern@,
                        patterns_view(patterns@) == all.subrange(0, i as int),
                    decreases rules.len() - i,
                {
                    let ghost before = patterns_view(patterns@);
                    let mut copy: Vec<u8> = Vec::new();
                    append(&mut copy, rules[i].pattern.as_slice());
                    assert(copy@ =~= rules@[i as int].pattern@);
                    assert(all[i as int] == rules@[i as int].pattern@);
                    patterns.push(copy);
                    i += 1;
                    assert(patterns_view(patterns@) =~= before.push(all[i - 1]));
                    assert(before.push(all[i - 1]) =~= all.subrange(0, i as int));
                }
                assert(all.subrange(0, i as int) =~= all);
            },
            None => {
                assert(patterns_view(patterns@) =~= rule_patterns(root@));
            },
        },
        None => {
            assert(patterns_view(patterns@) =~= rule_patterns(root@));
        },
    }
    let nfa = match build_many(patterns.as_slice()) {
        Ok(nfa) => nfa,
        Err(e) => {
            return Err(e);
        },
    };
    Ok(yylex(&nfa, input))
}

/// The emitted array of patterns keeps the order of the rules: the scanner
/// of a specification that declares `n` rule patterns holds, between the
/// code of the definitions and the dispatch function, the array of exactly
/// `n` patterns of which entry `i` is the expansion of declared pattern `i`.
/// Where entry `i` stands in the text of the array is said by
/// `codegen::lemma_entry_in_place`.
pub proof fn lemma_patterns_emitted_in_order(source: Seq<u8>)
    requires
        compiled(source).is_ok(),
    ensures
        ({
            let root = parsed_source(source)->Ok_0;
            let declared = declared_patterns(token_stream(source, delimiters(source).unwrap()));
            let emitted = table_of(rules_of(root)).patterns;
            &&& emitted.len() == declared.len()
            &&& forall|i: int|
                0 <= i < declared.len() ==> expand(#[trigger] declared[i], macros_in(root))
                    == Some(emitted[i])
            &&& compiled(source)->Ok_0 == PREPARE.spec_bytes() + engine() + definition_code(root)
                + RULE_MARKER.spec_bytes() + pattern_array(emitted) + action_function(
                table_of(rules_of(root)).actions,
            ) + YYLEX.spec_bytes() + LINE_END.spec_bytes() + user_code(root)
        }),
{
    let root = parsed_source(source)->Ok_0;
    let ts = token_stream(source, delimiters(source).unwrap());
    lemma_rule_order_preserved(ts);
    assert(rules_in(root) == rules_of(root));
    let table = table_of(rules_of(root));
    assert(generated(root) =~= PREPARE.spec_bytes() + engine() + definition_code(root)
        + RULE_MARKER.spec_bytes() + pattern_array(table.patterns) + action_function(table.actions)
        + YYLEX.spec_bytes() + LINE_END.spec_bytes() + user_code(root));
}

} // verus!
