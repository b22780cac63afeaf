//! The rules of a parsed specification are the declared rules, in the order
//! of their declaration.
use vstd::prelude::*;
use crate::ast::RootView;
use crate::ast::definition::{DefinitionView, MacroView};
use crate::ast::rule::RuleView;
use crate::lexer::definition_token::definition_stream;
use crate::lexer::rule_token::{RuleTokenView, rule_stream};
use crate::lexer::usercode_token::usercode_stream;
use crate::lexer::{Spanned, TokenView, delimiters, raw_section, section, token_stream};
use crate::parser::expand::expand;
use crate::parser::grammar::{
    definitions_from, expand_rules_from, identifiers_from, macros_of, no_definitions, pairs_from,
    parse_tokens, rules_from, token_at, usercode_from, with_macros,
};

verus! {

/// The rule patterns among the tokens from `i` up to `j`, as written, in
/// their order.
pub open spec fn declared_between(ts: Seq<Spanned>, i: int, j: int) -> Seq<Seq<u8>>
    decreases j - i,
{
    if i >= j {
        Seq::empty()
    } else {
        match token_at(ts, i) {
            Some(TokenView::Rule(RuleTokenView::Pattern(p))) => seq![p] + declared_between(
                ts,
                i + 1,
                j,
            ),
            _ => declared_between(ts, i + 1, j),
        }
    }
}

/// The rule patterns that the tokens `ts` declare, as written, in their
/// order.
pub open spec fn declared_patterns(ts: Seq<Spanned>) -> Seq<Seq<u8>> {
    declared_between(ts, 0, ts.len() as int)
}

/// The macros of a parsed specification.
pub open spec fn macros_in(root: RootView) -> Seq<MacroView> {
    match root.definitions {
        Some(node) => macros_of(node),
        None => Seq::empty(),
    }
}

/// The rules of a parsed specification.
pub open spec fn rules_in(root: RootView) -> Seq<RuleView> {
    match root.rules {
        Some(Some(rules)) => rules,
        _ => Seq::empty(),
    }
}

proof fn lemma_declared_split(ts: Seq<Spanned>, a: int, b: int, c: int)
    requires
        a <= b <= c,
    ensures
        declared_between(ts, a, c) == declared_between(ts, a, b) + declared_between(ts, b, c),
    decreases b - a,
{
    if a < b {
        lemma_declared_split(ts, a + 1, b, c);
        assert(declared_between(ts, a, c) =~= declared_between(ts, a, b) + declared_between(
            ts,
            b,
            c,
        ));
    } else {
        assert(declared_between(ts, a, c) =~= declared_between(ts, a, b) + declared_between(
            ts,
            b,
            c,
        ));
    }
}

proof fn lemma_identifiers_declare_nothing(ts: Seq<Spanned>, i: int)
    requires
        0 <= i,
    ensures
        i + identifiers_from(ts, i).len() <= ts.len() || identifiers_from(ts, i).len() == 0,
        declared_between(ts, i, i + identifiers_from(ts, i).len()) == Seq::<Seq<u8>>::empty(),
    decreases ts.len() - i,
{
    if identifiers_from(ts, i).len() > 0 {
        lemma_identifiers_declare_nothing(ts, i + 1);
        assert(identifiers_from(ts, i).len() == 1 + identifiers_from(ts, i + 1).len());
    }
}

proof fn lemma_pairs_declare_nothing(ts: Seq<Spanned>, i: int)
    requires
        0 <= i,
        pairs_from(ts, i).is_ok(),
    ensures
        i <= pairs_from(ts, i)->Ok_0.1,
        declared_between(ts, i, pairs_from(ts, i)->Ok_0.1) == Seq::<Seq<u8>>::empty(),
    decreases ts.len() - i,
{
    match token_at(ts, i) {
        Some(TokenView::Definition(crate::lexer::definition_token::DefinitionTokenView::Name(_))) => {
            lemma_pairs_declare_nothing(ts, i + 2);
            let end = pairs_from(ts, i)->Ok_0.1;
            assert(declared_between(ts, i + 1, end) == declared_between(ts, i + 2, end));
        },
        _ => {},
    }
}

proof fn lemma_definitions_declare_nothing(ts: Seq<Spanned>, i: int, node: DefinitionView)
    requires
        0 <= i,
        definitions_from(ts, i, node).is_ok(),
    ensures
        i <= definitions_from(ts, i, node)->Ok_0.1,
        declared_between(ts, i, definitions_from(ts, i, node)->Ok_0.1) == Seq::<
            Seq<u8>,
        >::empty(),
        (token_at(ts, i) is Some && token_at(ts, i)->Some_0 is Definition) || definitions_from(
            ts,
            i,
            node,
        )->Ok_0 == (node, i),
    decreases ts.len() - i,
{
    let end = definitions_from(ts, i, node)->Ok_0.1;
    match token_at(ts, i) {
        Some(TokenView::Definition(t)) => {
            match t {
                crate::lexer::definition_token::DefinitionTokenView::OptionStart => {
                    let names = identifiers_from(ts, i + 1);
                    lemma_identifiers_declare_nothing(ts, i + 1);
                    if i + 1 + names.len() <= ts.len() {
                        let next = DefinitionView { options: Some(names), ..node };
                        lemma_definitions_declare_nothing(ts, i + 1 + names.len(), next);
                        lemma_declared_split(ts, i + 1, i + 1 + names.len(), end);
                    }
                },
                crate::lexer::definition_token::DefinitionTokenView::CCode(code) => {
                    lemma_definitions_declare_nothing(
                        ts,
                        i + 1,
                        DefinitionView { code: Some(code), ..node },
                    );
                },
                crate::lexer::definition_token::DefinitionTokenView::Name(_) => {
                    let run = pairs_from(ts, i)->Ok_0;
                    lemma_pairs_declare_nothing(ts, i);
                    if i < run.1 <= ts.len() {
                        lemma_definitions_declare_nothing(ts, run.1, with_macros(node, run.0));
                        lemma_declared_split(ts, i, run.1, end);
                    }
                },
                crate::lexer::definition_token::DefinitionTokenView::Newline => {
                    lemma_definitions_declare_nothing(ts, i + 1, node);
                },
                _ => {},
            }
        },
        _ => {},
    }
}

/// The patterns of a list of rules.
pub open spec fn patterns_of(rules: Seq<RuleView>) -> Seq<Seq<u8>> {
    Seq::new(rules.len(), |k: int| rules[k].pattern)
}

proof fn lemma_rules_are_declared(ts: Seq<Spanned>, i: int)
    requires
        0 <= i,
        rules_from(ts, i).is_ok(),
    ensures
        i <= rules_from(ts, i)->Ok_0.1,
        patterns_of(rules_from(ts, i)->Ok_0.0) == declared_between(
            ts,
            i,
            rules_from(ts, i)->Ok_0.1,
        ),
        (token_at(ts, i) is Some && token_at(ts, i)->Some_0 is Rule) || rules_from(ts, i)->Ok_0
            == (Seq::<RuleView>::empty(), i),
    decreases ts.len() - i,
{
    let end = rules_from(ts, i)->Ok_0.1;
    let raw = rules_from(ts, i)->Ok_0.0;
    match token_at(ts, i) {
        Some(TokenView::Rule(t)) => match t {
            RuleTokenView::Newline => {
                lemma_rules_are_declared(ts, i + 1);
            },
            RuleTokenView::Pattern(pattern) => {
                lemma_rules_are_declared(ts, i + 2);
                let rest = rules_from(ts, i + 2)->Ok_0.0;
                assert(declared_between(ts, i + 1, end) == declared_between(ts, i + 2, end));
                assert(patterns_of(raw) =~= seq![pattern] + patterns_of(rest));
            },
            RuleTokenView::Action(_) => {},
        },
        _ => {
            assert(patterns_of(raw) =~= Seq::<Seq<u8>>::empty());
        },
    }
}

proof fn lemma_expanded_rules(raw: Seq<RuleView>, macros: Seq<MacroView>, k: int)
    requires
        0 <= k <= raw.len(),
        expand_rules_from(raw, macros, k).is_ok(),
    ensures
        ({
            let rules = expand_rules_from(raw, macros, k)->Ok_0;
            &&& rules.len() == raw.len() - k
            &&& forall|m: int|
                0 <= m < rules.len() ==> expand(raw[k + m].pattern, macros) == Some(
                    (#[trigger] rules[m]).pattern,
                ) && rules[m].action == raw[k + m].action
        }),
    decreases raw.len() - k,
{
    if k < raw.len() {
        lemma_expanded_rules(raw, macros, k + 1);
        let rules = expand_rules_from(raw, macros, k)->Ok_0;
        let rest = expand_rules_from(raw, macros, k + 1)->Ok_0;
        assert forall|m: int| 0 <= m < rules.len() implies expand(raw[k + m].pattern, macros)
            == Some((#[trigger] rules[m]).pattern) && rules[m].action == raw[k + m].action by {
            if m > 0 {
                assert(rules[m] == rest[m - 1]);
            }
        }
    }
}

/// The order of the rules is kept: a specification that parses has as many
/// rules as its tokens declare patterns, and the pattern of rule `i` is the
/// expansion of the declared pattern `i`.
pub proof fn lemma_rule_order_preserved(ts: Seq<Spanned>)
    requires
        parse_tokens(ts).is_ok(),
    ensures
        ({
            let root = parse_tokens(ts)->Ok_0;
            let declared = declared_patterns(ts);
            &&& rules_in(root).len() == declared.len()
            &&& forall|i: int|
                0 <= i < declared.len() ==> expand(#[trigger] declared[i], macros_in(root))
                    == Some(rules_in(root)[i].pattern)
        }),
{
    let root = parse_tokens(ts)->Ok_0;
    let defs = definitions_from(ts, 0, no_definitions())->Ok_0;
    let node = defs.0;
    let i = defs.1;
    lemma_definitions_declare_nothing(ts, 0, no_definitions());
    let found = rules_from(ts, i + 1)->Ok_0;
    let raw = found.0;
    let j = found.1;
    lemma_rules_are_declared(ts, i + 1);
    let rules = expand_rules_from(raw, macros_of(node), 0)->Ok_0;
    lemma_expanded_rules(raw, macros_of(node), 0);
    let n = ts.len() as int;
    // the tokens before RuleStart, RuleStart itself, RuleEnd and what follows
    // declare no pattern
    assert(declared_between(ts, i, j) == declared_between(ts, i + 1, j));
    assert(usercode_from(ts, j + 1).is_ok());
    assert(declared_between(ts, j, n) =~= Seq::<Seq<u8>>::empty()) by {
        assert(declared_between(ts, j, n) == declared_between(ts, j + 1, n));
        if j + 1 < n {
            assert(declared_between(ts, j + 1, n) == declared_between(ts, j + 2, n));
        }
    }
    lemma_declared_split(ts, 0, i, n);
    lemma_declared_split(ts, i, j, n);
    assert(declared_patterns(ts) =~= patterns_of(raw));
    assert(macros_in(root) == macros_of(node));
    if token_at(ts, i + 1) is Some && token_at(ts, i + 1)->Some_0 is Rule {
        assert(rules_in(root) == rules);
    } else {
        assert(raw =~= Seq::<RuleView>::empty());
        assert(rules_in(root) =~= rules);
    }
    assert forall|k: int| 0 <= k < declared_patterns(ts).len() implies expand(
        #[trigger] declared_patterns(ts)[k],
        macros_in(root),
    ) == Some(rules_in(root)[k].pattern) by {
        assert(declared_patterns(ts)[k] == raw[k].pattern);
        assert(rules[k].pattern == rules_in(root)[k].pattern);
    }
}

/// Whether the token at `b` is a definition token.
spec fn is_definition(ts: Seq<Spanned>, b: int) -> bool {
    token_at(ts, b) is Some && token_at(ts, b)->Some_0 is Definition
}

/// Whether the token at `b` is a rule token.
spec fn is_rule(ts: Seq<Spanned>, b: int) -> bool {
    token_at(ts, b) is Some && token_at(ts, b)->Some_0 is Rule
}

proof fn lemma_identifiers_stop(ts: Seq<Spanned>, i: int, b: int)
    requires
        0 <= i <= b,
        !is_definition(ts, b),
    ensures
        i + identifiers_from(ts, i).len() <= b,
    decreases ts.len() - i,
{
    if identifiers_from(ts, i).len() > 0 {
        lemma_identifiers_stop(ts, i + 1, b);
    }
}

proof fn lemma_pairs_stop(ts: Seq<Spanned>, i: int, b: int)
    requires
        0 <= i <= b,
        !is_definition(ts, b),
        pairs_from(ts, i).is_ok(),
    ensures
        pairs_from(ts, i)->Ok_0.1 <= b,
    decreases ts.len() - i,
{
    match token_at(ts, i) {
        Some(TokenView::Definition(crate::lexer::definition_token::DefinitionTokenView::Name(_))) => {
            lemma_pairs_stop(ts, i + 2, b);
        },
        _ => {},
    }
}

/// Reading definitions never goes past a token that is no definition token.
proof fn lemma_definitions_stop(ts: Seq<Spanned>, i: int, node: DefinitionView, b: int)
    requires
        0 <= i <= b,
        !is_definition(ts, b),
        definitions_from(ts, i, node).is_ok(),
    ensures
        definitions_from(ts, i, node)->Ok_0.1 <= b,
    decreases ts.len() - i,
{
    match token_at(ts, i) {
        Some(TokenView::Definition(t)) => {
            match t {
                crate::lexer::definition_token::DefinitionTokenView::OptionStart => {
                    let names = identifiers_from(ts, i + 1);
                    lemma_identifiers_stop(ts, i + 1, b);
                    if i + 1 + names.len() <= ts.len() {
                        lemma_definitions_stop(
                            ts,
                            i + 1 + names.len(),
                            DefinitionView { options: Some(names), ..node },
                            b,
                        );
                    }
                },
                crate::lexer::definition_token::DefinitionTokenView::CCode(code) => {
                    lemma_definitions_stop(ts, i + 1, DefinitionView { code: Some(code), ..node }, b);
                },
                crate::lexer::definition_token::DefinitionTokenView::Name(_) => {
                    let run = pairs_from(ts, i)->Ok_0;
                    lemma_pairs_stop(ts, i, b);
                    if i < run.1 <= ts.len() {
                        lemma_definitions_stop(ts, run.1, with_macros(node, run.0), b);
                    }
                },
                crate::lexer::definition_token::DefinitionTokenView::Newline => {
                    lemma_definitions_stop(ts, i + 1, node, b);
                },
                _ => {},
            }
        },
        _ => {},
    }
}

/// Reading rules never goes past a token that is no rule token.
proof fn lemma_rules_stop(ts: Seq<Spanned>, i: int, b: int)
    requires
        0 <= i <= b,
        !is_rule(ts, b),
        rules_from(ts, i).is_ok(),
    ensures
        rules_from(ts, i)->Ok_0.1 <= b,
    decreases ts.len() - i,
{
    match token_at(ts, i) {
        Some(TokenView::Rule(t)) => match t {
            RuleTokenView::Newline => {
                lemma_rules_stop(ts, i + 1, b);
            },
            RuleTokenView::Pattern(_) => {
                lemma_rules_stop(ts, i + 2, b);
            },
            RuleTokenView::Action(_) => {},
        },
        _ => {},
    }
}

/// The user code is kept byte for byte: the tree of a specification that
/// parses holds as its user code the text after the second delimiter, as it
/// stands, and holds none where nothing stands there.
pub proof fn lemma_user_code_verbatim(source: Seq<u8>)
    requires
        delimiters(source).is_some(),
        parse_tokens(token_stream(source, delimiters(source).unwrap())).is_ok(),
    ensures
        ({
            let d = delimiters(source).unwrap();
            let tail = source.subrange(d.1 + 2, source.len() as int);
            parse_tokens(token_stream(source, d))->Ok_0.usercode == if tail.len() > 0 {
                Some(tail)
            } else {
                None
            }
        }),
{
    let d = delimiters(source).unwrap();
    let ts = token_stream(source, d);
    let tail = raw_section(source, d, 2);
    let defs = definition_stream(section(source, d, 0), 0, false);
    let rules = rule_stream(section(source, d, 1), 0);
    let code = usercode_stream(tail, 0);
    let a = defs.len() as int;
    let b = a + 1 + rules.len();
    assert(ts.len() == b + 1 + code.len());
    assert forall|k: int| 0 <= k < a implies token_at(ts, k) != Some(TokenView::RuleStart) by {
        assert(ts[k].item == crate::lexer::lift_definition(defs[k]).item);
    }
    assert(ts[a].item == Ok::<TokenView, crate::error::Error>(TokenView::RuleStart));
    assert forall|k: int| a < k < b implies token_at(ts, k) != Some(TokenView::RuleEnd) by {
        assert(ts[k].item == crate::lexer::lift_rule(rules[k - a - 1], d.0 + 2).item);
    }
    assert(ts[b].item == Ok::<TokenView, crate::error::Error>(TokenView::RuleEnd));
    let i = definitions_from(ts, 0, no_definitions())->Ok_0.1;
    lemma_definitions_declare_nothing(ts, 0, no_definitions());
    lemma_definitions_stop(ts, 0, no_definitions(), a);
    assert(i == a);
    let j = rules_from(ts, i + 1)->Ok_0.1;
    lemma_rules_are_declared(ts, i + 1);
    lemma_rules_stop(ts, i + 1, b);
    assert(j == b);
    if tail.len() > 0 {
        assert(ts[b + 1].item == crate::lexer::lift_usercode(code[0], d.1 + 2).item);
        assert(tail.subrange(0, tail.len() as int) =~= tail);
    }
}

} // verus!
