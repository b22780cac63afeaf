//! Building the tree of a specification from its tokens.
use vstd::prelude::*;
use vstd::slice::slice_to_vec;
use crate::ast::Root;
use crate::ast::definition::{
    CodeNode, DefinitionNode, DefinitionPairNode, DefinitionView, MacroView, OptionNode,
    macros_view, options_view,
};
use crate::ast::rule::{RuleNode, RulePairNode, RuleView, rules_view};
use crate::ast::usercode::UserCodeNode;
use crate::error::{Error, SyntaxKind};
use crate::lexer::definition_token::DefinitionToken;
use crate::lexer::rule_token::RuleToken;
use crate::lexer::usercode_token::UsercodeToken;
use crate::lexer::{Lexer, Spanned, Token, TokenView, item_view};
use crate::parser::expand::expand_pattern;
use crate::parser::grammar::{
    definitions_from, expand_rules_from, identifiers_from, macros_of, no_definitions, offset_at,
    pairs_from, parse_tokens, rejected, rules_from, token_at, usercode_from, with_macros,
};

pub mod expand;
pub mod grammar;
pub mod order;
pub mod rule_parser;

verus! {

/// A parser over the tokens of a lexer.
pub struct Parser<'a> {
    lexer: Lexer<'a>,
    current_token: Option<Result<Token<'a>, Error>>,
    offset: usize,
}

/// `r` with `acc` put before the macros that it holds.
pub open spec fn after_pairs(acc: Seq<MacroView>, r: Result<(Seq<MacroView>, int), Error>) -> Result<
    (Seq<MacroView>, int),
    Error,
> {
    match r {
        Ok((rest, j)) => Ok((acc + rest, j)),
        Err(e) => Err(e),
    }
}

/// `r` with `acc` put before the rules that it holds.
pub open spec fn after_rules(acc: Seq<RuleView>, r: Result<(Seq<RuleView>, int), Error>) -> Result<
    (Seq<RuleView>, int),
    Error,
> {
    match r {
        Ok((rest, j)) => Ok((acc + rest, j)),
        Err(e) => Err(e),
    }
}

/// `r` with `acc` put before the rules that it holds.
pub open spec fn after_expanded(acc: Seq<RuleView>, r: Result<Seq<RuleView>, Error>) -> Result<
    Seq<RuleView>,
    Error,
> {
    match r {
        Ok(rest) => Ok(acc + rest),
        Err(e) => Err(e),
    }
}

/// The identifiers in a row from `i` on end inside the tokens.
proof fn lemma_identifiers_bound(ts: Seq<Spanned>, i: int)
    requires
        0 <= i <= ts.len(),
    ensures
        i + identifiers_from(ts, i).len() <= ts.len(),
    decreases ts.len() - i,
{
    match token_at(ts, i) {
        Some(TokenView::Definition(crate::lexer::definition_token::DefinitionTokenView::Identifier(_))) => {
            lemma_identifiers_bound(ts, i + 1);
        },
        _ => {},
    }
}

impl<'a> Parser<'a> {
    /// The lexer is well formed.
    pub closed spec fn wf(&self) -> bool {
        self.lexer.wf()
    }

    /// The tokens that `parse` will read.
    pub closed spec fn tokens(&self) -> Seq<Spanned> {
        self.lexer.remaining()
    }

    /// The parser stands at position `i` of the tokens `ts`: the current token
    /// is the one at `i`, and the lexer holds those after it.
    spec fn at(&self, ts: Seq<Spanned>, i: int) -> bool {
        &&& self.lexer.wf()
        &&& 0 <= i <= ts.len()
        &&& i < ts.len() ==> {
            &&& self.current_token is Some
            &&& item_view(self.current_token->Some_0) == ts[i].item
            &&& self.offset == ts[i].offset
            &&& self.lexer.remaining() == ts.skip(i + 1)
        }
        &&& i == ts.len() ==> {
            &&& self.current_token is None
            &&& self.lexer.remaining().len() == 0
            &&& self.offset == offset_at(ts, i)
        }
    }

    /// A parser that reads the tokens of `lexer`.
    pub fn new(lexer: Lexer<'a>) -> (parser: Self)
        requires
            lexer.wf(),
        ensures
            parser.wf(),
            parser.tokens() == lexer.remaining(),
    {
        Parser { lexer, current_token: None, offset: 0 }
    }

    /// Moves to the next token.
    fn advance(&mut self, Ghost(ts): Ghost<Seq<Spanned>>, Ghost(i): Ghost<int>)
        requires
            old(self).at(ts, i),
            i < ts.len(),
        ensures
            final(self).at(ts, i + 1),
    {
        let next = self.lexer.next();
        match next {
            Some(_) => {
                self.offset = self.lexer.offset();
                assert(ts.skip(i + 1).skip(1) =~= ts.skip(i + 2));
            },
            None => {},
        }
        self.current_token = next;
    }

    /// The error for the current token where the grammar does not accept it.
    fn reject(&self, kind: SyntaxKind, Ghost(ts): Ghost<Seq<Spanned>>, Ghost(i): Ghost<int>) -> (e:
        Error)
        requires
            self.at(ts, i),
        ensures
            e == rejected(ts, i, kind),
    {
        match self.current_token {
            Some(Err(e)) => e,
            _ => Error::SyntaxError(kind, self.offset),
        }
    }

    /// Reads a whole specification and builds its tree. The macro references
    /// in the rule patterns are expanded.
    pub fn parse(&mut self) -> (r: Result<Root<'a>, Error>)
        requires
            old(self).wf(),
        ensures
            final(self).wf(),
            match r {
                Ok(root) => parse_tokens(old(self).tokens()) == Ok::<_, Error>(root@),
                Err(e) => parse_tokens(old(self).tokens()) == Err::<crate::ast::RootView, _>(e),
            },
    {
        let ghost ts = self.lexer.remaining();
        // load the first token
        self.offset = 0;
        let first = self.lexer.next();
        match first {
            Some(_) => {
                self.offset = self.lexer.offset();
            },
            None => {},
        }
        self.current_token = first;
        assert(self.at(ts, 0));
        let has_definitions = match first {
            Some(Ok(Token::Definition(_))) => true,
            _ => false,
        };
        let node = match self.parse_definitions(Ghost(ts), Ghost(0)) {
            Ok(node) => node,
            Err(e) => {
                return Err(e);
            },
        };
        let ghost i = definitions_from(ts, 0, no_definitions())->Ok_0.1;
        match self.current_token {
            Some(Ok(Token::RuleStart)) => {},
            _ => {
                return Err(self.reject(SyntaxKind::UnexpectedToken, Ghost(ts), Ghost(i)));
            },
        }
        self.advance(Ghost(ts), Ghost(i));
        let has_rules = match self.current_token {
            Some(Ok(Token::Rule(_))) => true,
            _ => false,
        };
        let raw = match self.parse_rules(Ghost(ts), Ghost(i + 1)) {
            Ok(raw) => raw,
            Err(e) => {
                return Err(e);
            },
        };
        let ghost j = rules_from(ts, i + 1)->Ok_0.1;
        match self.current_token {
            Some(Ok(Token::RuleEnd)) => {},
            _ => {
                return Err(self.reject(SyntaxKind::UnexpectedToken, Ghost(ts), Ghost(j)));
            },
        }
        self.advance(Ghost(ts), Ghost(j));
        let usercode_node = match self.parse_usercode(Ghost(ts), Ghost(j + 1)) {
            Ok(node) => node,
            Err(e) => {
                return Err(e);
            },
        };
        let rules = match expand_rules(raw, &node) {
            Ok(rules) => rules,
            Err(e) => {
                return Err(e);
            },
        };
        Ok(
            Root {
                definition_node: if has_definitions {
                    Some(node)
                } else {
                    None
                },
                rule_node: if has_rules {
                    Some(RuleNode { rules: Some(rules) })
                } else {
                    None
                },
                usercode_node,
            },
        )
    }

    /// Reads the definition tokens from the current one on.
    fn parse_definitions(&mut self, Ghost(ts): Ghost<Seq<Spanned>>, Ghost(i0): Ghost<int>) -> (r:
        Result<DefinitionNode<'a>, Error>)
        requires
            old(self).at(ts, i0),
        ensures
            final(self).wf(),
            match r {
                Ok(node) => {
                    &&& definitions_from(ts, i0, no_definitions()) is Ok
                    &&& definitions_from(ts, i0, no_definitions())->Ok_0.0 == node@
                    &&& final(self).at(ts, definitions_from(ts, i0, no_definitions())->Ok_0.1)
                },
                Err(e) => definitions_from(ts, i0, no_definitions()) == Err::<
                    (DefinitionView, int),
                    _,
                >(e),
            },
    {
        let mut options: Option<Vec<OptionNode<'a>>> = None;
        let mut code: Option<CodeNode<'a>> = None;
        let mut pairs: Vec<DefinitionPairNode<'a>> = Vec::new();
        let mut has_pairs = false;
        let ghost mut i = i0;
        let ghost mut node = no_definitions();
        loop
            invariant
                self.at(ts, i),
                definitions_from(ts, i0, no_definitions()) == definitions_from(ts, i, node),
                node.options == match options {
                    Some(v) => Some(options_view(v@)),
                    None => None,
                },
                node.code == match code {
                    Some(c) => Some(c@),
                    None => None,
                },
                node.definitions == if has_pairs {
                    Some(macros_view(pairs@))
                } else {
                    None
                },
                !has_pairs ==> pairs@.len() == 0,
            decreases ts.len() - i,
        {
            let cur = self.current_token;
            let t = match cur {
                Some(Ok(Token::Definition(t))) => t,
                _ => {
                    let definitions = if has_pairs {
                        Some(pairs)
                    } else {
                        None
                    };
                    return Ok(DefinitionNode { options, code, definitions });
                },
            };
            match t {
                DefinitionToken::OptionStart => {
                    proof {
                        lemma_identifiers_bound(ts, i + 1);
                    }
                    let names = self.parse_options(Ghost(ts), Ghost(i));
                    proof {
                        i = i + 1 + identifiers_from(ts, i + 1).len();
                        node = DefinitionView { options: Some(options_view(names@)), ..node };
                    }
                    options = Some(names);
                },
                DefinitionToken::CCode(c) => {
                    self.advance(Ghost(ts), Ghost(i));
                    code = Some(CodeNode::from(c));
                    proof {
                        i = i + 1;
                        node = DefinitionView { code: Some(c@), ..node };
                    }
                },
                DefinitionToken::Name(_) => {
                    let mut more = match self.parse_definition_pairs(Ghost(ts), Ghost(i)) {
                        Ok(more) => more,
                        Err(e) => {
                            return Err(e);
                        },
                    };
                    let ghost before = pairs@;
                    let ghost added = more@;
                    pairs.append(&mut more);
                    proof {
                        assert(macros_view(pairs@) =~= macros_view(before) + macros_view(added));
                        if !has_pairs {
                            assert(macros_view(before) =~= Seq::<MacroView>::empty());
                        }
                        node = with_macros(node, macros_view(added));
                        i = pairs_from(ts, i)->Ok_0.1;
                    }
                    has_pairs = true;
                },
                DefinitionToken::Newline => {
                    self.advance(Ghost(ts), Ghost(i));
                    proof {
                        i = i + 1;
                    }
                },
                DefinitionToken::Identifier(_) => {
                    return Err(self.reject(SyntaxKind::UnexpectedToken, Ghost(ts), Ghost(i)));
                },
                DefinitionToken::Pattern(_) => {
                    return Err(self.reject(SyntaxKind::UnexpectedToken, Ghost(ts), Ghost(i)));
                },
            }
        }
    }

    /// Reads the names and patterns that follow each other, pair by pair.
    fn parse_definition_pairs(&mut self, Ghost(ts): Ghost<Seq<Spanned>>, Ghost(i0): Ghost<int>) -> (r:
        Result<Vec<DefinitionPairNode<'a>>, Error>)
        requires
            old(self).at(ts, i0),
            token_at(ts, i0) is Some,
            token_at(ts, i0)->Some_0 is Definition,
            token_at(ts, i0)->Some_0->Definition_0 is Name,
        ensures
            final(self).wf(),
            match r {
                Ok(pairs) => {
                    &&& pairs_from(ts, i0) is Ok
                    &&& pairs_from(ts, i0)->Ok_0.0 == macros_view(pairs@)
                    &&& i0 < pairs_from(ts, i0)->Ok_0.1 <= ts.len()
                    &&& final(self).at(ts, pairs_from(ts, i0)->Ok_0.1)
                },
                Err(e) => pairs_from(ts, i0) == Err::<(Seq<MacroView>, int), _>(e),
            },
    {
        let mut pairs: Vec<DefinitionPairNode<'a>> = Vec::new();
        let ghost mut i = i0;
        assert(macros_view(pairs@) =~= Seq::<MacroView>::empty());
        assert(pairs_from(ts, i0) == after_pairs(macros_view(pairs@), pairs_from(ts, i))) by {
            match pairs_from(ts, i) {
                Ok((rest, j)) => {
                    assert(Seq::<MacroView>::empty() + rest =~= rest);
                },
                Err(_) => {},
            }
        }
        loop
            invariant
                self.at(ts, i),
                i0 <= i,
                i == i0 ==> token_at(ts, i0) is Some && token_at(ts, i0)->Some_0 is Definition
                    && token_at(ts, i0)->Some_0->Definition_0 is Name,
                pairs_from(ts, i0) == after_pairs(macros_view(pairs@), pairs_from(ts, i)),
            decreases ts.len() - i,
        {
            let name = match self.current_token {
                Some(Ok(Token::Definition(DefinitionToken::Name(name)))) => name,
                _ => {
                    assert(macros_view(pairs@) + Seq::<MacroView>::empty() =~= macros_view(pairs@));
                    return Ok(pairs);
                },
            };
            self.advance(Ghost(ts), Ghost(i));
            match self.current_token {
                Some(Ok(Token::Definition(DefinitionToken::Pattern(definition)))) => {
                    self.advance(Ghost(ts), Ghost(i + 1));
                    let ghost before = pairs@;
                    pairs.push(DefinitionPairNode { name, definition });
                    proof {
                        let m = MacroView { name: name@, definition: definition@ };
                        assert(macros_view(pairs@) =~= macros_view(before).push(m));
                        match pairs_from(ts, i + 2) {
                            Ok((rest, j)) => {
                                assert(macros_view(before) + (seq![m] + rest) =~= macros_view(
                                    pairs@,
                                ) + rest);
                            },
                            Err(_) => {},
                        }
                        i = i + 2;
                    }
                },
                _ => {
                    return Err(self.reject(SyntaxKind::MissingPattern, Ghost(ts), Ghost(i + 1)));
                },
            }
        }
    }

    /// Reads `%option` and the identifiers after it.
    fn parse_options(&mut self, Ghost(ts): Ghost<Seq<Spanned>>, Ghost(i0): Ghost<int>) -> (r: Vec<
        OptionNode<'a>,
    >)
        requires
            old(self).at(ts, i0),
            i0 < ts.len(),
        ensures
            options_view(r@) == identifiers_from(ts, i0 + 1),
            final(self).at(ts, i0 + 1 + identifiers_from(ts, i0 + 1).len()),
    {
        let mut options: Vec<OptionNode<'a>> = Vec::new();
        self.advance(Ghost(ts), Ghost(i0));
        let ghost mut i = i0 + 1;
        assert(options_view(options@) =~= Seq::<Seq<u8>>::empty());
        loop
            invariant
                self.at(ts, i),
                i == i0 + 1 + options@.len(),
                options_view(options@) + identifiers_from(ts, i) =~= identifiers_from(ts, i0 + 1),
            decreases ts.len() - i,
        {
            match self.current_token {
                Some(Ok(Token::Definition(DefinitionToken::Identifier(name)))) => {
                    let ghost before = options@;
                    options.push(OptionNode::from(name));
                    self.advance(Ghost(ts), Ghost(i));
                    proof {
                        assert(options_view(options@) =~= options_view(before).push(name@));
                        assert(options_view(before) + (seq![name@] + identifiers_from(ts, i + 1))
                            =~= options_view(options@) + identifiers_from(ts, i + 1));
                        i = i + 1;
                    }
                },
                _ => {
                    assert(identifiers_from(ts, i) =~= Seq::<Seq<u8>>::empty());
                    return options;
                },
            }
        }
    }

    /// Reads the rule tokens from the current one on. The patterns are kept as
    /// written.
    fn parse_rules(&mut self, Ghost(ts): Ghost<Seq<Spanned>>, Ghost(i0): Ghost<int>) -> (r: Result<
        Vec<RulePairNode<'a>>,
        Error,
    >)
        requires
            old(self).at(ts, i0),
        ensures
            final(self).wf(),
            match r {
                Ok(rules) => {
                    &&& rules_from(ts, i0) is Ok
                    &&& rules_from(ts, i0)->Ok_0.0 == rules_view(rules@)
                    &&& final(self).at(ts, rules_from(ts, i0)->Ok_0.1)
                },
                Err(e) => rules_from(ts, i0) == Err::<(Seq<RuleView>, int), _>(e),
            },
    {
        let mut rules: Vec<RulePairNode<'a>> = Vec::new();
        let ghost mut i = i0;
        assert(rules_view(rules@) =~= Seq::<RuleView>::empty());
        assert(rules_from(ts, i0) == after_rules(rules_view(rules@), rules_from(ts, i))) by {
            match rules_from(ts, i) {
                Ok((rest, j)) => {
                    assert(Seq::<RuleView>::empty() + rest =~= rest);
                },
                Err(_) => {},
            }
        }
        loop
            invariant
                self.at(ts, i),
                rules_from(ts, i0) == after_rules(rules_view(rules@), rules_from(ts, i)),
            decreases ts.len() - i,
        {
            let cur = self.current_token;
            let t = match cur {
                Some(Ok(Token::Rule(t))) => t,
                _ => {
                    assert(rules_view(rules@) + Seq::<RuleView>::empty() =~= rules_view(rules@));
                    return Ok(rules);
                },
            };
            match t {
                RuleToken::Newline => {
                    self.advance(Ghost(ts), Ghost(i));
                    proof {
                        i = i + 1;
                    }
                },
                RuleToken::Pattern(pattern) => {
                    self.advance(Ghost(ts), Ghost(i));
                    match self.current_token {
                        Some(Ok(Token::Rule(RuleToken::Action(action)))) => {
                            self.advance(Ghost(ts), Ghost(i + 1));
                            let ghost before = rules@;
                            rules.push(RulePairNode { pattern: slice_to_vec(pattern), action });
                            proof {
                                let rule = RuleView { pattern: pattern@, action: action@ };
                                assert(rules_view(rules@) =~= rules_view(before).push(rule));
                                match rules_from(ts, i + 2) {
                                    Ok((rest, j)) => {
                                        assert(rules_view(before) + (seq![rule] + rest)
                                            =~= rules_view(rules@) + rest);
                                    },
                                    Err(_) => {},
                                }
                                i = i + 2;
                            }
                        },
                        _ => {
                            return Err(
                                self.reject(SyntaxKind::MissingAction, Ghost(ts), Ghost(i + 1)),
                            );
                        },
                    }
                },
                RuleToken::Action(_) => {
                    return Err(self.reject(SyntaxKind::UnexpectedToken, Ghost(ts), Ghost(i)));
                },
            }
        }
    }

    /// Reads the user code, which is the last token if there is any.
    fn parse_usercode(&mut self, Ghost(ts): Ghost<Seq<Spanned>>, Ghost(i): Ghost<int>) -> (r:
        Result<Option<UserCodeNode<'a>>, Error>)
        requires
            old(self).at(ts, i),
        ensures
            final(self).wf(),
            match r {
                Ok(node) => usercode_from(ts, i) == Ok::<_, Error>(
                    match node {
                        Some(n) => Some(n@),
                        None => None,
                    },
                ),
                Err(e) => usercode_from(ts, i) == Err::<Option<Seq<u8>>, _>(e),
            },
    {
        match self.current_token {
            None => Ok(None),
            Some(Ok(Token::Ucode(UsercodeToken::CCode(code)))) => {
                self.advance(Ghost(ts), Ghost(i));
                match self.current_token {
                    None => Ok(Some(UserCodeNode::from(code))),
                    Some(_) => Err(
                        self.reject(SyntaxKind::UnexpectedToken, Ghost(ts), Ghost(i + 1)),
                    ),
                }
            },
            Some(_) => Err(self.reject(SyntaxKind::UnexpectedToken, Ghost(ts), Ghost(i))),
        }
    }
}

/// Expands the patterns of the rules `raw` with the macros of `node`.
fn expand_rules<'a>(raw: Vec<RulePairNode<'a>>, node: &DefinitionNode<'_>) -> (r: Result<
    Vec<RulePairNode<'a>>,
    Error,
>)
    ensures
        match r {
            Ok(rules) => expand_rules_from(rules_view(raw@), macros_of(node@), 0) == Ok::<_, Error>(
                rules_view(rules@),
            ),
            Err(e) => expand_rules_from(rules_view(raw@), macros_of(node@), 0) == Err::<
                Seq<RuleView>,
                _,
            >(e),
        },
{
    let none: Vec<DefinitionPairNode<'_>> = Vec::new();
    let macros: &Vec<DefinitionPairNode<'_>> = match &node.definitions {
        Some(v) => v,
        None => &none,
    };
    let ghost ms = macros_of(node@);
    assert(macros_view(macros@) =~= ms);
    let ghost rs = rules_view(raw@);
    let mut rules: Vec<RulePairNode<'a>> = Vec::new();
    let mut k: usize = 0;
    assert(rules_view(rules@) =~= Seq::<RuleView>::empty());
    assert(expand_rules_from(rs, ms, 0) == after_expanded(
        rules_view(rules@),
        expand_rules_from(rs, ms, 0),
    )) by {
        match expand_rules_from(rs, ms, 0) {
            Ok(rest) => {
                assert(Seq::<RuleView>::empty() + rest =~= rest);
            },
            Err(_) => {},
        }
    }
    while k < raw.len()
        invariant
            k <= raw.len(),
            rs == rules_view(raw@),
            ms == macros_view(macros@),
            ms == macros_of(node@),
            expand_rules_from(rs, ms, 0) == after_expanded(
                rules_view(rules@),
                expand_rules_from(rs, ms, k as int),
            ),
        decreases raw.len() - k,
    {
        assert(rs[k as int] == raw[k as int]@);
        match expand_pattern(raw[k].pattern.as_slice(), macros.as_slice()) {
            None => {
                return Err(Error::ExpansionLimit(k));
            },
            Some(pattern) => {
                let ghost before = rules@;
                let ghost rule = RuleView { pattern: pattern@, action: raw[k as int].action@ };
                rules.push(RulePairNode { pattern, action: raw[k].action });
                proof {
                    assert(rules_view(rules@) =~= rules_view(before).push(rule));
                    match expand_rules_from(rs, ms, k + 1) {
                        Ok(rest) => {
                            assert(rules_view(before) + (seq![rule] + rest) =~= rules_view(rules@)
                                + rest);
                        },
                        Err(_) => {},
                    }
                }
            },
        }
        k += 1;
    }
    assert(rules_view(rules@) + Seq::<RuleView>::empty() =~= rules_view(rules@));
    Ok(rules)
}

} // verus!
