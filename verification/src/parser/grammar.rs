//! What parsing means: the tree that a sequence of tokens stands for.
//!
//! The grammar is
//!
//! ```text
//! Root        := Definitions? RuleStart Rules? RuleEnd UserCode?
//! Definitions := (Option | CCode | MacroPair | Newline)*
//! Option      := OptionStart Identifier*
//! MacroPair   := Name Pattern
//! Rules       := (Pattern Action | Newline)*
//! UserCode    := CCode
//! ```
use vstd::prelude::*;
use crate::ast::RootView;
use crate::ast::definition::{DefinitionView, MacroView};
use crate::ast::rule::RuleView;
use crate::error::{Error, SyntaxKind};
use crate::lexer::definition_token::DefinitionTokenView;
use crate::lexer::rule_token::RuleTokenView;
use crate::lexer::usercode_token::UsercodeTokenView;
use crate::lexer::{Spanned, TokenView};
use crate::parser::expand::expand;

verus! {

/// The offset that is reported for position `i` of `ts`: that of the token at
/// `i`, or, past the end, that of the last token (0 where there is none).
pub open spec fn offset_at(ts: Seq<Spanned>, i: int) -> int {
    if 0 <= i < ts.len() {
        ts[i].offset
    } else if ts.len() > 0 {
        ts.last().offset
    } else {
        0
    }
}

/// The error for a token at `i` that the grammar does not accept there: the
/// lexical error itself where the lexer reported one at `i`, else a syntax
/// error of the given kind at the offset of `i`.
pub open spec fn rejected(ts: Seq<Spanned>, i: int, kind: SyntaxKind) -> Error {
    if 0 <= i < ts.len() && ts[i].item is Err {
        ts[i].item->Err_0
    } else {
        Error::SyntaxError(kind, offset_at(ts, i) as usize)
    }
}

/// The token at `i`, if there is one and it is no lexical error.
pub open spec fn token_at(ts: Seq<Spanned>, i: int) -> Option<TokenView> {
    if 0 <= i < ts.len() {
        match ts[i].item {
            Ok(t) => Some(t),
            Err(_) => None,
        }
    } else {
        None
    }
}

/// The names of the identifiers that stand in a row from `i` on.
pub open spec fn identifiers_from(ts: Seq<Spanned>, i: int) -> Seq<Seq<u8>>
    decreases ts.len() - i,
{
    match token_at(ts, i) {
        Some(TokenView::Definition(DefinitionTokenView::Identifier(name))) => seq![name]
            + identifiers_from(ts, i + 1),
        _ => Seq::empty(),
    }
}

/// A definitions node that declares nothing.
pub open spec fn no_definitions() -> DefinitionView {
    DefinitionView { options: None, code: None, definitions: None }
}

/// The macros that a definitions node declares.
pub open spec fn macros_of(node: DefinitionView) -> Seq<MacroView> {
    match node.definitions {
        Some(ms) => ms,
        None => Seq::empty(),
    }
}

/// `node` with the macros `ms` at the end of its list.
pub open spec fn with_macros(node: DefinitionView, ms: Seq<MacroView>) -> DefinitionView {
    DefinitionView { definitions: Some(macros_of(node) + ms), ..node }
}

/// The macros that the names and patterns from `i` on declare, as long as one
/// pair follows the other, and the position of the first token after them. A
/// name without a pattern is an error.
pub open spec fn pairs_from(ts: Seq<Spanned>, i: int) -> Result<(Seq<MacroView>, int), Error>
    decreases ts.len() - i,
{
    match token_at(ts, i) {
        Some(TokenView::Definition(DefinitionTokenView::Name(name))) => match token_at(ts, i + 1) {
            Some(TokenView::Definition(DefinitionTokenView::Pattern(definition))) => match pairs_from(
                ts,
                i + 2,
            ) {
                Ok((rest, j)) => Ok((seq![MacroView { name, definition }] + rest, j)),
                Err(e) => Err(e),
            },
            _ => Err(rejected(ts, i + 1, SyntaxKind::MissingPattern)),
        },
        _ => Ok((Seq::empty(), i)),
    }
}

/// The definitions node after the definition tokens from `i` on are added to
/// `node`, with the position of the first token that is none of them.
///
/// `%option` with the identifiers after it replaces the options; a block of C
/// code replaces the code; names with their patterns are appended to the
/// macros; a line feed changes nothing. A name without a pattern is an error,
/// and so is an identifier or a pattern that stands alone.
pub open spec fn definitions_from(ts: Seq<Spanned>, i: int, node: DefinitionView) -> Result<
    (DefinitionView, int),
    Error,
>
    decreases ts.len() - i,
{
    match token_at(ts, i) {
        Some(TokenView::Definition(t)) => match t {
            DefinitionTokenView::OptionStart => {
                let names = identifiers_from(ts, i + 1);
                if i + 1 + names.len() <= ts.len() {
                    definitions_from(
                        ts,
                        i + 1 + names.len(),
                        DefinitionView { options: Some(names), ..node },
                    )
                } else {
                    Ok((node, i))
                }
            },
            DefinitionTokenView::CCode(code) => definitions_from(
                ts,
                i + 1,
                DefinitionView { code: Some(code), ..node },
            ),
            DefinitionTokenView::Name(_) => match pairs_from(ts, i) {
                Ok((ms, j)) => if i < j <= ts.len() {
                    definitions_from(ts, j, with_macros(node, ms))
                } else {
                    Ok((node, i))
                },
                Err(e) => Err(e),
            },
            DefinitionTokenView::Newline => definitions_from(ts, i + 1, node),
            DefinitionTokenView::Identifier(_) => Err(
                rejected(ts, i, SyntaxKind::UnexpectedToken),
            ),
            DefinitionTokenView::Pattern(_) => Err(rejected(ts, i, SyntaxKind::UnexpectedToken)),
        },
        _ => Ok((node, i)),
    }
}

/// The rules that the rule tokens from `i` on declare, in their order and with
/// their patterns as written, and the position of the first token that is
/// none of them.
///
/// A pattern with the action after it is a rule; a line feed is passed over. A
/// pattern without an action is an error, and so is an action that stands
/// alone.
pub open spec fn rules_from(ts: Seq<Spanned>, i: int) -> Result<(Seq<RuleView>, int), Error>
    decreases ts.len() - i,
{
    match token_at(ts, i) {
        Some(TokenView::Rule(t)) => match t {
            RuleTokenView::Newline => rules_from(ts, i + 1),
            RuleTokenView::Pattern(pattern) => match token_at(ts, i + 1) {
                Some(TokenView::Rule(RuleTokenView::Action(action))) => match rules_from(ts, i + 2) {
                    Ok((rest, j)) => Ok((seq![RuleView { pattern, action }] + rest, j)),
                    Err(e) => Err(e),
                },
                _ => Err(rejected(ts, i + 1, SyntaxKind::MissingAction)),
            },
            RuleTokenView::Action(_) => Err(rejected(ts, i, SyntaxKind::UnexpectedToken)),
        },
        _ => Ok((Seq::empty(), i)),
    }
}

/// The rules `raw` from index `k` on with their patterns expanded, or
/// `ExpansionLimit` for the first of them whose pattern still holds a
/// reference when the limit of rounds is reached.
pub open spec fn expand_rules_from(raw: Seq<RuleView>, macros: Seq<MacroView>, k: int) -> Result<
    Seq<RuleView>,
    Error,
>
    decreases raw.len() - k,
{
    if k < 0 || k >= raw.len() {
        Ok(Seq::empty())
    } else {
        match expand(raw[k].pattern, macros) {
            None => Err(Error::ExpansionLimit(k as usize)),
            Some(pattern) => match expand_rules_from(raw, macros, k + 1) {
                Ok(rest) => Ok(seq![RuleView { pattern, action: raw[k].action }] + rest),
                Err(e) => Err(e),
            },
        }
    }
}

/// The user code that the tokens from `i` on hold: nothing at the end of the
/// tokens, or one block of code and then the end.
pub open spec fn usercode_from(ts: Seq<Spanned>, i: int) -> Result<Option<Seq<u8>>, Error> {
    if i >= ts.len() {
        Ok(None)
    } else {
        match token_at(ts, i) {
            Some(TokenView::Ucode(UsercodeTokenView::CCode(code))) => if i + 1 >= ts.len() {
                Ok(Some(code))
            } else {
                Err(rejected(ts, i + 1, SyntaxKind::UnexpectedToken))
            },
            _ => Err(rejected(ts, i, SyntaxKind::UnexpectedToken)),
        }
    }
}

/// The tree that the tokens `ts` stand for, with the macro references in the
/// rule patterns expanded, or the first error.
///
/// The definitions node is present where the first token is a definition
/// token, the rules node where a rule token follows `RuleStart`, the user-code
/// node where a block of code follows `RuleEnd`.
pub open spec fn parse_tokens(ts: Seq<Spanned>) -> Result<RootView, Error> {
    match definitions_from(ts, 0, no_definitions()) {
        Err(e) => Err(e),
        Ok((node, i)) => if token_at(ts, i) != Some(TokenView::RuleStart) {
            Err(rejected(ts, i, SyntaxKind::UnexpectedToken))
        } else {
            match rules_from(ts, i + 1) {
                Err(e) => Err(e),
                Ok((raw, j)) => if token_at(ts, j) != Some(TokenView::RuleEnd) {
                    Err(rejected(ts, j, SyntaxKind::UnexpectedToken))
                } else {
                    match usercode_from(ts, j + 1) {
                        Err(e) => Err(e),
                        Ok(usercode) => match expand_rules_from(raw, macros_of(node), 0) {
                            Err(e) => Err(e),
                            Ok(rules) => Ok(
                                RootView {
                                    definitions: if token_at(ts, 0) is Some && token_at(
                                        ts,
                                        0,
                                    )->Some_0 is Definition {
                                        Some(node)
                                    } else {
                                        None
                                    },
                                    rules: if token_at(ts, i + 1) is Some && token_at(
                                        ts,
                                        i + 1,
                                    )->Some_0 is Rule {
                                        Some(Some(rules))
                                    } else {
                                        None
                                    },
                                    usercode,
                                },
                            ),
                        },
                    }
                },
            }
        },
    }
}

} // verus!
