//! Reading a pattern into its tree.
//!
//! The grammar, lowest precedence first:
//!
//! ```text
//! expr   := term ('|' term)*
//! term   := factor factor*
//! factor := base ('*' | '+')?
//! base   := LITERAL | '^' | '\' byte | '.' | '[' range ']' | '(' expr ')'
//! range  := '^'? item*
//! item   := '\' byte | LITERAL ('-' LITERAL)?
//! ```
use vstd::prelude::*;
use crate::error::{Error, SyntaxKind};
use crate::regex::ast::{Ast, AstView};

verus! {

/// The kinds of tokens of a pattern. Each byte of a pattern is one token.
#[derive(Debug, Clone, Copy, PartialEq, Eq, Structural)]
pub enum TokenKind {
    LParen,
    RParen,
    LBracket,
    RBracket,
    Caret,
    Dash,
    Dot,
    Plus,
    Asterisk,
    Bar,
    BackSlash,
    Literal,
    End,
}

/// A token of a pattern: its kind and the byte that it was read from (0 for
/// `End`).
#[derive(Debug, Clone, Copy, PartialEq, Eq, Structural)]
pub struct PatternToken {
    pub kind: TokenKind,
    pub value: u8,
}

/// The kind of the token that the byte `b` is.
pub open spec fn kind_of(b: u8) -> TokenKind {
    if b == 0x28 {
        TokenKind::LParen
    } else if b == 0x29 {
        TokenKind::RParen
    } else if b == 0x5b {
        TokenKind::LBracket
    } else if b == 0x5d {
        TokenKind::RBracket
    } else if b == 0x5e {
        TokenKind::Caret
    } else if b == 0x2d {
        TokenKind::Dash
    } else if b == 0x2e {
        TokenKind::Dot
    } else if b == 0x2b {
        TokenKind::Plus
    } else if b == 0x2a {
        TokenKind::Asterisk
    } else if b == 0x7c {
        TokenKind::Bar
    } else if b == 0x5c {
        TokenKind::BackSlash
    } else {
        TokenKind::Literal
    }
}

/// The token at position `p` of the pattern `s`; `End` past its last byte.
pub open spec fn token_at(s: Seq<u8>, p: int) -> PatternToken {
    if 0 <= p < s.len() {
        PatternToken { kind: kind_of(s[p]), value: s[p] }
    } else {
        PatternToken { kind: TokenKind::End, value: 0 }
    }
}

/// The byte that `\` followed by `b` stands for.
pub open spec fn escape(b: u8) -> u8 {
    if b == 0x61 {
        0x07
    } else if b == 0x6e {
        0x0a
    } else if b == 0x72 {
        0x0d
    } else if b == 0x74 {
        0x09
    } else {
        b
    }
}

/// Every byte from `from` to `to`, both included, in rising order.
pub open spec fn byte_range(from: u8, to: u8) -> Seq<u8> {
    if from <= to {
        Seq::new((to - from + 1) as nat, |k: int| (from + k) as u8)
    } else {
        Seq::empty()
    }
}

/// `r` with `items` put before the bytes that it holds.
pub open spec fn after_items(items: Seq<u8>, r: Result<(Seq<u8>, int), Error>) -> Result<
    (Seq<u8>, int),
    Error,
> {
    match r {
        Ok((rest, q)) => Ok((items + rest, q)),
        Err(e) => Err(e),
    }
}

/// The error for a token inside a class that is no item: the class is not
/// closed where the pattern ends there, else the token is unexpected.
pub open spec fn bad_item(s: Seq<u8>, p: int) -> Error {
    if p >= s.len() {
        Error::SyntaxError(SyntaxKind::UnmatchedBracket, p as usize)
    } else {
        Error::SyntaxError(SyntaxKind::UnexpectedToken, p as usize)
    }
}

/// The bytes that the items of a class from `p` on list, and the position of
/// the `]` that closes the class.
pub open spec fn class_items(s: Seq<u8>, p: int) -> Result<(Seq<u8>, int), Error>
    decreases s.len() - p,
{
    let t = token_at(s, p);
    if t.kind == TokenKind::RBracket {
        Ok((Seq::empty(), p))
    } else if t.kind == TokenKind::BackSlash {
        if p + 1 < s.len() {
            after_items(seq![escape(s[p + 1])], class_items(s, p + 2))
        } else {
            Err(bad_item(s, p + 1))
        }
    } else if t.kind == TokenKind::Literal {
        if token_at(s, p + 1).kind == TokenKind::Dash {
            if token_at(s, p + 2).kind == TokenKind::Literal {
                after_items(byte_range(s[p], s[p + 2]), class_items(s, p + 3))
            } else {
                Err(bad_item(s, p + 2))
            }
        } else {
            after_items(seq![s[p]], class_items(s, p + 1))
        }
    } else {
        Err(bad_item(s, p))
    }
}

/// Whether the token at `p` can start a factor.
pub open spec fn starts_factor(s: Seq<u8>, p: int) -> bool {
    let k = token_at(s, p).kind;
    k == TokenKind::Literal || k == TokenKind::Caret || k == TokenKind::Dot || k
        == TokenKind::LBracket || k == TokenKind::LParen || k == TokenKind::BackSlash
}

/// The base that starts at `p`, and the position after it.
pub open spec fn base_at(s: Seq<u8>, p: int) -> Result<(AstView, int), Error>
    decreases s.len() - p, 0int,
{
    let t = token_at(s, p);
    match t.kind {
        TokenKind::Literal => Ok((AstView::Literal(t.value), p + 1)),
        TokenKind::Caret => Ok((AstView::Literal(t.value), p + 1)),
        TokenKind::BackSlash => if p + 1 < s.len() {
            Ok((AstView::Literal(escape(s[p + 1])), p + 2))
        } else {
            Err(Error::SyntaxError(SyntaxKind::UnexpectedToken, (p + 1) as usize))
        },
        TokenKind::Dot => Ok((AstView::Class(seq![0x0au8], true), p + 1)),
        TokenKind::LBracket => {
            let negated = token_at(s, p + 1).kind == TokenKind::Caret;
            let start = if negated {
                p + 2
            } else {
                p + 1
            };
            match class_items(s, start) {
                Ok((items, q)) => Ok((AstView::Class(items, negated), q + 1)),
                Err(e) => Err(e),
            }
        },
        TokenKind::LParen => match expr_at(s, p + 1) {
            Ok((inner, q)) => if token_at(s, q).kind == TokenKind::RParen {
                Ok((AstView::Group(Box::new(inner)), q + 1))
            } else {
                Err(Error::SyntaxError(SyntaxKind::UnmatchedParen, q as usize))
            },
            Err(e) => Err(e),
        },
        _ => Err(Error::SyntaxError(SyntaxKind::UnexpectedToken, p as usize)),
    }
}

/// The factor that starts at `p`: a base, and `*` or `+` where one follows.
/// `x+` is `x` followed by `x*`.
pub open spec fn factor_at(s: Seq<u8>, p: int) -> Result<(AstView, int), Error>
    decreases s.len() - p, 1int,
{
    match base_at(s, p) {
        Ok((base, q)) => {
            let k = token_at(s, q).kind;
            if k == TokenKind::Asterisk {
                Ok((AstView::Repeat(Box::new(base)), q + 1))
            } else if k == TokenKind::Plus {
                Ok(
                    (
                        AstView::And(Box::new(base), Box::new(AstView::Repeat(Box::new(base)))),
                        q + 1,
                    ),
                )
            } else {
                Ok((base, q))
            }
        },
        Err(e) => Err(e),
    }
}

/// The term that begins with `left` and goes on at `p` with the factors that
/// follow.
pub open spec fn term_rest(s: Seq<u8>, left: AstView, p: int) -> Result<(AstView, int), Error>
    decreases s.len() - p, 2int,
{
    if starts_factor(s, p) {
        match factor_at(s, p) {
            Ok((right, q)) => if p < q <= s.len() {
                term_rest(s, AstView::And(Box::new(left), Box::new(right)), q)
            } else {
                Ok((left, p))
            },
            Err(e) => Err(e),
        }
    } else {
        Ok((left, p))
    }
}

/// The term that starts at `p`: one or more factors in a row.
pub open spec fn term_at(s: Seq<u8>, p: int) -> Result<(AstView, int), Error>
    decreases s.len() - p, 3int,
{
    match factor_at(s, p) {
        Ok((first, q)) => if p < q <= s.len() {
            term_rest(s, first, q)
        } else {
            Ok((first, q))
        },
        Err(e) => Err(e),
    }
}

/// The expression that begins with `left` and goes on at `p` with the
/// alternatives that follow.
pub open spec fn expr_rest(s: Seq<u8>, left: AstView, p: int) -> Result<(AstView, int), Error>
    decreases s.len() - p, 4int,
{
    if token_at(s, p).kind == TokenKind::Bar {
        match term_at(s, p + 1) {
            Ok((right, q)) => if p < q <= s.len() {
                expr_rest(s, AstView::Or(Box::new(left), Box::new(right)), q)
            } else {
                Ok((left, p))
            },
            Err(e) => Err(e),
        }
    } else {
        Ok((left, p))
    }
}

/// The expression that starts at `p`: one or more terms between `|`.
pub open spec fn expr_at(s: Seq<u8>, p: int) -> Result<(AstView, int), Error>
    decreases s.len() - p, 5int,
{
    match term_at(s, p) {
        Ok((first, q)) => if p < q <= s.len() {
            expr_rest(s, first, q)
        } else {
            Ok((first, q))
        },
        Err(e) => Err(e),
    }
}

/// The tree of the pattern `s`: the expression that starts at 0, provided it
/// ends where the pattern ends.
pub open spec fn parsed(s: Seq<u8>) -> Result<AstView, Error> {
    match expr_at(s, 0) {
        Ok((ast, q)) => if q == s.len() {
            Ok(ast)
        } else {
            Err(Error::SyntaxError(SyntaxKind::TrailingGarbage, q as usize))
        },
        Err(e) => Err(e),
    }
}

/// The token at position `p` of `pattern`.
pub fn get_token(pattern: &[u8], p: usize) -> (t: PatternToken)
    ensures
        t == token_at(pattern@, p as int),
{
    if p >= pattern.len() {
        return PatternToken { kind: TokenKind::End, value: 0 };
    }
    let b = pattern[p];
    let kind = if b == 0x28 {
        TokenKind::LParen
    } else if b == 0x29 {
        TokenKind::RParen
    } else if b == 0x5b {
        TokenKind::LBracket
    } else if b == 0x5d {
        TokenKind::RBracket
    } else if b == 0x5e {
        TokenKind::Caret
    } else if b == 0x2d {
        TokenKind::Dash
    } else if b == 0x2e {
        TokenKind::Dot
    } else if b == 0x2b {
        TokenKind::Plus
    } else if b == 0x2a {
        TokenKind::Asterisk
    } else if b == 0x7c {
        TokenKind::Bar
    } else if b == 0x5c {
        TokenKind::BackSlash
    } else {
        TokenKind::Literal
    };
    PatternToken { kind, value: b }
}

/// The byte that `\` followed by `b` stands for.
pub fn unescape(b: u8) -> (r: u8)
    ensures
        r == escape(b),
{
    if b == 0x61 {
        0x07
    } else if b == 0x6e {
        0x0a
    } else if b == 0x72 {
        0x0d
    } else if b == 0x74 {
        0x09
    } else {
        b
    }
}

/// Appends every byte from `from` to `to`, both included.
fn push_range(items: &mut Vec<u8>, from: u8, to: u8)
    ensures
        final(items)@ == old(items)@ + byte_range(from, to),
{
    if from > to {
        assert(old(items)@ + byte_range(from, to) =~= old(items)@);
        return ;
    }
    let mut c: u8 = from;
    loop
        invariant
            from <= c <= to,
            items@ =~= old(items)@ + byte_range(from, to).subrange(0, c - from),
        decreases to - c,
    {
        items.push(c);
        if c == to {
            assert(byte_range(from, to).subrange(0, c - from + 1) =~= byte_range(from, to));
            return ;
        }
        c += 1;
    }
}

/// The error for a token inside a class that is no item.
fn reject_item(pattern: &[u8], p: usize) -> (e: Error)
    ensures
        e == bad_item(pattern@, p as int),
{
    if p >= pattern.len() {
        Error::SyntaxError(SyntaxKind::UnmatchedBracket, p)
    } else {
        Error::SyntaxError(SyntaxKind::UnexpectedToken, p)
    }
}

/// Reads the items of a class from `p` on, up to the `]` that closes it.
fn parse_class(pattern: &[u8], p0: usize) -> (r: Result<(Vec<u8>, usize), Error>)
    requires
        p0 <= pattern.len(),
    ensures
        match r {
            Ok((items, q)) => class_items(pattern@, p0 as int) == Ok::<_, Error>(
                (items@, q as int),
            ) && p0 <= q < pattern.len(),
            Err(e) => class_items(pattern@, p0 as int) == Err::<(Seq<u8>, int), _>(e),
        },
{
    let ghost s = pattern@;
    let mut items: Vec<u8> = Vec::new();
    let mut p: usize = p0;
    assert(class_items(s, p0 as int) == after_items(items@, class_items(s, p as int))) by {
        match class_items(s, p as int) {
            Ok((rest, q)) => {
                assert(items@ + rest =~= rest);
            },
            Err(_) => {},
        }
    }
    loop
        invariant
            s == pattern@,
            p0 <= p <= pattern.len(),
            class_items(s, p0 as int) == after_items(items@, class_items(s, p as int)),
        decreases pattern.len() - p,
    {
        let t = get_token(pattern, p);
        let ghost before = items@;
        match t.kind {
            TokenKind::RBracket => {
                assert(items@ + Seq::<u8>::empty() =~= items@);
                return Ok((items, p));
            },
            TokenKind::BackSlash => {
                if pattern.len() - p < 2 {
                    return Err(reject_item(pattern, p + 1));
                }
                items.push(unescape(pattern[p + 1]));
                proof {
                    match class_items(s, p + 2) {
                        Ok((rest, q)) => {
                            assert(before + (seq![escape(s[p + 1])] + rest) =~= items@ + rest);
                        },
                        Err(_) => {},
                    }
                }
                p += 2;
            },
            TokenKind::Literal => {
                if get_token(pattern, p + 1).kind == TokenKind::Dash {
                    if get_token(pattern, p + 2).kind != TokenKind::Literal {
                        return Err(reject_item(pattern, p + 2));
                    }
                    push_range(&mut items, pattern[p], pattern[p + 2]);
                    proof {
                        match class_items(s, p + 3) {
                            Ok((rest, q)) => {
                                assert(before + (byte_range(s[p as int], s[p + 2]) + rest)
                                    =~= items@ + rest);
                            },
                            Err(_) => {},
                        }
                    }
                    p += 3;
                } else {
                    items.push(pattern[p]);
                    proof {
                        match class_items(s, p + 1) {
                            Ok((rest, q)) => {
                                assert(before + (seq![s[p as int]] + rest) =~= items@ + rest);
                            },
                            Err(_) => {},
                        }
                    }
                    p += 1;
                }
            },
            _ => {
                return Err(reject_item(pattern, p));
            },
        }
    }
}

/// Reads a base from `p`.
fn parse_base(pattern: &[u8], p: usize) -> (r: Result<(Ast, usize), Error>)
    requires
        p <= pattern.len(),
    ensures
        match r {
            Ok((ast, q)) => base_at(pattern@, p as int) == Ok::<_, Error>((ast@, q as int)) && p < q
                <= pattern.len(),
            Err(e) => base_at(pattern@, p as int) == Err::<(AstView, int), _>(e),
        },
    decreases pattern.len() - p, 0int,
{
    let t = get_token(pattern, p);
    match t.kind {
        TokenKind::Literal => Ok((Ast::Literal(t.value), p + 1)),
        TokenKind::Caret => Ok((Ast::Literal(t.value), p + 1)),
        TokenKind::BackSlash => {
            if pattern.len() - p < 2 {
                return Err(Error::SyntaxError(SyntaxKind::UnexpectedToken, p + 1));
            }
            Ok((Ast::Literal(unescape(pattern[p + 1])), p + 2))
        },
        TokenKind::Dot => {
            let mut items: Vec<u8> = Vec::new();
            items.push(0x0a);
            assert(items@ =~= seq![0x0au8]);
            Ok((Ast::Class(items, true), p + 1))
        },
        TokenKind::LBracket => {
            let negated = get_token(pattern, p + 1).kind == TokenKind::Caret;
            let start = if negated {
                p + 2
            } else {
                p + 1
            };
            match parse_class(pattern, start) {
                Ok((items, q)) => Ok((Ast::Class(items, negated), q + 1)),
                Err(e) => Err(e),
            }
        },
        TokenKind::LParen => match parse_expr(pattern, p + 1) {
            Ok((inner, q)) => {
                if get_token(pattern, q).kind == TokenKind::RParen {
                    Ok((Ast::Group(Box::new(inner)), q + 1))
                } else {
                    Err(Error::SyntaxError(SyntaxKind::UnmatchedParen, q))
                }
            },
            Err(e) => Err(e),
        },
        _ => Err(Error::SyntaxError(SyntaxKind::UnexpectedToken, p)),
    }
}

/// Reads a factor from `p`.
fn parse_factor(pattern: &[u8], p: usize) -> (r: Result<(Ast, usize), Error>)
    requires
        p <= pattern.len(),
    ensures
        match r {
            Ok((ast, q)) => factor_at(pattern@, p as int) == Ok::<_, Error>((ast@, q as int)) && p
                < q <= pattern.len(),
            Err(e) => factor_at(pattern@, p as int) == Err::<(AstView, int), _>(e),
        },
    decreases pattern.len() - p, 1int,
{
    let (base, q) = match parse_base(pattern, p) {
        Ok(found) => found,
        Err(e) => {
            return Err(e);
        },
    };
    let k = get_token(pattern, q).kind;
    if k == TokenKind::Asterisk {
        Ok((Ast::Repeat(Box::new(base)), q + 1))
    } else if k == TokenKind::Plus {
        let first = base.duplicate();
        let ghost inner = base@;
        let repeat = Ast::Repeat(Box::new(base));
        assert(repeat@ == AstView::Repeat(Box::new(inner)));
        let both = Ast::And(Box::new(first), Box::new(repeat));
        assert(both@ == AstView::And(Box::new(inner), Box::new(AstView::Repeat(Box::new(inner)))));
        Ok((both, q + 1))
    } else {
        Ok((base, q))
    }
}

/// Reads a term from `p`.
fn parse_term(pattern: &[u8], p0: usize) -> (r: Result<(Ast, usize), Error>)
    requires
        p0 <= pattern.len(),
    ensures
        match r {
            Ok((ast, q)) => term_at(pattern@, p0 as int) == Ok::<_, Error>((ast@, q as int)) && p0
                < q <= pattern.len(),
            Err(e) => term_at(pattern@, p0 as int) == Err::<(AstView, int), _>(e),
        },
    decreases pattern.len() - p0, 3int,
{
    let ghost s = pattern@;
    let (mut node, mut p) = match parse_factor(pattern, p0) {
        Ok(found) => found,
        Err(e) => {
            return Err(e);
        },
    };
    loop
        invariant
            s == pattern@,
            p0 < p <= pattern.len(),
            term_at(s, p0 as int) == term_rest(s, node@, p as int),
        decreases pattern.len() - p,
    {
        let k = get_token(pattern, p).kind;
        let more = k == TokenKind::Literal || k == TokenKind::Caret || k == TokenKind::Dot || k
            == TokenKind::LBracket || k == TokenKind::LParen || k == TokenKind::BackSlash;
        if !more {
            return Ok((node, p));
        }
        match parse_factor(pattern, p) {
            Ok((right, q)) => {
                node = Ast::And(Box::new(node), Box::new(right));
                p = q;
            },
            Err(e) => {
                return Err(e);
            },
        }
    }
}

/// Reads an expression from `p`.
fn parse_expr(pattern: &[u8], p0: usize) -> (r: Result<(Ast, usize), Error>)
    requires
        p0 <= pattern.len(),
    ensures
        match r {
            Ok((ast, q)) => expr_at(pattern@, p0 as int) == Ok::<_, Error>((ast@, q as int)) && p0
                < q <= pattern.len(),
            Err(e) => expr_at(pattern@, p0 as int) == Err::<(AstView, int), _>(e),
        },
    decreases pattern.len() - p0, 5int,
{
    let ghost s = pattern@;
    let (mut node, mut p) = match parse_term(pattern, p0) {
        Ok(found) => found,
        Err(e) => {
            return Err(e);
        },
    };
    loop
        invariant
            s == pattern@,
            p0 < p <= pattern.len(),
            expr_at(s, p0 as int) == expr_rest(s, node@, p as int),
        decreases pattern.len() - p,
    {
        if get_token(pattern, p).kind != TokenKind::Bar {
            return Ok((node, p));
        }
        match parse_term(pattern, p + 1) {
            Ok((right, q)) => {
                node = Ast::Or(Box::new(node), Box::new(right));
                p = q;
            },
            Err(e) => {
                return Err(e);
            },
        }
    }
}

/// Reads the pattern into its tree. Fails with a syntax error where the
/// pattern is no expression: at a token that cannot stand where it stands,
/// at a class or a group that is not closed, or at what is left after a
/// complete expression.
pub fn parse(pattern: &[u8]) -> (r: Result<Ast, Error>)
    ensures
        match r {
            Ok(ast) => parsed(pattern@) == Ok::<_, Error>(ast@),
            Err(e) => parsed(pattern@) == Err::<AstView, _>(e),
        },
{
    match parse_expr(pattern, 0) {
        Ok((ast, q)) => {
            if q == pattern.len() {
                Ok(ast)
            } else {
                Err(Error::SyntaxError(SyntaxKind::TrailingGarbage, q))
            }
        },
        Err(e) => Err(e),
    }
}

} // verus!
