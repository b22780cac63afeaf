//! Tokens of the rules section.
use vstd::prelude::*;
use vstd::slice::slice_subrange;
use crate::error::Error;
use crate::lexer::scan::{
    ByteClass, NEWLINE, OPEN_BRACE, SPACE, TAB, comment_end, is_blank, lemma_comment_close_bounds,
    lemma_pattern_end_bounds, lemma_run_end, pattern_end, run_end, scan_comment, scan_pattern,
    scan_run,
};
use crate::lexer::Lexed;

verus! {

/// A token of the rules section. The payloads are slices of the section text.
#[derive(Debug, Clone, Copy, PartialEq, Eq)]
pub enum RuleToken<'a> {
    /// Pattern text at the start of a line, without the line feed before it.
    Pattern(&'a [u8]),
    /// An action block, braces included.
    Action(&'a [u8]),
    /// A line feed that starts no pattern.
    Newline,
}

/// The mathematical value of a `RuleToken`.
pub enum RuleTokenView {
    Pattern(Seq<u8>),
    Action(Seq<u8>),
    Newline,
}

impl<'a> View for RuleToken<'a> {
    type V = RuleTokenView;

    open spec fn view(&self) -> RuleTokenView {
        match self {
            RuleToken::Pattern(p) => RuleTokenView::Pattern(p@),
            RuleToken::Action(a) => RuleTokenView::Action(a@),
            RuleToken::Newline => RuleTokenView::Newline,
        }
    }
}

/// The mathematical value of what a rules lexer hands out.
pub open spec fn rule_item_view(r: Result<RuleToken<'_>, Error>) -> Result<RuleTokenView, Error> {
    match r {
        Ok(t) => Ok(t@),
        Err(e) => Err(e),
    }
}

/// The token that starts at `p`, where `p` is inside the text and holds
/// neither a blank nor the start of a comment.
///
/// A line feed followed by pattern text is a `Pattern`, unless a comment
/// begins the line and is at least as long as the pattern text; any other line
/// feed is a `Newline`; `{` up to the first `}` is an `Action`; anything else
/// is a lexical error that covers one byte.
pub open spec fn rule_token_at(s: Seq<u8>, p: int) -> Lexed<RuleTokenView> {
    if s[p] == NEWLINE {
        let e = pattern_end(s, p + 1);
        let c = match comment_end(s, p + 1) {
            Some(c) => c,
            None => p + 1,
        };
        if e > p + 1 && e > c {
            Lexed { item: Ok(RuleTokenView::Pattern(s.subrange(p + 1, e))), start: p, next: e }
        } else {
            Lexed { item: Ok(RuleTokenView::Newline), start: p, next: p + 1 }
        }
    } else if s[p] == OPEN_BRACE && run_end(s, p + 1, ByteClass::NotCloseBrace) < s.len() {
        let q = run_end(s, p + 1, ByteClass::NotCloseBrace);
        Lexed { item: Ok(RuleTokenView::Action(s.subrange(p, q + 1))), start: p, next: q + 1 }
    } else {
        Lexed { item: Err(Error::LexicalError(p as usize)), start: p, next: p + 1 }
    }
}

/// The first token at or after `p`, once blanks and comments are skipped;
/// `None` at the end of the text.
pub open spec fn rule_next(s: Seq<u8>, p: int) -> Option<Lexed<RuleTokenView>>
    decreases s.len() - p,
{
    if p < 0 || p >= s.len() {
        None
    } else if is_blank(s[p]) {
        rule_next(s, p + 1)
    } else {
        match comment_end(s, p) {
            Some(e) => if p < e <= s.len() {
                rule_next(s, e)
            } else {
                None
            },
            None => Some(rule_token_at(s, p)),
        }
    }
}

/// All tokens of the section text `s` from `p` on, in order.
pub open spec fn rule_stream(s: Seq<u8>, p: int) -> Seq<Lexed<RuleTokenView>>
    decreases s.len() - p,
{
    match rule_next(s, p) {
        Some(l) => if p < l.next <= s.len() {
            seq![l] + rule_stream(s, l.next)
        } else {
            Seq::empty()
        },
        None => Seq::empty(),
    }
}

/// A token lies inside the text, at or after the place where the search for it
/// began, and is not empty.
pub proof fn lemma_rule_next_bounds(s: Seq<u8>, p: int)
    requires
        0 <= p <= s.len(),
    ensures
        match rule_next(s, p) {
            Some(l) => p <= l.start < l.next <= s.len(),
            None => true,
        },
    decreases s.len() - p,
{
    if p >= s.len() {
    } else if is_blank(s[p]) {
        lemma_rule_next_bounds(s, p + 1);
    } else {
        match comment_end(s, p) {
            Some(e) => {
                lemma_comment_close_bounds(s, p + 2);
                lemma_rule_next_bounds(s, e);
            },
            None => {
                lemma_pattern_end_bounds(s, p + 1);
                lemma_run_end(s, p + 1, ByteClass::NotCloseBrace);
            },
        }
    }
}

/// A lexer over the text of a rules section.
pub struct RuleLexer<'a> {
    source: &'a [u8],
    pos: usize,
    start: usize,
}

impl<'a> RuleToken<'a> {
    /// A lexer that reads rule tokens from `source`.
    pub fn lexer(source: &'a [u8]) -> (lex: RuleLexer<'a>)
        ensures
            lex.wf(),
            lex.source() == source@,
            lex.remaining() == rule_stream(source@, 0),
    {
        RuleLexer { source, pos: 0, start: 0 }
    }
}

impl<'a> RuleLexer<'a> {
    /// The position is inside the text.
    pub closed spec fn wf(&self) -> bool {
        self.start <= self.pos <= self.source@.len()
    }

    /// The text that is being read.
    pub closed spec fn source(&self) -> Seq<u8> {
        self.source@
    }

    /// The tokens that are still to come.
    pub closed spec fn remaining(&self) -> Seq<Lexed<RuleTokenView>> {
        rule_stream(self.source@, self.pos as int)
    }

    /// Where the token that `next` returned last starts.
    pub closed spec fn last_start(&self) -> int {
        self.start as int
    }

    /// The offset at which the token that `next` returned last starts.
    pub fn offset(&self) -> (o: usize)
        requires
            self.wf(),
        ensures
            o == self.last_start(),
            o <= self.source().len(),
    {
        self.start
    }

    /// Hands out the next token, or `None` when the text is used up.
    pub fn next(&mut self) -> (r: Option<Result<RuleToken<'a>, Error>>)
        requires
            old(self).wf(),
        ensures
            final(self).wf(),
            final(self).source() == old(self).source(),
            match r {
                Some(item) => old(self).remaining().len() > 0 && rule_item_view(item) == old(
                    self,
                ).remaining()[0].item && final(self).last_start() == old(self).remaining()[0].start
                    && final(self).remaining() == old(self).remaining().skip(1),
                None => old(self).remaining().len() == 0 && final(self).remaining().len() == 0,
            },
            match r {
                Some(Err(e)) => e == Error::LexicalError(final(self).last_start() as usize),
                _ => true,
            },
    {
        let s = self.source;
        let ghost p0 = self.pos as int;
        let mut p: usize = self.pos;
        loop
            invariant
                p0 <= p <= s.len(),
                s == self.source,
                s == old(self).source,
                p0 == old(self).pos,
                self.pos == p0,
                self.start <= p0,
                rule_next(s@, p0) == rule_next(s@, p as int),
            decreases s.len() - p,
        {
            if p >= s.len() {
                self.pos = p;
                return None;
            }
            let b = s[p];
            if b == SPACE || b == TAB {
                p += 1;
                continue;
            }
            match scan_comment(s, p) {
                Some(e) => {
                    p = e;
                    continue;
                },
                None => {},
            }
            proof {
                lemma_rule_next_bounds(s@, p0);
                lemma_pattern_end_bounds(s@, p + 1);
                lemma_run_end(s@, p + 1, ByteClass::NotCloseBrace);
            }
            let ghost l = rule_token_at(s@, p as int);
            assert(rule_next(s@, p0) == Some(l));
            assert(rule_stream(s@, p0).skip(1) =~= rule_stream(s@, l.next));
            self.start = p;
            if b == NEWLINE {
                let e = scan_pattern(s, p + 1);
                let c = match scan_comment(s, p + 1) {
                    Some(c) => c,
                    None => p + 1,
                };
                if e > p + 1 && e > c {
                    self.pos = e;
                    return Some(Ok(RuleToken::Pattern(slice_subrange(s, p + 1, e))));
                }
                self.pos = p + 1;
                return Some(Ok(RuleToken::Newline));
            }
            if b == OPEN_BRACE {
                let q = scan_run(s, p + 1, ByteClass::NotCloseBrace);
                if q < s.len() {
                    self.pos = q + 1;
                    return Some(Ok(RuleToken::Action(slice_subrange(s, p, q + 1))));
                }
            }
            self.pos = p + 1;
            return Some(Err(Error::LexicalError(p)));
        }
    }
}

} // verus!
