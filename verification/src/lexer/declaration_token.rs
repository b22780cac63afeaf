//! Tokens of a declarations section: options and blocks of C code, with no
//! macros.
use vstd::prelude::*;
use vstd::slice::slice_subrange;
use crate::bytes::occurs;
use crate::bytes::occurs_at;
use crate::error::Error;
use crate::lexer::Lexed;
use crate::lexer::definition_token::{
    ccode_end, larger, lemma_ccode_end_bounds, option_keyword, scan_ccode,
};
use crate::lexer::scan::{
    ByteClass, byte_in_class, comment_end, in_class, lemma_comment_close_bounds, lemma_run_end,
    run_end, scan_comment, scan_run,
};

verus! {

/// A token of a declarations section. The payloads are slices of the section
/// text.
#[derive(Debug, Clone, Copy, PartialEq, Eq)]
pub enum DeclarationToken<'a> {
    /// The keyword `%option`.
    OptionStart,
    /// A word: a run of bytes that are no whitespace.
    Option(&'a [u8]),
    /// The text between `%{` and `%}`, each on a line end, delimiters left out.
    CCode(&'a [u8]),
}

/// The mathematical value of a `DeclarationToken`.
pub enum DeclarationTokenView {
    OptionStart,
    Option(Seq<u8>),
    CCode(Seq<u8>),
}

impl<'a> View for DeclarationToken<'a> {
    type V = DeclarationTokenView;

    open spec fn view(&self) -> DeclarationTokenView {
        match self {
            DeclarationToken::OptionStart => DeclarationTokenView::OptionStart,
            DeclarationToken::Option(x) => DeclarationTokenView::Option(x@),
            DeclarationToken::CCode(x) => DeclarationTokenView::CCode(x@),
        }
    }
}

/// The mathematical value of what a declarations lexer hands out.
pub open spec fn declaration_item_view(r: Result<DeclarationToken<'_>, Error>) -> Result<
    DeclarationTokenView,
    Error,
> {
    match r {
        Ok(t) => Ok(t@),
        Err(e) => Err(e),
    }
}

/// One step of the declarations lexer: either text that is passed over, with
/// the place where it ends, or a token.
pub enum DeclarationStep {
    Skip(int),
    Token(Lexed<DeclarationTokenView>),
}

/// What starts at `p`, where `p` is inside the text and holds neither a
/// space, a tab, a line feed nor a form feed.
///
/// The candidates are a comment, `%option`, a block of C code and a word. The
/// longest wins; among equally long ones the first in that list wins. Where
/// none matches, the byte is a lexical error.
pub open spec fn declaration_step(s: Seq<u8>, p: int) -> DeclarationStep {
    let com = match comment_end(s, p) {
        Some(e) => e,
        None => p,
    };
    let kw = if occurs_at(s, p, option_keyword()) {
        p + 7
    } else {
        p
    };
    let cc = match ccode_end(s, p) {
        Some(e) => e,
        None => p,
    };
    let word = run_end(s, p, ByteClass::NotSpace);
    let best = larger(larger(com, kw), larger(cc, word));
    if best <= p {
        DeclarationStep::Token(
            Lexed { item: Err(Error::LexicalError(p as usize)), start: p, next: p + 1 },
        )
    } else if com == best {
        DeclarationStep::Skip(com)
    } else if kw == best {
        DeclarationStep::Token(
            Lexed { item: Ok(DeclarationTokenView::OptionStart), start: p, next: kw },
        )
    } else if cc == best {
        DeclarationStep::Token(
            Lexed {
                item: Ok(DeclarationTokenView::CCode(s.subrange(p + 3, cc - 3))),
                start: p,
                next: cc,
            },
        )
    } else {
        DeclarationStep::Token(
            Lexed { item: Ok(DeclarationTokenView::Option(s.subrange(p, word))), start: p, next: word },
        )
    }
}

/// The first token at or after `p`, once gaps and comments are skipped;
/// `None` at the end of the text.
pub open spec fn declaration_next(s: Seq<u8>, p: int) -> Option<Lexed<DeclarationTokenView>>
    decreases s.len() - p,
{
    if p < 0 || p >= s.len() {
        None
    } else if in_class(ByteClass::Gap, s[p]) {
        declaration_next(s, p + 1)
    } else {
        match declaration_step(s, p) {
            DeclarationStep::Skip(e) => if p < e <= s.len() {
                declaration_next(s, e)
            } else {
                None
            },
            DeclarationStep::Token(l) => Some(l),
        }
    }
}

/// All tokens of the section text `s` from `p` on, in order.
pub open spec fn declaration_stream(s: Seq<u8>, p: int) -> Seq<Lexed<DeclarationTokenView>>
    decreases s.len() - p,
{
    match declaration_next(s, p) {
        Some(l) => if p < l.next <= s.len() {
            seq![l] + declaration_stream(s, l.next)
        } else {
            Seq::empty()
        },
        None => Seq::empty(),
    }
}

/// A token lies inside the text, at or after the place where the search for it
/// began, and is not empty.
pub proof fn lemma_declaration_next_bounds(s: Seq<u8>, p: int)
    requires
        0 <= p <= s.len(),
    ensures
        match declaration_next(s, p) {
            Some(l) => p <= l.start < l.next <= s.len(),
            None => true,
        },
    decreases s.len() - p,
{
    if p >= s.len() {
    } else if in_class(ByteClass::Gap, s[p]) {
        lemma_declaration_next_bounds(s, p + 1);
    } else {
        lemma_comment_close_bounds(s, p + 2);
        lemma_ccode_end_bounds(s, p);
        lemma_run_end(s, p, ByteClass::NotSpace);
        match declaration_step(s, p) {
            DeclarationStep::Skip(e) => {
                if p < e <= s.len() {
                    lemma_declaration_next_bounds(s, e);
                }
            },
            DeclarationStep::Token(l) => {},
        }
    }
}

/// A lexer over the text of a declarations section.
pub struct DeclarationLexer<'a> {
    source: &'a [u8],
    pos: usize,
}

impl<'a> DeclarationToken<'a> {
    /// A lexer that reads declaration tokens from `source`.
    pub fn lexer(source: &'a [u8]) -> (lex: DeclarationLexer<'a>)
        ensures
            lex.wf(),
            lex.source() == source@,
            lex.remaining() == declaration_stream(source@, 0),
    {
        DeclarationLexer { source, pos: 0 }
    }
}

/// What the lexer found at one place: text to pass over, with its end, or a
/// token with the place after it.
enum Found<'a> {
    Skip(usize),
    Token(Result<DeclarationToken<'a>, Error>, usize),
}

/// Reads what starts at `p`.
fn scan_step<'a>(s: &'a [u8], p: usize) -> (r: Found<'a>)
    requires
        p < s.len(),
    ensures
        match r {
            Found::Skip(e) => declaration_step(s@, p as int) == DeclarationStep::Skip(e as int)
                && p < e <= s.len(),
            Found::Token(item, next) => {
                &&& declaration_step(s@, p as int) is Token
                &&& declaration_step(s@, p as int)->Token_0.item == declaration_item_view(item)
                &&& declaration_step(s@, p as int)->Token_0.start == p
                &&& declaration_step(s@, p as int)->Token_0.next == next
                &&& p < next <= s.len()
            },
        },
{
    let keyword: [u8; 7] = [0x25, 0x6f, 0x70, 0x74, 0x69, 0x6f, 0x6e];
    assert(keyword@ =~= option_keyword());
    let com: usize = match scan_comment(s, p) {
        Some(e) => e,
        None => p,
    };
    let kw: usize = if occurs(s, p, keyword.as_slice()) {
        p + 7
    } else {
        p
    };
    let cc: usize = match scan_ccode(s, p) {
        Some(e) => e,
        None => p,
    };
    let word: usize = scan_run(s, p, ByteClass::NotSpace);
    let mut best: usize = com;
    if kw > best {
        best = kw;
    }
    if cc > best {
        best = cc;
    }
    if word > best {
        best = word;
    }
    assert(best == larger(larger(com as int, kw as int), larger(cc as int, word as int)));
    if best <= p {
        Found::Token(Err(Error::LexicalError(p)), p + 1)
    } else if com == best {
        Found::Skip(com)
    } else if kw == best {
        Found::Token(Ok(DeclarationToken::OptionStart), kw)
    } else if cc == best {
        Found::Token(Ok(DeclarationToken::CCode(slice_subrange(s, p + 3, cc - 3))), cc)
    } else {
        Found::Token(Ok(DeclarationToken::Option(slice_subrange(s, p, word))), word)
    }
}

impl<'a> DeclarationLexer<'a> {
    /// The position is inside the text.
    pub closed spec fn wf(&self) -> bool {
        self.pos <= self.source@.len()
    }

    /// The text that is being read.
    pub closed spec fn source(&self) -> Seq<u8> {
        self.source@
    }

    /// The tokens that are still to come.
    pub closed spec fn remaining(&self) -> Seq<Lexed<DeclarationTokenView>> {
        declaration_stream(self.source@, self.pos as int)
    }

    /// Hands out the next token, or `None` when the text is used up.
    pub fn next(&mut self) -> (r: Option<Result<DeclarationToken<'a>, Error>>)
        requires
            old(self).wf(),
        ensures
            final(self).wf(),
            final(self).source() == old(self).source(),
            match r {
                Some(item) => old(self).remaining().len() > 0 && declaration_item_view(item)
                    == old(self).remaining()[0].item && final(self).remaining() == old(
                    self,
                ).remaining().skip(1),
                None => old(self).remaining().len() == 0 && final(self).remaining().len() == 0,
            },
    {
        let s = self.source;
        let ghost p0 = self.pos as int;
        let mut p: usize = self.pos;
        loop
            invariant
                p0 <= p <= s.len(),
                s == self.source,
                s == old(self).source,
                p0 == old(self).pos,
                self.pos == p0,
                declaration_next(s@, p0) == declaration_next(s@, p as int),
            decreases s.len() - p,
        {
            if p >= s.len() {
                self.pos = p;
                return None;
            }
            if byte_in_class(ByteClass::Gap, s[p]) {
                p += 1;
                continue ;
            }
            match scan_step(s, p) {
                Found::Skip(e) => {
                    p = e;
                },
                Found::Token(item, next) => {
                    let ghost l = declaration_step(s@, p as int)->Token_0;
                    assert(declaration_next(s@, p0) == Some(l));
                    assert(declaration_stream(s@, p0).skip(1) =~= declaration_stream(s@, l.next));
                    self.pos = next;
                    return Some(item);
                },
            }
        }
    }
}

} // verus!
