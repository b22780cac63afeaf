//! Tokens of the definitions section.
use vstd::prelude::*;
use vstd::slice::slice_subrange;
use crate::bytes::{find, find_from, lemma_find_from_is_first, occurs, occurs_at};
use crate::error::Error;
use crate::lexer::scan::{
    ByteClass, CLOSE_BRACE, NEWLINE, OPEN_BRACE, PERCENT, SPACE, TAB, UNDERSCORE, comment_end,
    is_blank, is_name_start, lemma_comment_close_bounds, lemma_pattern_end_bounds, lemma_run_end,
    pattern_end, run_end, scan_comment, scan_pattern, scan_run, byte_in_class,
};
use crate::lexer::Lexed;

verus! {

/// A token of the definitions section. The payloads are slices of the section
/// text.
#[derive(Debug, Clone, Copy, PartialEq, Eq)]
pub enum DefinitionToken<'a> {
    /// The keyword `%option`.
    OptionStart,
    /// A word of letters that follows `%option` on its line.
    Identifier(&'a [u8]),
    /// The text between `%{` and `%}`, each on a line end, delimiters left out.
    CCode(&'a [u8]),
    /// A macro name at the start of a line, without the line feed before it.
    Name(&'a [u8]),
    /// Pattern text.
    Pattern(&'a [u8]),
    /// A line feed that starts no name.
    Newline,
}

/// The mathematical value of a `DefinitionToken`.
pub enum DefinitionTokenView {
    OptionStart,
    Identifier(Seq<u8>),
    CCode(Seq<u8>),
    Name(Seq<u8>),
    Pattern(Seq<u8>),
    Newline,
}

impl<'a> View for DefinitionToken<'a> {
    type V = DefinitionTokenView;

    open spec fn view(&self) -> DefinitionTokenView {
        match self {
            DefinitionToken::OptionStart => DefinitionTokenView::OptionStart,
            DefinitionToken::Identifier(x) => DefinitionTokenView::Identifier(x@),
            DefinitionToken::CCode(x) => DefinitionTokenView::CCode(x@),
            DefinitionToken::Name(x) => DefinitionTokenView::Name(x@),
            DefinitionToken::Pattern(x) => DefinitionTokenView::Pattern(x@),
            DefinitionToken::Newline => DefinitionTokenView::Newline,
        }
    }
}

/// The mathematical value of what a definitions lexer hands out.
pub open spec fn definition_item_view(r: Result<DefinitionToken<'_>, Error>) -> Result<
    DefinitionTokenView,
    Error,
> {
    match r {
        Ok(t) => Ok(t@),
        Err(e) => Err(e),
    }
}

/// The keyword `%option`.
pub open spec fn option_keyword() -> Seq<u8> {
    seq![0x25u8, 0x6f, 0x70, 0x74, 0x69, 0x6f, 0x6e]
}

/// What opens a block of C code: `%{` and a line feed.
pub open spec fn ccode_open() -> Seq<u8> {
    seq![PERCENT, OPEN_BRACE, NEWLINE]
}

/// What closes a block of C code: a line feed and `%}`.
pub open spec fn ccode_close() -> Seq<u8> {
    seq![NEWLINE, PERCENT, CLOSE_BRACE]
}

/// The end of the block of C code that starts at `p`: the opening, the
/// shortest text, and the closing.
pub open spec fn ccode_end(s: Seq<u8>, p: int) -> Option<int> {
    if occurs_at(s, p, ccode_open()) {
        match find_from(s, p + 3, ccode_close()) {
            Some(q) => Some(q + 3),
            None => None,
        }
    } else {
        None
    }
}

/// The end of the macro name that starts at `p`, or `p` where none does.
pub open spec fn name_end(s: Seq<u8>, p: int) -> int {
    if 0 <= p < s.len() && is_name_start(s[p]) {
        run_end(s, p + 1, ByteClass::NameTail)
    } else {
        p
    }
}

/// One step of the definitions lexer: either text that is passed over, with
/// the place where it ends, or a token.
pub enum Step {
    Skip(int),
    Token(Lexed<DefinitionTokenView>),
}

/// The larger of two numbers.
pub open spec fn larger(a: int, b: int) -> int {
    if a >= b {
        a
    } else {
        b
    }
}

/// What starts at `p`, where `p` is inside the text and holds no blank.
///
/// At a line feed stands a `Name` where a macro name follows, else a
/// `Newline`. Elsewhere the candidates are a comment, `%option`, a block of C
/// code, an identifier (in option mode only) and pattern text. The longest
/// wins; among equally long ones the first in that list wins. Where none
/// matches, the byte is a lexical error.
pub open spec fn definition_step(s: Seq<u8>, p: int, option_mode: bool) -> Step {
    if s[p] == NEWLINE {
        let e = name_end(s, p + 1);
        if e > p + 1 {
            Step::Token(
                Lexed { item: Ok(DefinitionTokenView::Name(s.subrange(p + 1, e))), start: p, next: e },
            )
        } else {
            Step::Token(Lexed { item: Ok(DefinitionTokenView::Newline), start: p, next: p + 1 })
        }
    } else {
        let com = match comment_end(s, p) {
            Some(e) => e,
            None => p,
        };
        let kw = if occurs_at(s, p, option_keyword()) {
            p + 7
        } else {
            p
        };
        let cc = match ccode_end(s, p) {
            Some(e) => e,
            None => p,
        };
        let id = if option_mode {
            run_end(s, p, ByteClass::Alpha)
        } else {
            p
        };
        let pat = pattern_end(s, p);
        let best = larger(larger(larger(com, kw), larger(cc, id)), pat);
        if best <= p {
            Step::Token(Lexed { item: Err(Error::LexicalError(p as usize)), start: p, next: p + 1 })
        } else if com == best {
            Step::Skip(com)
        } else if kw == best {
            Step::Token(Lexed { item: Ok(DefinitionTokenView::OptionStart), start: p, next: kw })
        } else if cc == best {
            Step::Token(
                Lexed {
                    item: Ok(DefinitionTokenView::CCode(s.subrange(p + 3, cc - 3))),
                    start: p,
                    next: cc,
                },
            )
        } else if id == best {
            Step::Token(
                Lexed { item: Ok(DefinitionTokenView::Identifier(s.subrange(p, id))), start: p, next: id },
            )
        } else {
            Step::Token(
                Lexed { item: Ok(DefinitionTokenView::Pattern(s.subrange(p, pat))), start: p, next: pat },
            )
        }
    }
}

/// The first token at or after `p`, once blanks and comments are skipped;
/// `None` at the end of the text.
pub open spec fn definition_next(s: Seq<u8>, p: int, option_mode: bool) -> Option<
    Lexed<DefinitionTokenView>,
>
    decreases s.len() - p,
{
    if p < 0 || p >= s.len() {
        None
    } else if is_blank(s[p]) {
        definition_next(s, p + 1, option_mode)
    } else {
        match definition_step(s, p, option_mode) {
            Step::Skip(e) => if p < e <= s.len() {
                definition_next(s, e, option_mode)
            } else {
                None
            },
            Step::Token(l) => Some(l),
        }
    }
}

/// Whether the lexer is in option mode after `item`: it is after `%option` and
/// after each identifier, and nowhere else.
pub open spec fn option_mode_after(item: Result<DefinitionTokenView, Error>) -> bool {
    match item {
        Ok(DefinitionTokenView::OptionStart) => true,
        Ok(DefinitionTokenView::Identifier(_)) => true,
        _ => false,
    }
}

/// All tokens of the section text `s` from `p` on, in order.
pub open spec fn definition_stream(s: Seq<u8>, p: int, option_mode: bool) -> Seq<
    Lexed<DefinitionTokenView>,
>
    decreases s.len() - p,
{
    match definition_next(s, p, option_mode) {
        Some(l) => if p < l.next <= s.len() {
            seq![l] + definition_stream(s, l.next, option_mode_after(l.item))
        } else {
            Seq::empty()
        },
        None => Seq::empty(),
    }
}

/// A block of C code ends inside the text, at least six bytes after its start.
pub proof fn lemma_ccode_end_bounds(s: Seq<u8>, p: int)
    requires
        0 <= p,
    ensures
        match ccode_end(s, p) {
            Some(e) => p + 6 <= e <= s.len(),
            None => true,
        },
{
    lemma_find_from_is_first(s, p + 3, ccode_close());
}

/// A token lies inside the text, at or after the place where the search for it
/// began, and is not empty.
pub proof fn lemma_definition_next_bounds(s: Seq<u8>, p: int, option_mode: bool)
    requires
        0 <= p <= s.len(),
    ensures
        match definition_next(s, p, option_mode) {
            Some(l) => p <= l.start < l.next <= s.len(),
            None => true,
        },
    decreases s.len() - p,
{
    if p >= s.len() {
    } else if is_blank(s[p]) {
        lemma_definition_next_bounds(s, p + 1, option_mode);
    } else {
        lemma_comment_close_bounds(s, p + 2);
        lemma_ccode_end_bounds(s, p);
        lemma_run_end(s, p, ByteClass::Alpha);
        if p + 2 <= s.len() {
            lemma_run_end(s, p + 2, ByteClass::NameTail);
        }
        lemma_pattern_end_bounds(s, p);
        match definition_step(s, p, option_mode) {
            Step::Skip(e) => {
                if p < e <= s.len() {
                    lemma_definition_next_bounds(s, e, option_mode);
                }
            },
            Step::Token(l) => {},
        }
    }
}

/// A lexer over the text of a definitions section.
pub struct DefinitionLexer<'a> {
    source: &'a [u8],
    pos: usize,
    start: usize,
    option_mode: bool,
}

impl<'a> DefinitionToken<'a> {
    /// A lexer that reads definition tokens from `source`.
    pub fn lexer(source: &'a [u8]) -> (lex: DefinitionLexer<'a>)
        ensures
            lex.wf(),
            lex.source() == source@,
            lex.remaining() == definition_stream(source@, 0, false),
    {
        DefinitionLexer { source, pos: 0, start: 0, option_mode: false }
    }
}

/// Reads a block of C code that starts at `p` and returns its end.
pub fn scan_ccode(s: &[u8], p: usize) -> (r: Option<usize>)
    requires
        p <= s.len(),
    ensures
        match r {
            Some(e) => ccode_end(s@, p as int) == Some(e as int) && p + 6 <= e <= s.len(),
            None => ccode_end(s@, p as int).is_none(),
        },
{
    let open: [u8; 3] = [PERCENT, OPEN_BRACE, NEWLINE];
    let close: [u8; 3] = [NEWLINE, PERCENT, CLOSE_BRACE];
    assert(open@ =~= ccode_open());
    assert(close@ =~= ccode_close());
    proof {
        lemma_ccode_end_bounds(s@, p as int);
    }
    if !occurs(s, p, open.as_slice()) {
        return None;
    }
    match find(s, p + 3, close.as_slice()) {
        Some(q) => Some(q + 3),
        None => None,
    }
}

/// Reads the macro name that starts at `p` and returns its end (`p` where none
/// starts there).
fn scan_name(s: &[u8], p: usize) -> (e: usize)
    requires
        p <= s.len(),
    ensures
        e == name_end(s@, p as int),
        p <= e <= s.len(),
{
    if p < s.len() && (byte_in_class(ByteClass::Alpha, s[p]) || s[p] == UNDERSCORE) {
        scan_run(s, p + 1, ByteClass::NameTail)
    } else {
        p
    }
}

impl<'a> DefinitionLexer<'a> {
    /// The position is inside the text.
    pub closed spec fn wf(&self) -> bool {
        self.start <= self.pos <= self.source@.len()
    }

    /// The text that is being read.
    pub closed spec fn source(&self) -> Seq<u8> {
        self.source@
    }

    /// The tokens that are still to come.
    pub closed spec fn remaining(&self) -> Seq<Lexed<DefinitionTokenView>> {
        definition_stream(self.source@, self.pos as int, self.option_mode)
    }

    /// Where the token that `next` returned last starts.
    pub closed spec fn last_start(&self) -> int {
        self.start as int
    }

    /// The offset at which the token that `next` returned last starts.
    pub fn offset(&self) -> (o: usize)
        requires
            self.wf(),
        ensures
            o == self.last_start(),
            o <= self.source().len(),
    {
        self.start
    }

    /// Hands out the next token, or `None` when the text is used up.
    pub fn next(&mut self) -> (r: Option<Result<DefinitionToken<'a>, Error>>)
        requires
            old(self).wf(),
        ensures
            final(self).wf(),
            final(self).source() == old(self).source(),
            match r {
                Some(item) => old(self).remaining().len() > 0 && definition_item_view(item) == old(
                    self,
                ).remaining()[0].item && final(self).last_start() == old(self).remaining()[0].start
                    && final(self).remaining() == old(self).remaining().skip(1),
                None => old(self).remaining().len() == 0 && final(self).remaining().len() == 0,
            },
            match r {
                Some(Err(e)) => e == Error::LexicalError(final(self).last_start() as usize),
                _ => true,
            },
    {
        let s = self.source;
        let mode = self.option_mode;
        let ghost p0 = self.pos as int;
        let mut p: usize = self.pos;
        loop
            invariant
                p0 <= p <= s.len(),
                s == self.source,
                s == old(self).source,
                p0 == old(self).pos,
                mode == old(self).option_mode,
                mode == self.option_mode,
                self.pos == p0,
                self.start <= p0,
                definition_next(s@, p0, mode) == definition_next(s@, p as int, mode),
            decreases s.len() - p,
        {
            if p >= s.len() {
                self.pos = p;
                return None;
            }
            let b = s[p];
            if b == SPACE || b == TAB {
                p += 1;
                continue;
            }
            match scan_step(s, p, mode) {
                Found::Skip(e) => {
                    p = e;
                },
                Found::Token(item, next, mode_after) => {
                    let ghost l = definition_step(s@, p as int, mode)->Token_0;
                    assert(definition_next(s@, p0, mode) == Some(l));
                    assert(definition_stream(s@, p0, mode).skip(1) =~= definition_stream(
                        s@,
                        l.next,
                        option_mode_after(l.item),
                    ));
                    self.start = p;
                    self.pos = next;
                    self.option_mode = mode_after;
                    return Some(item);
                },
            }
        }
    }
}

/// What the lexer found at one place: text to pass over, with its end, or a
/// token with the place after it and the option mode that follows it.
enum Found<'a> {
    Skip(usize),
    Token(Result<DefinitionToken<'a>, Error>, usize, bool),
}

/// Reads what starts at `p`.
fn scan_step<'a>(s: &'a [u8], p: usize, mode: bool) -> (r: Found<'a>)
    requires
        p < s.len(),
        !is_blank(s@[p as int]),
    ensures
        match r {
            Found::Skip(e) => definition_step(s@, p as int, mode) == Step::Skip(e as int) && p < e
                <= s.len(),
            Found::Token(item, next, mode_after) => {
                &&& definition_step(s@, p as int, mode) is Token
                &&& definition_step(s@, p as int, mode)->Token_0.item == definition_item_view(item)
                &&& definition_step(s@, p as int, mode)->Token_0.start == p
                &&& definition_step(s@, p as int, mode)->Token_0.next == next
                &&& mode_after == option_mode_after(definition_item_view(item))
                &&& p < next <= s.len()
                &&& item is Err ==> item == Err::<DefinitionToken<'a>, Error>(
                    Error::LexicalError(p),
                )
            },
        },
{
    if s[p] == NEWLINE {
        let e = scan_name(s, p + 1);
        if e > p + 1 {
            return Found::Token(Ok(DefinitionToken::Name(slice_subrange(s, p + 1, e))), e, false);
        }
        return Found::Token(Ok(DefinitionToken::Newline), p + 1, false);
    }
    let keyword: [u8; 7] = [0x25, 0x6f, 0x70, 0x74, 0x69, 0x6f, 0x6e];
    assert(keyword@ =~= option_keyword());
    let com: usize = match scan_comment(s, p) {
        Some(e) => e,
        None => p,
    };
    let kw: usize = if occurs(s, p, keyword.as_slice()) {
        p + 7
    } else {
        p
    };
    let cc: usize = match scan_ccode(s, p) {
        Some(e) => e,
        None => p,
    };
    let id: usize = if mode {
        scan_run(s, p, ByteClass::Alpha)
    } else {
        p
    };
    let pat: usize = scan_pattern(s, p);
    let mut best: usize = com;
    if kw > best {
        best = kw;
    }
    if cc > best {
        best = cc;
    }
    if id > best {
        best = id;
    }
    if pat > best {
        best = pat;
    }
    assert(best == larger(
        larger(larger(com as int, kw as int), larger(cc as int, id as int)),
        pat as int,
    ));
    if best <= p {
        Found::Token(Err(Error::LexicalError(p)), p + 1, false)
    } else if com == best {
        Found::Skip(com)
    } else if kw == best {
        Found::Token(Ok(DefinitionToken::OptionStart), kw, true)
    } else if cc == best {
        Found::Token(Ok(DefinitionToken::CCode(slice_subrange(s, p + 3, cc - 3))), cc, false)
    } else if id == best {
        Found::Token(Ok(DefinitionToken::Identifier(slice_subrange(s, p, id))), id, true)
    } else {
        Found::Token(Ok(DefinitionToken::Pattern(slice_subrange(s, p, pat))), pat, false)
    }
}

} // verus!
