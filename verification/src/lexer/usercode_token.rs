//! The single token of the user-code section.
use vstd::prelude::*;
use vstd::slice::slice_subrange;
use crate::error::Error;
use crate::lexer::Lexed;

verus! {

/// The token of the user-code section: all of its text, to be copied as it
/// stands.
#[derive(Debug, Clone, Copy, PartialEq, Eq)]
pub enum UsercodeToken<'a> {
    CCode(&'a [u8]),
}

/// The mathematical value of a `UsercodeToken`.
pub enum UsercodeTokenView {
    CCode(Seq<u8>),
}

impl<'a> View for UsercodeToken<'a> {
    type V = UsercodeTokenView;

    open spec fn view(&self) -> UsercodeTokenView {
        match self {
            UsercodeToken::CCode(c) => UsercodeTokenView::CCode(c@),
        }
    }
}

/// The mathematical value of what a user-code lexer hands out.
pub open spec fn usercode_item_view(r: Result<UsercodeToken<'_>, Error>) -> Result<
    UsercodeTokenView,
    Error,
> {
    match r {
        Ok(t) => Ok(t@),
        Err(e) => Err(e),
    }
}

/// The tokens of the text `s` from `p` on: one `CCode` with everything that is
/// left, or nothing where nothing is left.
pub open spec fn usercode_stream(s: Seq<u8>, p: int) -> Seq<Lexed<UsercodeTokenView>> {
    if 0 <= p < s.len() {
        seq![
            Lexed {
                item: Ok(UsercodeTokenView::CCode(s.subrange(p, s.len() as int))),
                start: p,
                next: s.len() as int,
            },
        ]
    } else {
        Seq::empty()
    }
}

/// A lexer over the text of a user-code section.
pub struct UsercodeLexer<'a> {
    source: &'a [u8],
    pos: usize,
    start: usize,
}

impl<'a> UsercodeToken<'a> {
    /// A lexer that reads the user-code token from `source`.
    pub fn lexer(source: &'a [u8]) -> (lex: UsercodeLexer<'a>)
        ensures
            lex.wf(),
            lex.source() == source@,
            lex.remaining() == usercode_stream(source@, 0),
    {
        UsercodeLexer { source, pos: 0, start: 0 }
    }
}

impl<'a> UsercodeLexer<'a> {
    /// The position is inside the text.
    pub closed spec fn wf(&self) -> bool {
        self.start <= self.pos <= self.source@.len()
    }

    /// The text that is being read.
    pub closed spec fn source(&self) -> Seq<u8> {
        self.source@
    }

    /// The tokens that are still to come.
    pub closed spec fn remaining(&self) -> Seq<Lexed<UsercodeTokenView>> {
        usercode_stream(self.source@, self.pos as int)
    }

    /// Where the token that `next` returned last starts.
    pub closed spec fn last_start(&self) -> int {
        self.start as int
    }

    /// The offset at which the token that `next` returned last starts.
    pub fn offset(&self) -> (o: usize)
        requires
            self.wf(),
        ensures
            o == self.last_start(),
            o <= self.source().len(),
    {
        self.start
    }

    /// Hands out the next token, or `None` when the text is used up.
    pub fn next(&mut self) -> (r: Option<Result<UsercodeToken<'a>, Error>>)
        requires
            old(self).wf(),
        ensures
            final(self).wf(),
            final(self).source() == old(self).source(),
            match r {
                Some(item) => old(self).remaining().len() > 0 && usercode_item_view(item) == old(
                    self,
                ).remaining()[0].item && final(self).last_start() == old(self).remaining()[0].start
                    && final(self).remaining() == old(self).remaining().skip(1),
                None => old(self).remaining().len() == 0 && final(self).remaining().len() == 0,
            },
            match r {
                Some(Err(e)) => e == Error::LexicalError(final(self).last_start() as usize),
                _ => true,
            },
    {
        let s = self.source;
        let p = self.pos;
        if p >= s.len() {
            return None;
        }
        self.start = p;
        self.pos = s.len();
        assert(usercode_stream(s@, p as int).skip(1) =~= usercode_stream(s@, s@.len() as int));
        Some(Ok(UsercodeToken::CCode(slice_subrange(s, p, s.len()))))
    }
}

} // verus!
