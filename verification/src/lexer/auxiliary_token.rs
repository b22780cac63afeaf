//! The single token of a section of auxiliary code.
use vstd::prelude::*;
use crate::error::Error;
use crate::lexer::Lexed;
use crate::lexer::usercode_token::{
    UsercodeLexer, UsercodeToken, UsercodeTokenView, usercode_stream,
};

verus! {

/// The token of a section of auxiliary code: all of its text, to be copied as
/// it stands.
#[derive(Debug, Clone, Copy, PartialEq, Eq)]
pub enum AuxiliaryToken<'a> {
    CCode(&'a [u8]),
}

/// The mathematical value of an `AuxiliaryToken`.
pub enum AuxiliaryTokenView {
    CCode(Seq<u8>),
}

impl<'a> View for AuxiliaryToken<'a> {
    type V = AuxiliaryTokenView;

    open spec fn view(&self) -> AuxiliaryTokenView {
        match self {
            AuxiliaryToken::CCode(c) => AuxiliaryTokenView::CCode(c@),
        }
    }
}

/// The mathematical value of what an auxiliary lexer hands out.
pub open spec fn auxiliary_item_view(r: Result<AuxiliaryToken<'_>, Error>) -> Result<
    AuxiliaryTokenView,
    Error,
> {
    match r {
        Ok(t) => Ok(t@),
        Err(e) => Err(e),
    }
}

/// The auxiliary token or error that stands for a user-code one.
pub open spec fn as_auxiliary(l: Lexed<UsercodeTokenView>) -> Lexed<AuxiliaryTokenView> {
    Lexed {
        item: match l.item {
            Ok(UsercodeTokenView::CCode(c)) => Ok(AuxiliaryTokenView::CCode(c)),
            Err(e) => Err(e),
        },
        start: l.start,
        next: l.next,
    }
}

/// The tokens of the text `s` from `p` on: one `CCode` with everything that is
/// left, or nothing where nothing is left.
pub open spec fn auxiliary_stream(s: Seq<u8>, p: int) -> Seq<Lexed<AuxiliaryTokenView>> {
    usercode_stream(s, p).map_values(|l: Lexed<UsercodeTokenView>| as_auxiliary(l))
}

/// A lexer over the text of a section of auxiliary code.
pub struct AuxiliaryLexer<'a> {
    inner: UsercodeLexer<'a>,
}

impl<'a> AuxiliaryToken<'a> {
    /// A lexer that reads the auxiliary token from `source`.
    pub fn lexer(source: &'a [u8]) -> (lex: AuxiliaryLexer<'a>)
        ensures
            lex.wf(),
            lex.source() == source@,
            lex.remaining() == auxiliary_stream(source@, 0),
    {
        AuxiliaryLexer { inner: UsercodeToken::lexer(source) }
    }
}

impl<'a> AuxiliaryLexer<'a> {
    /// The position is inside the text.
    pub closed spec fn wf(&self) -> bool {
        self.inner.wf()
    }

    /// The text that is being read.
    pub closed spec fn source(&self) -> Seq<u8> {
        self.inner.source()
    }

    /// The tokens that are still to come.
    pub closed spec fn remaining(&self) -> Seq<Lexed<AuxiliaryTokenView>> {
        self.inner.remaining().map_values(|l: Lexed<UsercodeTokenView>| as_auxiliary(l))
    }

    /// Hands out the next token, or `None` when the text is used up.
    pub fn next(&mut self) -> (r: Option<Result<AuxiliaryToken<'a>, Error>>)
        requires
            old(self).wf(),
        ensures
            final(self).wf(),
            final(self).source() == old(self).source(),
            match r {
                Some(item) => old(self).remaining().len() > 0 && auxiliary_item_view(item) == old(
                    self,
                ).remaining()[0].item && final(self).remaining() == old(self).remaining().skip(1),
                None => old(self).remaining().len() == 0 && final(self).remaining().len() == 0,
            },
    {
        match self.inner.next() {
            Some(item) => {
                assert(final(self).remaining() =~= old(self).remaining().skip(1));
                Some(
                    match item {
                        Ok(UsercodeToken::CCode(c)) => Ok(AuxiliaryToken::CCode(c)),
                        Err(e) => Err(e),
                    },
                )
            },
            None => None,
        }
    }
}

} // verus!
