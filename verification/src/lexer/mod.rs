//! Splitting a specification into its sections and tokenizing each of them.
use vstd::prelude::*;
use vstd::slice::slice_subrange;
use crate::bytes::{find, find_from, lemma_find_from_is_first, occurs_at};
use crate::error::Error;
use crate::lexer::definition_token::{
    DefinitionLexer, DefinitionToken, DefinitionTokenView, definition_stream,
};
use crate::lexer::rule_token::{RuleLexer, RuleToken, RuleTokenView, rule_stream};
use crate::lexer::scan::{PERCENT, byte_is_space, is_space};
use crate::lexer::usercode_token::{
    UsercodeLexer, UsercodeToken, UsercodeTokenView, usercode_stream,
};

pub mod scan;
pub mod rule_token;
pub mod usercode_token;
pub mod definition_token;
pub mod declaration_token;
pub mod auxiliary_token;

verus! {

/// One step of a lexer: a token or a lexical error, where it starts in the
/// text, and where the search for the next one begins.
pub struct Lexed<T> {
    pub item: Result<T, Error>,
    pub start: int,
    pub next: int,
}

/// A token of a specification: a token of one of the three sections, or one of
/// the two markers that stand for the `%%` delimiters.
#[derive(Debug, Clone, Copy, PartialEq, Eq)]
pub enum Token<'a> {
    Definition(DefinitionToken<'a>),
    Rule(RuleToken<'a>),
    Ucode(UsercodeToken<'a>),
    RuleStart,
    RuleEnd,
}

/// The mathematical value of a `Token`.
pub enum TokenView {
    Definition(DefinitionTokenView),
    Rule(RuleTokenView),
    Ucode(UsercodeTokenView),
    RuleStart,
    RuleEnd,
}

impl<'a> View for Token<'a> {
    type V = TokenView;

    open spec fn view(&self) -> TokenView {
        match self {
            Token::Definition(t) => TokenView::Definition(t@),
            Token::Rule(t) => TokenView::Rule(t@),
            Token::Ucode(t) => TokenView::Ucode(t@),
            Token::RuleStart => TokenView::RuleStart,
            Token::RuleEnd => TokenView::RuleEnd,
        }
    }
}

/// The mathematical value of what a lexer hands out.
pub open spec fn item_view(r: Result<Token<'_>, Error>) -> Result<TokenView, Error> {
    match r {
        Ok(t) => Ok(t@),
        Err(e) => Err(e),
    }
}

/// A token or a lexical error, with the offset in the specification at which
/// it starts.
pub struct Spanned {
    pub item: Result<TokenView, Error>,
    pub offset: int,
}

/// The section delimiter `%%`.
pub open spec fn delimiter() -> Seq<u8> {
    seq![PERCENT, PERCENT]
}

/// Where the two delimiters of `src` stand: the first `%%`, and the first `%%`
/// that begins after it. `None` where there are fewer than two.
pub open spec fn delimiters(src: Seq<u8>) -> Option<(int, int)> {
    match find_from(src, 0, delimiter()) {
        Some(d1) => match find_from(src, d1 + 2, delimiter()) {
            Some(d2) => Some((d1, d2)),
            None => None,
        },
        None => None,
    }
}

/// The length of `s` without the whitespace at its end.
pub open spec fn trimmed_len(s: Seq<u8>) -> int
    decreases s.len(),
{
    if s.len() > 0 && is_space(s.last()) {
        trimmed_len(s.drop_last())
    } else {
        s.len() as int
    }
}

/// `s` without the whitespace at its end.
pub open spec fn trim_end(s: Seq<u8>) -> Seq<u8> {
    s.subrange(0, trimmed_len(s))
}

/// The text of section `i` (0, 1 or 2) of `src` as it stands between the
/// delimiters `d`.
pub open spec fn raw_section(src: Seq<u8>, d: (int, int), i: int) -> Seq<u8> {
    if i == 0 {
        src.subrange(0, d.0)
    } else if i == 1 {
        src.subrange(d.0 + 2, d.1)
    } else {
        src.subrange(d.1 + 2, src.len() as int)
    }
}

/// The text of section `i` that is tokenized. For the definitions and the
/// rules it is the text between the delimiters without the whitespace at its
/// end; for the user code it is the text after the second delimiter as it
/// stands, byte for byte.
pub open spec fn section(src: Seq<u8>, d: (int, int), i: int) -> Seq<u8> {
    if i == 2 {
        raw_section(src, d, i)
    } else {
        trim_end(raw_section(src, d, i))
    }
}

/// A lexical error of a section, with its offset counted in the specification.
pub open spec fn rebase(e: Error, base: int) -> Error {
    match e {
        Error::LexicalError(o) => Error::LexicalError((o + base) as usize),
        other => other,
    }
}

pub open spec fn lift_definition(l: Lexed<DefinitionTokenView>) -> Spanned {
    Spanned {
        item: match l.item {
            Ok(t) => Ok(TokenView::Definition(t)),
            Err(e) => Err(e),
        },
        offset: l.start,
    }
}

pub open spec fn lift_rule(l: Lexed<RuleTokenView>, base: int) -> Spanned {
    Spanned {
        item: match l.item {
            Ok(t) => Ok(TokenView::Rule(t)),
            Err(e) => Err(rebase(e, base)),
        },
        offset: l.start + base,
    }
}

pub open spec fn lift_usercode(l: Lexed<UsercodeTokenView>, base: int) -> Spanned {
    Spanned {
        item: match l.item {
            Ok(t) => Ok(TokenView::Ucode(t)),
            Err(e) => Err(rebase(e, base)),
        },
        offset: l.start + base,
    }
}

/// The tokens of the three sections from the given places on, with `RuleStart`
/// between the first two and `RuleEnd` between the last two, beginning in
/// section `idx`.
pub open spec fn stream_of(
    idx: int,
    definitions: Seq<Lexed<DefinitionTokenView>>,
    rules: Seq<Lexed<RuleTokenView>>,
    usercode: Seq<Lexed<UsercodeTokenView>>,
    d: (int, int),
) -> Seq<Spanned> {
    let third = usercode.map_values(|l: Lexed<UsercodeTokenView>| lift_usercode(l, d.1 + 2));
    let second = rules.map_values(|l: Lexed<RuleTokenView>| lift_rule(l, d.0 + 2)) + seq![
        Spanned { item: Ok(TokenView::RuleEnd), offset: d.1 },
    ] + third;
    let first = definitions.map_values(|l: Lexed<DefinitionTokenView>| lift_definition(l)) + seq![
        Spanned { item: Ok(TokenView::RuleStart), offset: d.0 },
    ] + second;
    if idx == 0 {
        first
    } else if idx == 1 {
        second
    } else if idx == 2 {
        third
    } else {
        Seq::empty()
    }
}

/// All tokens of the specification `src`, whose delimiters stand at `d`.
pub open spec fn token_stream(src: Seq<u8>, d: (int, int)) -> Seq<Spanned> {
    stream_of(
        0,
        definition_stream(section(src, d, 0), 0, false),
        rule_stream(section(src, d, 1), 0),
        usercode_stream(section(src, d, 2), 0),
        d,
    )
}

/// The delimiters stand inside the text, the second after the first.
pub proof fn lemma_delimiters_bounds(src: Seq<u8>)
    ensures
        match delimiters(src) {
            Some(d) => 0 <= d.0 && d.0 + 2 <= d.1 && d.1 + 2 <= src.len() && occurs_at(
                src,
                d.0,
                delimiter(),
            ) && occurs_at(src, d.1, delimiter()),
            None => true,
        },
{
    lemma_find_from_is_first(src, 0, delimiter());
    match find_from(src, 0, delimiter()) {
        Some(d1) => {
            lemma_find_from_is_first(src, d1 + 2, delimiter());
        },
        None => {},
    }
}

/// Trimming keeps a prefix, removes only whitespace, and leaves no whitespace
/// at the end.
pub proof fn lemma_trimmed_len(s: Seq<u8>)
    ensures
        0 <= trimmed_len(s) <= s.len(),
        forall|k: int| trimmed_len(s) <= k < s.len() ==> is_space(#[trigger] s[k]),
        trimmed_len(s) > 0 ==> !is_space(s[trimmed_len(s) - 1]),
    decreases s.len(),
{
    if s.len() > 0 && is_space(s.last()) {
        let t = s.drop_last();
        lemma_trimmed_len(t);
        assert forall|k: int| trimmed_len(s) <= k < s.len() implies is_space(#[trigger] s[k]) by {
            if k < t.len() {
                assert(t[k] == s[k]);
            }
        }
        if trimmed_len(s) > 0 {
            assert(t[trimmed_len(s) - 1] == s[trimmed_len(s) - 1]);
        }
    }
}

/// The three sections of a specification, joined again with `%%`, give the
/// specification back, up to the whitespace that ends the definitions and the
/// rules: the specification is the three texts between the delimiters joined
/// with `%%`; the user code is the third of them as it stands; the
/// definitions and the rules as they are tokenized are the first two without
/// the whitespace at their end.
pub proof fn lemma_sections_round_trip(src: Seq<u8>)
    requires
        delimiters(src).is_some(),
    ensures
        ({
            let d = delimiters(src).unwrap();
            &&& src == raw_section(src, d, 0) + delimiter() + raw_section(src, d, 1) + delimiter()
                + section(src, d, 2)
            &&& forall|i: int|
                0 <= i < 2 ==> {
                    let raw = #[trigger] raw_section(src, d, i);
                    let sec = section(src, d, i);
                    &&& sec == raw.subrange(0, sec.len() as int)
                    &&& forall|k: int| sec.len() <= k < raw.len() ==> is_space(#[trigger] raw[k])
                    &&& sec.len() > 0 ==> !is_space(sec.last())
                }
        }),
{
    let d = delimiters(src).unwrap();
    lemma_delimiters_bounds(src);
    assert(src =~= raw_section(src, d, 0) + delimiter() + raw_section(src, d, 1) + delimiter()
        + raw_section(src, d, 2)) by {
        assert(src.subrange(d.0, d.0 + 2) == delimiter());
        assert(src.subrange(d.1, d.1 + 2) == delimiter());
        assert forall|k: int| 0 <= k < src.len() implies src[k] == (raw_section(src, d, 0)
            + delimiter() + raw_section(src, d, 1) + delimiter() + raw_section(src, d, 2))[k] by {
            if d.0 <= k < d.0 + 2 {
                assert(src.subrange(d.0, d.0 + 2)[k - d.0] == src[k]);
            }
            if d.1 <= k < d.1 + 2 {
                assert(src.subrange(d.1, d.1 + 2)[k - d.1] == src[k]);
            }
        }
    }
    assert forall|i: int| 0 <= i < 2 implies {
        let raw = #[trigger] raw_section(src, d, i);
        let sec = section(src, d, i);
        &&& sec == raw.subrange(0, sec.len() as int)
        &&& forall|k: int| sec.len() <= k < raw.len() ==> is_space(#[trigger] raw[k])
        &&& sec.len() > 0 ==> !is_space(sec.last())
    } by {
        lemma_trimmed_len(raw_section(src, d, i));
    }
}

/// `s` without the whitespace at its end.
pub fn trim(s: &[u8]) -> (r: &[u8])
    ensures
        r@ == trim_end(s@),
{
    let mut n: usize = s.len();
    assert(s@.subrange(0, n as int) =~= s@);
    while n > 0 && byte_is_space(s[n - 1])
        invariant
            n <= s.len(),
            trimmed_len(s@) == trimmed_len(s@.subrange(0, n as int)),
        decreases n,
    {
        assert(s@.subrange(0, n as int).drop_last() =~= s@.subrange(0, n - 1));
        n -= 1;
    }
    assert(s@.subrange(0, s.len() as int) =~= s@);
    slice_subrange(s, 0, n)
}

/// The three sections of a specification and the offsets of the two
/// delimiters between them. The definitions and the rules are without the
/// whitespace at their end; the user code is as it stands.
#[derive(Debug, Clone, Copy, PartialEq, Eq)]
pub struct Sections<'a> {
    pub definitions: &'a [u8],
    pub rules: &'a [u8],
    pub usercode: &'a [u8],
    pub first_delimiter: usize,
    pub second_delimiter: usize,
}

/// Splits `source` at its first two `%%` into exactly three sections. Fails
/// with `MalformedInput` where `source` holds fewer than two delimiters.
pub fn split_sections<'a>(source: &'a [u8]) -> (r: Result<Sections<'a>, Error>)
    ensures
        match r {
            Ok(parts) => {
                &&& delimiters(source@) == Some(
                    (parts.first_delimiter as int, parts.second_delimiter as int),
                )
                &&& parts.definitions@ == section(source@, delimiters(source@).unwrap(), 0)
                &&& parts.rules@ == section(source@, delimiters(source@).unwrap(), 1)
                &&& parts.usercode@ == section(source@, delimiters(source@).unwrap(), 2)
            },
            Err(e) => delimiters(source@).is_none() && e == Error::MalformedInput,
        },
{
    let delim: [u8; 2] = [PERCENT, PERCENT];
    let len = source.len();
    assert(delim@ =~= delimiter());
    proof {
        lemma_find_from_is_first(source@, 0, delimiter());
    }
    let d1 = match find(source, 0, delim.as_slice()) {
        Some(d) => d,
        None => {
            return Err(Error::MalformedInput);
        },
    };
    proof {
        lemma_find_from_is_first(source@, d1 + 2, delimiter());
    }
    assert(occurs_at(source@, d1 as int, delimiter()));
    let d2 = match find(source, d1 + 2, delim.as_slice()) {
        Some(d) => d,
        None => {
            return Err(Error::MalformedInput);
        },
    };
    assert(occurs_at(source@, d2 as int, delimiter()));
    Ok(
        Sections {
            definitions: trim(slice_subrange(source, 0, d1)),
            rules: trim(slice_subrange(source, d1 + 2, d2)),
            usercode: slice_subrange(source, d2 + 2, len),
            first_delimiter: d1,
            second_delimiter: d2,
        },
    )
}

/// A lexer over a whole specification. It hands out the tokens of the
/// definitions section, `RuleStart`, the tokens of the rules section,
/// `RuleEnd`, and the token of the user-code section.
pub struct Lexer<'a> {
    source: &'a [u8],
    section_idx: usize,
    definition: DefinitionLexer<'a>,
    rule: RuleLexer<'a>,
    usercode: UsercodeLexer<'a>,
    first_delimiter: usize,
    second_delimiter: usize,
    start: usize,
}

impl<'a> Lexer<'a> {
    /// The section lexers are well formed, and every offset that they can
    /// report fits, once counted in the specification, in a `usize`.
    pub closed spec fn wf(&self) -> bool {
        &&& self.definition.wf()
        &&& self.rule.wf()
        &&& self.usercode.wf()
        &&& self.first_delimiter + 2 <= self.second_delimiter
        &&& self.second_delimiter + 2 <= self.source@.len()
        &&& self.rule.source().len() <= self.second_delimiter - self.first_delimiter - 2
        &&& self.usercode.source().len() <= self.source@.len() - self.second_delimiter - 2
    }

    /// The specification that is being read.
    pub closed spec fn source(&self) -> Seq<u8> {
        self.source@
    }

    /// The tokens that are still to come.
    pub closed spec fn remaining(&self) -> Seq<Spanned> {
        stream_of(
            self.section_idx as int,
            self.definition.remaining(),
            self.rule.remaining(),
            self.usercode.remaining(),
            (self.first_delimiter as int, self.second_delimiter as int),
        )
    }

    /// Where the token that `next` returned last starts.
    pub closed spec fn last_start(&self) -> int {
        self.start as int
    }

    /// Splits `source` at its first two `%%` and sets up the section lexers.
    /// Fails with `MalformedInput` where `source` holds fewer than two
    /// delimiters.
    pub fn new(source: &'a [u8]) -> (r: Result<Lexer<'a>, Error>)
        ensures
            match r {
                Ok(lex) => delimiters(source@).is_some() && lex.wf() && lex.source() == source@
                    && lex.remaining() == token_stream(source@, delimiters(source@).unwrap()),
                Err(e) => delimiters(source@).is_none() && e == Error::MalformedInput,
            },
    {
        let parts = match split_sections(source) {
            Ok(parts) => parts,
            Err(e) => {
                return Err(e);
            },
        };
        let ghost d = delimiters(source@).unwrap();
        proof {
            lemma_delimiters_bounds(source@);
            lemma_trimmed_len(raw_section(source@, d, 1));
        }
        Ok(
            Lexer {
                source,
                section_idx: 0,
                definition: DefinitionToken::lexer(parts.definitions),
                rule: RuleToken::lexer(parts.rules),
                usercode: UsercodeToken::lexer(parts.usercode),
                first_delimiter: parts.first_delimiter,
                second_delimiter: parts.second_delimiter,
                start: 0,
            },
        )
    }

    /// The offset in the specification at which the token that `next` returned
    /// last starts.
    pub fn offset(&self) -> (o: usize)
        ensures
            o == self.last_start(),
    {
        self.start
    }

    /// Hands out the next token, or `None` when the specification is used up.
    pub fn next(&mut self) -> (r: Option<Result<Token<'a>, Error>>)
        requires
            old(self).wf(),
        ensures
            final(self).wf(),
            final(self).source() == old(self).source(),
            match r {
                Some(item) => old(self).remaining().len() > 0 && item_view(item) == old(
                    self,
                ).remaining()[0].item && final(self).last_start() == old(self).remaining()[0].offset
                    && final(self).remaining() == old(self).remaining().skip(1),
                None => old(self).remaining().len() == 0 && final(self).remaining().len() == 0,
            },
    {
        let ghost d = (self.first_delimiter as int, self.second_delimiter as int);
        let len = self.source.len();
        if self.section_idx == 0 {
            match self.definition.next() {
                Some(item) => {
                    self.start = self.definition.offset();
                    assert(final(self).remaining() =~= old(self).remaining().skip(1));
                    Some(
                        match item {
                            Ok(t) => Ok(Token::Definition(t)),
                            Err(e) => Err(e),
                        },
                    )
                },
                None => {
                    self.section_idx = 1;
                    self.start = self.first_delimiter;
                    assert(final(self).remaining() =~= old(self).remaining().skip(1));
                    Some(Ok(Token::RuleStart))
                },
            }
        } else if self.section_idx == 1 {
            match self.rule.next() {
                Some(item) => {
                    let base = self.first_delimiter + 2;
                    self.start = self.rule.offset() + base;
                    assert(final(self).remaining() =~= old(self).remaining().skip(1));
                    Some(
                        match item {
                            Ok(t) => Ok(Token::Rule(t)),
                            Err(e) => Err(shift(e, base)),
                        },
                    )
                },
                None => {
                    self.section_idx = 2;
                    self.start = self.second_delimiter;
                    assert(final(self).remaining() =~= old(self).remaining().skip(1));
                    Some(Ok(Token::RuleEnd))
                },
            }
        } else if self.section_idx == 2 {
            match self.usercode.next() {
                Some(item) => {
                    let base = self.second_delimiter + 2;
                    self.start = self.usercode.offset() + base;
                    assert(final(self).remaining() =~= old(self).remaining().skip(1));
                    Some(
                        match item {
                            Ok(t) => Ok(Token::Ucode(t)),
                            Err(e) => Err(shift(e, base)),
                        },
                    )
                },
                None => {
                    self.section_idx = 3;
                    None
                },
            }
        } else {
            None
        }
    }
}

/// Counts the offset of a lexical error from `base`.
fn shift(e: Error, base: usize) -> (r: Error)
    requires
        match e {
            Error::LexicalError(o) => o + base <= usize::MAX,
            _ => true,
        },
    ensures
        r == rebase(e, base as int),
{
    match e {
        Error::LexicalError(o) => Error::LexicalError(o + base),
        other => other,
    }
}

} // verus!
