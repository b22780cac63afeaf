//! Finding the next token in a buffer: the longest match, and among the rules
//! that match it the first.
//!
//! A scan reads the buffer byte by byte from its cursor and follows the
//! automaton. It notes the last place at which a rule matched. Where the
//! automaton can go no further, the scan ends if a match was noted; if none
//! was, the byte is dropped, the automaton starts anew, and the scan goes on
//! with the next byte. The token is what was read up to the last match.
use vstd::prelude::*;
use crate::regex::matcher::{
    advance, dead, first_accept, get_shared_state, initial_states, marked, next_states, start_set,
    states_is_empty,
};
use crate::regex::nfa::{Nfa, NfaView};

verus! {

/// Where a scan stands.
pub struct ScanState {
    /// The index of the next byte to read.
    pub cursor: int,
    /// The states in which the automaton can be.
    pub current: Set<nat>,
    /// The bytes that the automaton has taken.
    pub text: Seq<u8>,
    /// How many bytes had been taken at the last match; 0 where there was
    /// none.
    pub last_len: nat,
    /// The rule of the last match.
    pub last_rule: Option<int>,
}

/// What a scan yields.
pub struct Outcome {
    /// The token.
    pub text: Seq<u8>,
    /// The rule that matched it, or `None` where the buffer ended without a
    /// match.
    pub rule: Option<int>,
    /// The index of the next byte to read.
    pub cursor: int,
}

/// A scan that begins at `cursor`.
pub open spec fn beginning(nfa: NfaView, cursor: int) -> ScanState {
    ScanState {
        cursor,
        current: start_set(nfa),
        text: Seq::empty(),
        last_len: 0,
        last_rule: None,
    }
}

/// The state in which the scan that stands at `st` ends.
pub open spec fn scan_from(nfa: NfaView, buffer: Seq<u8>, st: ScanState) -> ScanState
    decreases buffer.len() - st.cursor,
{
    if st.cursor < 0 || st.cursor >= buffer.len() {
        st
    } else {
        let next = advance(nfa, st.current, buffer[st.cursor]);
        if dead(next) {
            if st.last_len > 0 {
                st
            } else {
                scan_from(
                    nfa,
                    buffer,
                    ScanState { cursor: st.cursor + 1, current: start_set(nfa), ..st },
                )
            }
        } else {
            let text = st.text.push(buffer[st.cursor]);
            match first_accept(nfa, next) {
                Some(rule) => scan_from(
                    nfa,
                    buffer,
                    ScanState {
                        cursor: st.cursor + 1,
                        current: next,
                        text,
                        last_len: text.len(),
                        last_rule: Some(rule),
                    },
                ),
                None => scan_from(
                    nfa,
                    buffer,
                    ScanState { cursor: st.cursor + 1, current: next, text, ..st },
                ),
            }
        }
    }
}

/// What the scan of `buffer` from `cursor` yields.
pub open spec fn scanned(nfa: NfaView, buffer: Seq<u8>, cursor: int) -> Outcome {
    let end = scan_from(nfa, buffer, beginning(nfa, cursor));
    Outcome { text: end.text.subrange(0, end.last_len as int), rule: end.last_rule, cursor: end.cursor }
}

/// The tokens that the scans of `buffer` from `cursor` to its end yield, each
/// with its rule. A scan that ends without a match yields none.
pub open spec fn all_scanned(nfa: NfaView, buffer: Seq<u8>, cursor: int) -> Seq<(Seq<u8>, int)>
    decreases buffer.len() - cursor,
{
    if cursor < 0 || cursor >= buffer.len() {
        Seq::empty()
    } else {
        let out = scanned(nfa, buffer, cursor);
        if cursor < out.cursor <= buffer.len() {
            match out.rule {
                Some(rule) => seq![(out.text, rule)] + all_scanned(nfa, buffer, out.cursor),
                None => all_scanned(nfa, buffer, out.cursor),
            }
        } else {
            Seq::empty()
        }
    }
}

/// A scan does not go back, it stops inside the buffer, and what it has noted
/// as matched is part of what it has taken. A scan that reads at least one
/// byte moves on.
pub proof fn lemma_scan_from_bounds(nfa: NfaView, buffer: Seq<u8>, st: ScanState)
    requires
        0 <= st.cursor <= buffer.len(),
        st.last_len <= st.text.len(),
    ensures
        st.cursor <= scan_from(nfa, buffer, st).cursor <= buffer.len(),
        scan_from(nfa, buffer, st).last_len <= scan_from(nfa, buffer, st).text.len(),
        st.cursor < buffer.len() && st.last_len == 0 ==> st.cursor < scan_from(
            nfa,
            buffer,
            st,
        ).cursor,
    decreases buffer.len() - st.cursor,
{
    if st.cursor < buffer.len() {
        let next = advance(nfa, st.current, buffer[st.cursor]);
        if dead(next) {
            if st.last_len == 0 {
                lemma_scan_from_bounds(
                    nfa,
                    buffer,
                    ScanState { cursor: st.cursor + 1, current: start_set(nfa), ..st },
                );
            }
        } else {
            let text = st.text.push(buffer[st.cursor]);
            match first_accept(nfa, next) {
                Some(rule) => lemma_scan_from_bounds(
                    nfa,
                    buffer,
                    ScanState {
                        cursor: st.cursor + 1,
                        current: next,
                        text,
                        last_len: text.len(),
                        last_rule: Some(rule),
                    },
                ),
                None => lemma_scan_from_bounds(
                    nfa,
                    buffer,
                    ScanState { cursor: st.cursor + 1, current: next, text, ..st },
                ),
            }
        }
    }
}

/// Every scan that begins before the end of the buffer moves the cursor on by
/// at least one byte, so that scanning a buffer to its end takes finitely many
/// scans.
pub proof fn lemma_scan_progress(nfa: NfaView, buffer: Seq<u8>, cursor: int)
    requires
        0 <= cursor < buffer.len(),
    ensures
        cursor < scanned(nfa, buffer, cursor).cursor <= buffer.len(),
{
    lemma_scan_from_bounds(nfa, buffer, beginning(nfa, cursor));
}

/// Where the automaton can go no further on the byte at the cursor and no
/// match is noted, the scan drops that byte alone and goes on from the next
/// one with the automaton at its start.
pub proof fn lemma_restart_on_miss(nfa: NfaView, buffer: Seq<u8>, st: ScanState)
    requires
        0 <= st.cursor < buffer.len(),
        st.last_len == 0,
        dead(advance(nfa, st.current, buffer[st.cursor])),
    ensures
        scan_from(nfa, buffer, st) == scan_from(
            nfa,
            buffer,
            ScanState { cursor: st.cursor + 1, current: start_set(nfa), ..st },
        ),
{
}

/// A token and the rule that matched it.
#[derive(Debug, PartialEq, Eq)]
pub struct Match {
    /// The token, `yytext`; its length is `yyleng`.
    pub text: Vec<u8>,
    /// The index of the rule, or `None` where the buffer ended without a
    /// match.
    pub rule: Option<usize>,
}

/// A buffer with a cursor, from which tokens are read one after the other.
pub struct Scanner<'a> {
    buffer: &'a [u8],
    cursor: usize,
}

impl<'a> Scanner<'a> {
    /// The cursor is inside the buffer or at its end.
    pub closed spec fn wf(&self) -> bool {
        self.cursor <= self.buffer@.len()
    }

    /// The buffer.
    pub closed spec fn buffer(&self) -> Seq<u8> {
        self.buffer@
    }

    /// The index of the next byte to read.
    pub closed spec fn position(&self) -> int {
        self.cursor as int
    }

    /// A scanner at the start of `buffer`.
    pub fn new(buffer: &'a [u8]) -> (s: Self)
        ensures
            s.wf(),
            s.buffer() == buffer@,
            s.position() == 0,
    {
        Scanner { buffer, cursor: 0 }
    }

    /// The index of the next byte to read.
    pub fn cursor(&self) -> (c: usize)
        ensures
            c == self.position(),
    {
        self.cursor
    }

    /// Whether the whole buffer has been read.
    pub fn at_end(&self) -> (r: bool)
        ensures
            r == (self.position() >= self.buffer().len()),
    {
        self.cursor >= self.buffer.len()
    }

    /// Reads the next token: the longest text from the cursor on that a rule
    /// matches, with the first rule that matches it. Bytes at which no match
    /// begins are dropped. A scan that begins before the end of the buffer
    /// moves the cursor on.
    pub fn yy_match(&mut self, nfa: &Nfa) -> (m: Match)
        requires
            old(self).wf(),
            nfa.wf(),
        ensures
            final(self).wf(),
            final(self).buffer() == old(self).buffer(),
            ({
                let out = scanned(nfa@, old(self).buffer(), old(self).position());
                &&& m.text@ == out.text
                &&& match m.rule {
                    Some(r) => out.rule == Some(r as int) && r < nfa@.accepts.len(),
                    None => out.rule.is_none(),
                }
                &&& final(self).position() == out.cursor
            }),
            old(self).position() < old(self).buffer().len() ==> old(self).position() < final(self)
                .position(),
    {
        let ghost view = nfa@;
        let ghost buf = self.buffer@;
        let ghost begin = beginning(view, self.cursor as int);
        let buffer = self.buffer;
        let mut cursor: usize = self.cursor;
        let mut current = initial_states(nfa);
        let mut text: Vec<u8> = Vec::new();
        let mut last_len: usize = 0;
        let mut last_rule: Option<usize> = None;
        proof {
            lemma_scan_from_bounds(view, buf, begin);
        }
        while cursor < buffer.len()
            invariant
                nfa.wf(),
                view == nfa@,
                buf == buffer@,
                cursor <= buffer.len(),
                current.len() == view.states,
                last_len <= text.len(),
                match last_rule {
                    Some(r) => r < view.accepts.len(),
                    None => true,
                },
                scan_from(view, buf, begin) == scan_from(
                    view,
                    buf,
                    ScanState {
                        cursor: cursor as int,
                        current: marked(current@),
                        text: text@,
                        last_len: last_len as nat,
                        last_rule: match last_rule {
                            Some(r) => Some(r as int),
                            None => None,
                        },
                    },
                ),
            ensures
                scan_from(view, buf, begin) == (ScanState {
                    cursor: cursor as int,
                    current: marked(current@),
                    text: text@,
                    last_len: last_len as nat,
                    last_rule: match last_rule {
                        Some(r) => Some(r as int),
                        None => None,
                    },
                }),
            decreases buffer.len() - cursor,
        {
            let b = buffer[cursor];
            let next = next_states(nfa, &current, b);
            if states_is_empty(&next) {
                if last_len > 0 {
                    break ;
                }
                current = initial_states(nfa);
                cursor += 1;
                continue ;
            }
            text.push(b);
            current = next;
            match get_shared_state(nfa, &current) {
                Some(rule) => {
                    last_len = text.len();
                    last_rule = Some(rule);
                },
                None => {},
            }
            cursor += 1;
        }
        text.truncate(last_len);
        self.cursor = cursor;
        Match { text, rule: last_rule }
    }
}

/// Scans `input` from its start to its end and returns the tokens with their
/// rules, in order. Scans that end without a match yield nothing.
pub fn yylex(nfa: &Nfa, input: &[u8]) -> (tokens: Vec<Match>)
    requires
        nfa.wf(),
    ensures
        tokens@.len() == all_scanned(nfa@, input@, 0).len(),
        forall|i: int|
            0 <= i < tokens@.len() ==> (#[trigger] tokens@[i]).text@ == all_scanned(
                nfa@,
                input@,
                0,
            )[i].0 && tokens@[i].rule.is_some() && tokens@[i].rule.unwrap() == all_scanned(
                nfa@,
                input@,
                0,
            )[i].1,
{
    let ghost view = nfa@;
    let ghost whole = all_scanned(view, input@, 0);
    let mut scanner = Scanner::new(input);
    let mut tokens: Vec<Match> = Vec::new();
    while !scanner.at_end()
        invariant
            nfa.wf(),
            view == nfa@,
            scanner.wf(),
            scanner.buffer() == input@,
            whole == all_scanned(view, input@, 0),
            tokens@.len() + all_scanned(view, input@, scanner.position()).len() == whole.len(),
            forall|i: int|
                0 <= i < tokens@.len() ==> (#[trigger] tokens@[i]).text@ == whole[i].0
                    && tokens@[i].rule.is_some() && tokens@[i].rule.unwrap() == whole[i].1,
            forall|i: int|
                0 <= i < all_scanned(view, input@, scanner.position()).len() ==> all_scanned(
                    view,
                    input@,
                    scanner.position(),
                )[i] == whole[tokens@.len() + i],
        decreases input@.len() - scanner.position(),
    {
        let ghost at = scanner.position();
        proof {
            lemma_scan_progress(view, input@, at);
        }
        let m = scanner.yy_match(nfa);
        if m.rule.is_some() {
            proof {
                let rest = all_scanned(view, input@, scanner.position());
                let here = all_scanned(view, input@, at);
                assert(here[0] == whole[tokens@.len() as int]);
                assert forall|i: int| 0 <= i < rest.len() implies rest[i] == whole[tokens@.len()
                    + 1 + i] by {
                    assert(here[i + 1] == whole[tokens@.len() + (i + 1)]);
                }
            }
            tokens.push(m);
        }
    }
    tokens
}

} // verus!
