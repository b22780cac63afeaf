//! What holds of every scan: the token is the longest match, and its rule is
//! the first of those that match it.
use vstd::prelude::*;
use crate::regex::matcher::{
    advance, dead, first_accept, lemma_advance_dead, lemma_first_accept_from, rule_matches, run,
    start_set,
};
use crate::regex::builder::{combined, lemma_accept_states};
use crate::regex::correct::lemma_automaton_means_patterns;
use crate::regex::meaning::denotes;
use crate::regex::nfa::NfaView;
use crate::regex::parser::parsed;
use crate::regex::scanner::{ScanState, beginning, scan_from, scanned};

verus! {

/// The `k` bytes of `buffer` from `c` on.
pub open spec fn piece(buffer: Seq<u8>, c: int, k: int) -> Seq<u8> {
    buffer.subrange(c, c + k)
}

/// No rule matches any piece of one byte or more that begins at `c`.
pub open spec fn nothing_matches(nfa: NfaView, buffer: Seq<u8>, c: int) -> bool {
    forall|rule: int, k: int|
        1 <= k <= buffer.len() - c ==> !#[trigger] rule_matches(nfa, rule, piece(buffer, c, k))
}

/// What every state of a scan from `c` fulfils.
spec fn sound(buffer: Seq<u8>, c: int, st: ScanState) -> bool {
    &&& 0 <= c <= st.cursor <= buffer.len()
    &&& st.last_len <= st.text.len() <= st.cursor - c
    &&& (st.last_len > 0) == st.last_rule.is_some()
}

/// What a state of a scan from `c` fulfils as long as no byte was dropped: the
/// scan has taken every byte from `c` on, the automaton is where these bytes
/// lead, the match that is noted is the last one, and its rule is the first
/// that matches there.
spec fn straight(nfa: NfaView, buffer: Seq<u8>, c: int, st: ScanState) -> bool {
    &&& st.text == piece(buffer, c, st.cursor - c)
    &&& st.current == run(nfa, piece(buffer, c, st.cursor - c))
    &&& st.last_len > 0 ==> st.last_rule == first_accept(
        nfa,
        run(nfa, piece(buffer, c, st.last_len as int)),
    )
    &&& forall|k: int|
        st.last_len < k <= st.cursor - c ==> (#[trigger] first_accept(
            nfa,
            run(nfa, piece(buffer, c, k)),
        )).is_none()
}

/// What the end of a scan from `c` fulfils.
spec fn settled(nfa: NfaView, buffer: Seq<u8>, c: int, end: ScanState) -> bool {
    &&& end.last_len <= end.text.len()
    &&& end.last_len <= buffer.len() - c
    &&& (end.last_len > 0) == end.last_rule.is_some()
    &&& forall|rule: int, k: int|
        end.last_len < k <= buffer.len() - c ==> !#[trigger] rule_matches(
            nfa,
            rule,
            piece(buffer, c, k),
        )
    &&& nothing_matches(nfa, buffer, c) || (end.text.subrange(0, end.last_len as int) == piece(
        buffer,
        c,
        end.last_len as int,
    ) && (end.last_len > 0 ==> end.last_rule == first_accept(
        nfa,
        run(nfa, piece(buffer, c, end.last_len as int)),
    )))
}

/// One byte more leads the automaton one step on.
proof fn lemma_run_piece(nfa: NfaView, buffer: Seq<u8>, c: int, k: int)
    requires
        0 <= c,
        0 <= k,
        c + k < buffer.len(),
    ensures
        run(nfa, piece(buffer, c, k + 1)) == advance(
            nfa,
            run(nfa, piece(buffer, c, k)),
            buffer[c + k],
        ),
{
    assert(piece(buffer, c, k + 1).drop_last() =~= piece(buffer, c, k));
}

/// Once the automaton can be in no state, no longer piece brings it back.
proof fn lemma_dead_stays(nfa: NfaView, buffer: Seq<u8>, c: int, k: int, m: int)
    requires
        0 <= c,
        0 <= k <= m,
        c + m <= buffer.len(),
        dead(run(nfa, piece(buffer, c, k))),
    ensures
        dead(run(nfa, piece(buffer, c, m))),
    decreases m - k,
{
    if k < m {
        lemma_dead_stays(nfa, buffer, c, k, m - 1);
        lemma_run_piece(nfa, buffer, c, m - 1);
        lemma_advance_dead(nfa, run(nfa, piece(buffer, c, m - 1)), buffer[c + m - 1]);
    }
}

/// A rule that matches is found by the search for the first accept state, and
/// no rule before the one that is found matches.
proof fn lemma_first_of_matching(nfa: NfaView, rule: int, text: Seq<u8>)
    requires
        rule_matches(nfa, rule, text),
    ensures
        first_accept(nfa, run(nfa, text)).is_some(),
        first_accept(nfa, run(nfa, text)).unwrap() <= rule,
        rule_matches(nfa, first_accept(nfa, run(nfa, text)).unwrap(), text),
{
    lemma_first_accept_from(nfa, run(nfa, text), 0);
}

/// The end of a scan is settled, whatever state the scan is in.
proof fn lemma_scan_settles(nfa: NfaView, buffer: Seq<u8>, c: int, st: ScanState)
    requires
        sound(buffer, c, st),
        straight(nfa, buffer, c, st) || nothing_matches(nfa, buffer, c),
    ensures
        settled(nfa, buffer, c, scan_from(nfa, buffer, st)),
    decreases buffer.len() - st.cursor,
{
    let done = st.cursor - c;
    if st.cursor >= buffer.len() {
        if !nothing_matches(nfa, buffer, c) {
            assert(st.text.subrange(0, st.last_len as int) =~= piece(buffer, c, st.last_len as int));
            assert forall|rule: int, k: int| st.last_len < k <= buffer.len() - c implies !#[trigger] rule_matches(
                nfa,
                rule,
                piece(buffer, c, k),
            ) by {
                if rule_matches(nfa, rule, piece(buffer, c, k)) {
                    lemma_first_of_matching(nfa, rule, piece(buffer, c, k));
                    assert(first_accept(nfa, run(nfa, piece(buffer, c, k))).is_none());
                }
            }
        }
    } else {
        let b = buffer[st.cursor];
        let next = advance(nfa, st.current, b);
        if nothing_matches(nfa, buffer, c) {
            if dead(next) {
                if st.last_len == 0 {
                    lemma_scan_settles(
                        nfa,
                        buffer,
                        c,
                        ScanState { cursor: st.cursor + 1, current: start_set(nfa), ..st },
                    );
                }
            } else {
                let text = st.text.push(b);
                match first_accept(nfa, next) {
                    Some(rule) => lemma_scan_settles(
                        nfa,
                        buffer,
                        c,
                        ScanState {
                            cursor: st.cursor + 1,
                            current: next,
                            text,
                            last_len: text.len(),
                            last_rule: Some(rule),
                        },
                    ),
                    None => lemma_scan_settles(
                        nfa,
                        buffer,
                        c,
                        ScanState { cursor: st.cursor + 1, current: next, text, ..st },
                    ),
                }
            }
        } else {
            lemma_run_piece(nfa, buffer, c, done);
            assert(next == run(nfa, piece(buffer, c, done + 1)));
            if dead(next) {
                assert forall|rule: int, k: int| done < k <= buffer.len() - c implies !#[trigger] rule_matches(
                    nfa,
                    rule,
                    piece(buffer, c, k),
                ) by {
                    lemma_dead_stays(nfa, buffer, c, done + 1, k);
                }
                assert forall|rule: int, k: int| st.last_len < k <= buffer.len() - c implies !#[trigger] rule_matches(
                    nfa,
                    rule,
                    piece(buffer, c, k),
                ) by {
                    if k <= done && rule_matches(nfa, rule, piece(buffer, c, k)) {
                        lemma_first_of_matching(nfa, rule, piece(buffer, c, k));
                        assert(first_accept(nfa, run(nfa, piece(buffer, c, k))).is_none());
                    }
                }
                if st.last_len > 0 {
                    assert(st.text.subrange(0, st.last_len as int) =~= piece(
                        buffer,
                        c,
                        st.last_len as int,
                    ));
                } else {
                    assert(nothing_matches(nfa, buffer, c));
                }
            } else {
                let text = st.text.push(b);
                assert(text =~= piece(buffer, c, done + 1));
                match first_accept(nfa, next) {
                    Some(rule) => {
                        let then = ScanState {
                            cursor: st.cursor + 1,
                            current: next,
                            text,
                            last_len: text.len(),
                            last_rule: Some(rule),
                        };
                        assert(straight(nfa, buffer, c, then));
                        lemma_scan_settles(nfa, buffer, c, then);
                    },
                    None => {
                        let then = ScanState {
                            cursor: st.cursor + 1,
                            current: next,
                            text,
                            ..st
                        };
                        assert(straight(nfa, buffer, c, then));
                        lemma_scan_settles(nfa, buffer, c, then);
                    },
                }
            }
        }
    }
}

/// The start of a scan is sound and straight.
proof fn lemma_beginning(nfa: NfaView, buffer: Seq<u8>, c: int)
    requires
        0 <= c <= buffer.len(),
    ensures
        sound(buffer, c, beginning(nfa, c)),
        straight(nfa, buffer, c, beginning(nfa, c)),
{
    assert(piece(buffer, c, 0) =~= Seq::<u8>::empty());
}

/// The token is the longest match: where a scan from `c` yields a token of
/// some length, no rule matches a longer piece of the buffer that starts at
/// `c`.
pub proof fn lemma_longest_match(nfa: NfaView, buffer: Seq<u8>, c: int, rule: int, k: int)
    requires
        0 <= c <= buffer.len(),
        scanned(nfa, buffer, c).text.len() < k <= buffer.len() - c,
    ensures
        !rule_matches(nfa, rule, piece(buffer, c, k)),
{
    lemma_beginning(nfa, buffer, c);
    lemma_scan_settles(nfa, buffer, c, beginning(nfa, c));
}

/// The first rule wins: where a scan from `c` yields a token with rule
/// `fired`, and rule `other` matches the piece of the buffer that starts at
/// `c` and is as long as the token, `fired` matches that piece too, the token
/// is that piece, and `fired` is not declared after `other`.
pub proof fn lemma_first_rule_wins(nfa: NfaView, buffer: Seq<u8>, c: int, fired: int, other: int)
    requires
        0 <= c <= buffer.len(),
        scanned(nfa, buffer, c).rule == Some(fired),
        rule_matches(nfa, other, piece(buffer, c, scanned(nfa, buffer, c).text.len() as int)),
    ensures
        fired <= other,
        rule_matches(nfa, fired, piece(buffer, c, scanned(nfa, buffer, c).text.len() as int)),
        scanned(nfa, buffer, c).text == piece(
            buffer,
            c,
            scanned(nfa, buffer, c).text.len() as int,
        ),
{
    lemma_beginning(nfa, buffer, c);
    lemma_scan_settles(nfa, buffer, c, beginning(nfa, c));
    let end = scan_from(nfa, buffer, beginning(nfa, c));
    let len = end.last_len as int;
    assert(scanned(nfa, buffer, c).text.len() == len);
    lemma_first_of_matching(nfa, other, piece(buffer, c, len));
}

/// Where some rule matches a piece of one byte or more at `c`, the scan from
/// `c` yields a token: the longest piece at `c` that a rule matches, with the
/// first rule that matches it, and the cursor does not stop before its end.
pub proof fn lemma_match_is_found(nfa: NfaView, buffer: Seq<u8>, c: int, rule: int, k: int)
    requires
        0 <= c <= buffer.len(),
        1 <= k <= buffer.len() - c,
        rule_matches(nfa, rule, piece(buffer, c, k)),
    ensures
        ({
            let out = scanned(nfa, buffer, c);
            &&& out.rule.is_some()
            &&& k <= out.text.len() <= out.cursor - c
            &&& out.text == piece(buffer, c, out.text.len() as int)
            &&& rule_matches(nfa, out.rule.unwrap(), out.text)
        }),
{
    lemma_beginning(nfa, buffer, c);
    lemma_scan_settles(nfa, buffer, c, beginning(nfa, c));
    lemma_cursor_after_text(nfa, buffer, c, beginning(nfa, c));
    let end = scan_from(nfa, buffer, beginning(nfa, c));
    let len = end.last_len as int;
    assert(scanned(nfa, buffer, c).text.len() == len);
    lemma_first_accept_from(nfa, run(nfa, piece(buffer, c, len)), 0);
}

/// The cursor is never before the end of what the scan has taken.
proof fn lemma_cursor_after_text(nfa: NfaView, buffer: Seq<u8>, c: int, st: ScanState)
    requires
        sound(buffer, c, st),
    ensures
        scan_from(nfa, buffer, st).last_len <= scan_from(nfa, buffer, st).text.len()
            <= scan_from(nfa, buffer, st).cursor - c,
    decreases buffer.len() - st.cursor,
{
    if st.cursor < buffer.len() {
        let next = advance(nfa, st.current, buffer[st.cursor]);
        if dead(next) {
            if st.last_len == 0 {
                lemma_cursor_after_text(
                    nfa,
                    buffer,
                    c,
                    ScanState { cursor: st.cursor + 1, current: start_set(nfa), ..st },
                );
            }
        } else {
            let text = st.text.push(buffer[st.cursor]);
            match first_accept(nfa, next) {
                Some(rule) => lemma_cursor_after_text(
                    nfa,
                    buffer,
                    c,
                    ScanState {
                        cursor: st.cursor + 1,
                        current: next,
                        text,
                        last_len: text.len(),
                        last_rule: Some(rule),
                    },
                ),
                None => lemma_cursor_after_text(
                    nfa,
                    buffer,
                    c,
                    ScanState { cursor: st.cursor + 1, current: next, text, ..st },
                ),
            }
        }
    }
}

/// The token is the longest text that a pattern denotes: where the scan of a
/// buffer from `c`, with the automaton of `patterns`, yields a token of some
/// length, no pattern denotes a longer piece of the buffer that starts at
/// `c`.
pub proof fn lemma_no_pattern_denotes_more(
    patterns: Seq<Seq<u8>>,
    buffer: Seq<u8>,
    c: int,
    i: int,
    k: int,
)
    requires
        combined(patterns, patterns.len() as int).is_ok(),
        0 <= i < patterns.len(),
        0 <= c <= buffer.len(),
        scanned(combined(patterns, patterns.len() as int).unwrap(), buffer, c).text.len() < k
            <= buffer.len() - c,
    ensures
        !denotes(parsed(patterns[i]).unwrap(), piece(buffer, c, k)),
{
    let nfa = combined(patterns, patterns.len() as int).unwrap();
    lemma_longest_match(nfa, buffer, c, i, k);
    lemma_automaton_means_patterns(patterns, i, piece(buffer, c, k));
}

/// The first pattern wins: where the scan of a buffer from `c`, with the
/// automaton of `patterns`, yields a token with rule `fired`, and pattern
/// `other` denotes the piece of the buffer that starts at `c` and is as long
/// as the token, the token is that piece, pattern `fired` denotes it too, and
/// `fired` is not declared after `other`.
pub proof fn lemma_first_pattern_wins(
    patterns: Seq<Seq<u8>>,
    buffer: Seq<u8>,
    c: int,
    fired: int,
    other: int,
)
    requires
        combined(patterns, patterns.len() as int).is_ok(),
        0 <= other < patterns.len(),
        0 <= c <= buffer.len(),
        scanned(combined(patterns, patterns.len() as int).unwrap(), buffer, c).rule == Some(
            fired,
        ),
        denotes(
            parsed(patterns[other]).unwrap(),
            piece(
                buffer,
                c,
                scanned(combined(patterns, patterns.len() as int).unwrap(), buffer, c).text.len() as int,
            ),
        ),
    ensures
        0 <= fired <= other,
        scanned(combined(patterns, patterns.len() as int).unwrap(), buffer, c).text == piece(
            buffer,
            c,
            scanned(combined(patterns, patterns.len() as int).unwrap(), buffer, c).text.len() as int,
        ),
        denotes(
            parsed(patterns[fired]).unwrap(),
            scanned(combined(patterns, patterns.len() as int).unwrap(), buffer, c).text,
        ),
{
    let nfa = combined(patterns, patterns.len() as int).unwrap();
    let token = piece(buffer, c, scanned(nfa, buffer, c).text.len() as int);
    lemma_automaton_means_patterns(patterns, other, token);
    lemma_first_rule_wins(nfa, buffer, c, fired, other);
    lemma_automaton_means_patterns(patterns, fired, token);
}

/// What a pattern denotes is found: where some pattern denotes a piece of
/// one byte or more of the buffer that starts at `c`, the scan from `c`, with
/// the automaton of `patterns`, yields a token that is a piece of the buffer
/// from `c`, at least as long, and denoted by the pattern of its rule.
pub proof fn lemma_denoted_is_found(
    patterns: Seq<Seq<u8>>,
    buffer: Seq<u8>,
    c: int,
    i: int,
    k: int,
)
    requires
        combined(patterns, patterns.len() as int).is_ok(),
        0 <= i < patterns.len(),
        0 <= c <= buffer.len(),
        1 <= k <= buffer.len() - c,
        denotes(parsed(patterns[i]).unwrap(), piece(buffer, c, k)),
    ensures
        ({
            let out = scanned(combined(patterns, patterns.len() as int).unwrap(), buffer, c);
            &&& out.rule.is_some()
            &&& 0 <= out.rule.unwrap() < patterns.len()
            &&& k <= out.text.len()
            &&& out.text == piece(buffer, c, out.text.len() as int)
            &&& denotes(parsed(patterns[out.rule.unwrap()]).unwrap(), out.text)
        }),
{
    let nfa = combined(patterns, patterns.len() as int).unwrap();
    lemma_automaton_means_patterns(patterns, i, piece(buffer, c, k));
    lemma_match_is_found(nfa, buffer, c, i, k);
    lemma_accept_states(patterns, patterns.len() as int);
    let out = scanned(nfa, buffer, c);
    lemma_automaton_means_patterns(patterns, out.rule.unwrap(), out.text);
}

} // verus!
