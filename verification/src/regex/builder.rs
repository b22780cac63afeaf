//! Building the automaton of a list of patterns.
//!
//! Each node of a pattern's tree gives a fragment: states numbered in a row
//! from a given first state, of which the first is the fragment's start and
//! the last is its accept state. The automaton of a list of patterns has
//! state 0 as its start, then the fragments of the patterns one after the
//! other, an edge without label from state 0 to the start of each, and the
//! accept state of each in its list of accept states.
use vstd::prelude::*;
use crate::error::Error;
use crate::bytes::append;
use crate::regex::ast::{Ast, AstView};
use crate::regex::nfa::{Edge, EdgeView, Label, LabelView, MAX, Nfa, NfaView, edges_view};
use crate::regex::correct::lemma_automaton_means_patterns;
use crate::regex::matcher::rule_matches;
use crate::regex::meaning::denotes;
use crate::regex::parser::{parse, parsed};

verus! {

/// The number of states of the fragment of `ast`.
pub open spec fn size(ast: AstView) -> nat
    decreases ast,
{
    match ast {
        AstView::Literal(_) => 2,
        AstView::Class(_, _) => 2,
        AstView::And(l, r) => (size(*l) + size(*r) - 1) as nat,
        AstView::Or(l, r) => size(*l) + size(*r) + 2,
        AstView::Repeat(r) => size(*r) + 2,
        AstView::Group(r) => size(*r),
    }
}

/// An edge without label.
pub open spec fn epsilon(from: nat, to: nat) -> EdgeView {
    EdgeView { from, label: LabelView::Epsilon, to }
}

/// The edges of the fragment of `ast` whose first state is `start`.
///
/// | node | states | edges |
/// |---|---|---|
/// | literal, class | start, accept | start to accept on the byte or class |
/// | `l` then `r` | those of `l`, then those of `r`, whose start is the accept state of `l` | those of both |
/// | `l` or `r` | start, those of `l`, those of `r`, accept | those of both; start to both starts, both accept states to accept, without label |
/// | `r` repeated | start, those of `r`, accept | those of `r`; start to the start of `r` and to accept, the accept state of `r` to its start and to accept, without label |
/// | group of `r` | those of `r` | those of `r` |
pub open spec fn fragment(ast: AstView, start: nat) -> Seq<EdgeView>
    decreases ast,
{
    match ast {
        AstView::Literal(c) => seq![
            EdgeView { from: start, label: LabelView::Char(c), to: start + 1 },
        ],
        AstView::Class(bytes, negated) => seq![
            EdgeView { from: start, label: LabelView::Class(bytes, negated), to: start + 1 },
        ],
        AstView::And(l, r) => fragment(*l, start) + fragment(
            *r,
            (start + size(*l) - 1) as nat,
        ),
        AstView::Or(l, r) => {
            let left = start + 1;
            let right = left + size(*l);
            let accept = right + size(*r);
            fragment(*l, left) + fragment(*r, right) + seq![
                epsilon(start, left),
                epsilon(start, right),
                epsilon((right - 1) as nat, accept),
                epsilon((accept - 1) as nat, accept),
            ]
        },
        AstView::Repeat(r) => {
            let body = start + 1;
            let accept = body + size(*r);
            fragment(*r, body) + seq![
                epsilon(start, body),
                epsilon(start, accept),
                epsilon((accept - 1) as nat, body),
                epsilon((accept - 1) as nat, accept),
            ]
        },
        AstView::Group(r) => fragment(*r, start),
    }
}

/// The automaton with the start state alone.
pub open spec fn start_only() -> NfaView {
    NfaView { states: 1, edges: Seq::empty(), accepts: Seq::empty() }
}

/// `nfa` with the fragment of `ast` added after its states: the edges of the
/// fragment, an edge without label from the start state to the start of the
/// fragment, and the accept state of the fragment as the last accept state.
pub open spec fn with_pattern(nfa: NfaView, ast: AstView) -> NfaView {
    NfaView {
        states: nfa.states + size(ast),
        edges: nfa.edges + fragment(ast, nfa.states) + seq![epsilon(0, nfa.states)],
        accepts: nfa.accepts.push((nfa.states + size(ast) - 1) as nat),
    }
}

/// The automaton of the first `n` patterns, or the first error on the way:
/// the syntax error of a pattern that is no expression, or `RegexOverflow`
/// where a pattern would bring the number of states over `MAX`.
pub open spec fn combined(patterns: Seq<Seq<u8>>, n: int) -> Result<NfaView, Error>
    decreases n,
{
    if n <= 0 {
        Ok(start_only())
    } else {
        match combined(patterns, n - 1) {
            Err(e) => Err(e),
            Ok(nfa) => match parsed(patterns[n - 1]) {
                Err(e) => Err(e),
                Ok(ast) => if nfa.states + size(ast) > MAX {
                    Err(Error::RegexOverflow)
                } else {
                    Ok(with_pattern(nfa, ast))
                },
            },
        }
    }
}

/// A fragment has at least two states.
pub proof fn lemma_size_at_least_two(ast: AstView)
    ensures
        size(ast) >= 2,
    decreases ast,
{
    match ast {
        AstView::Literal(_) => {},
        AstView::Class(_, _) => {},
        AstView::And(l, r) => {
            lemma_size_at_least_two(*l);
            lemma_size_at_least_two(*r);
        },
        AstView::Or(l, r) => {
            lemma_size_at_least_two(*l);
            lemma_size_at_least_two(*r);
        },
        AstView::Repeat(r) => {
            lemma_size_at_least_two(*r);
        },
        AstView::Group(r) => {
            lemma_size_at_least_two(*r);
        },
    }
}

/// The edges of a fragment stay among its states.
pub proof fn lemma_fragment_in_range(ast: AstView, start: nat)
    ensures
        forall|k: int|
            0 <= k < fragment(ast, start).len() ==> {
                let e = #[trigger] fragment(ast, start)[k];
                start <= e.from < start + size(ast) && start <= e.to < start + size(ast)
            },
    decreases ast,
{
    lemma_size_at_least_two(ast);
    match ast {
        AstView::Literal(_) => {},
        AstView::Class(_, _) => {},
        AstView::And(l, r) => {
            lemma_size_at_least_two(*l);
            lemma_size_at_least_two(*r);
            lemma_fragment_in_range(*l, start);
            lemma_fragment_in_range(*r, (start + size(*l) - 1) as nat);
        },
        AstView::Or(l, r) => {
            lemma_size_at_least_two(*l);
            lemma_size_at_least_two(*r);
            lemma_fragment_in_range(*l, start + 1);
            lemma_fragment_in_range(*r, start + 1 + size(*l));
        },
        AstView::Repeat(r) => {
            lemma_size_at_least_two(*r);
            lemma_fragment_in_range(*r, start + 1);
        },
        AstView::Group(r) => {
            lemma_fragment_in_range(*r, start);
        },
    }
}

/// Adding a pattern to a well-formed automaton gives a well-formed one,
/// provided the states stay within `MAX`.
pub proof fn lemma_with_pattern_wf(nfa: NfaView, ast: AstView)
    requires
        nfa.wf(),
        nfa.states + size(ast) <= MAX,
    ensures
        with_pattern(nfa, ast).wf(),
{
    lemma_size_at_least_two(ast);
    lemma_fragment_in_range(ast, nfa.states);
    let next = with_pattern(nfa, ast);
    assert forall|k: int| 0 <= k < next.edges.len() implies (#[trigger] next.edges[k]).from
        < next.states && next.edges[k].to < next.states by {
        if k < nfa.edges.len() {
            assert(next.edges[k] == nfa.edges[k]);
        } else if k < nfa.edges.len() + fragment(ast, nfa.states).len() {
            assert(next.edges[k] == fragment(ast, nfa.states)[k - nfa.edges.len()]);
        }
    }
    assert forall|i: int| 0 <= i < next.accepts.len() implies #[trigger] next.accepts[i]
        < next.states by {
        if i < nfa.accepts.len() {
            assert(next.accepts[i] == nfa.accepts[i]);
        }
    }
}

/// The automaton of a list of patterns is well formed, and it has exactly one
/// accept state for each pattern, in the order of the patterns: the accept
/// states are as many as the patterns, none is the start state, and each is
/// larger than the one before it.
pub proof fn lemma_accept_states(patterns: Seq<Seq<u8>>, n: int)
    requires
        0 <= n <= patterns.len(),
        combined(patterns, n).is_ok(),
    ensures
        ({
            let nfa = combined(patterns, n).unwrap();
            &&& nfa.wf()
            &&& nfa.accepts.len() == n
            &&& forall|i: int| 0 <= i < n ==> 0 < #[trigger] nfa.accepts[i] < nfa.states
            &&& forall|i: int, j: int|
                0 <= i < j < n ==> #[trigger] nfa.accepts[i] < #[trigger] nfa.accepts[j]
        }),
    decreases n,
{
    if n > 0 {
        lemma_accept_states(patterns, n - 1);
        let before = combined(patterns, n - 1).unwrap();
        let ast = parsed(patterns[n - 1]).unwrap();
        let nfa = combined(patterns, n).unwrap();
        lemma_size_at_least_two(ast);
        lemma_with_pattern_wf(before, ast);
        assert forall|i: int| 0 <= i < n implies 0 < #[trigger] nfa.accepts[i] < nfa.states by {
            if i < n - 1 {
                assert(nfa.accepts[i] == before.accepts[i]);
            }
        }
        assert forall|i: int, j: int| 0 <= i < j < n implies #[trigger] nfa.accepts[i]
            < #[trigger] nfa.accepts[j] by {
            assert(nfa.accepts[i] == before.accepts[i]);
            if j < n - 1 {
                assert(nfa.accepts[j] == before.accepts[j]);
            }
        }
    }
}

/// A fragment has fewer than twice as many edges as states.
pub proof fn lemma_fragment_edges(ast: AstView, start: nat)
    ensures
        fragment(ast, start).len() + 3 <= 2 * size(ast),
    decreases ast,
{
    lemma_size_at_least_two(ast);
    match ast {
        AstView::Literal(_) => {},
        AstView::Class(_, _) => {},
        AstView::And(l, r) => {
            lemma_size_at_least_two(*l);
            lemma_fragment_edges(*l, start);
            lemma_fragment_edges(*r, (start + size(*l) - 1) as nat);
        },
        AstView::Or(l, r) => {
            lemma_fragment_edges(*l, start + 1);
            lemma_fragment_edges(*r, start + 1 + size(*l));
        },
        AstView::Repeat(r) => {
            lemma_fragment_edges(*r, start + 1);
        },
        AstView::Group(r) => {
            lemma_fragment_edges(*r, start);
        },
    }
}

/// The automaton of a list of patterns has fewer than twice as many edges as
/// states, so fewer than twice `MAX`.
pub proof fn lemma_edges_bound(patterns: Seq<Seq<u8>>, n: int)
    requires
        0 <= n <= patterns.len(),
        combined(patterns, n).is_ok(),
    ensures
        combined(patterns, n).unwrap().edges.len() + 2 <= 2 * combined(patterns, n).unwrap().states,
        combined(patterns, n).unwrap().edges.len() < 2 * MAX,
    decreases n,
{
    lemma_accept_states(patterns, n);
    if n > 0 {
        lemma_edges_bound(patterns, n - 1);
        lemma_fragment_edges(
            parsed(patterns[n - 1]).unwrap(),
            combined(patterns, n - 1).unwrap().states,
        );
    }
}

/// The start state has an edge without label to the start of the fragment of
/// each pattern, whose states are those up to the accept state of the
/// pattern.
pub proof fn lemma_start_edges(patterns: Seq<Seq<u8>>, n: int, i: int)
    requires
        0 <= i < n <= patterns.len(),
        combined(patterns, n).is_ok(),
    ensures
        parsed(patterns[i]).is_ok(),
        combined(patterns, n).unwrap().accepts.len() == n,
        size(parsed(patterns[i]).unwrap()) <= combined(patterns, n).unwrap().accepts[i],
        combined(patterns, n).unwrap().edges.contains(
            epsilon(
                0,
                (combined(patterns, n).unwrap().accepts[i] + 1 - size(
                    parsed(patterns[i]).unwrap(),
                )) as nat,
            ),
        ),
    decreases n,
{
    lemma_accept_states(patterns, n);
    lemma_accept_states(patterns, n - 1);
    let before = combined(patterns, n - 1).unwrap();
    let ast = parsed(patterns[n - 1]).unwrap();
    let nfa = combined(patterns, n).unwrap();
    let last = nfa.edges.len() - 1;
    if i == n - 1 {
        assert(nfa.edges[last] == epsilon(0, before.states));
    } else {
        lemma_start_edges(patterns, n - 1, i);
        let e = epsilon(
            0,
            (before.accepts[i] + 1 - size(parsed(patterns[i]).unwrap())) as nat,
        );
        let k = choose|k: int| 0 <= k < before.edges.len() && before.edges[k] == e;
        assert(nfa.edges[k] == e);
        assert(nfa.accepts[i] == before.accepts[i]);
    }
}

/// Appends an edge without label.
fn push_epsilon(edges: &mut Vec<Edge>, from: usize, to: usize)
    ensures
        edges_view(final(edges)@) == edges_view(old(edges)@).push(epsilon(from as nat, to as nat)),
{
    edges.push(Edge { from, label: Label::Epsilon, to });
    assert(edges_view(edges@) =~= edges_view(old(edges)@).push(epsilon(from as nat, to as nat)));
}

/// Appends four edges without label.
fn push_four(edges: &mut Vec<Edge>, a: (usize, usize), b: (usize, usize), c: (usize, usize), d: (
    usize,
    usize,
))
    ensures
        edges_view(final(edges)@) == edges_view(old(edges)@) + seq![
            epsilon(a.0 as nat, a.1 as nat),
            epsilon(b.0 as nat, b.1 as nat),
            epsilon(c.0 as nat, c.1 as nat),
            epsilon(d.0 as nat, d.1 as nat),
        ],
{
    push_epsilon(edges, a.0, a.1);
    push_epsilon(edges, b.0, b.1);
    push_epsilon(edges, c.0, c.1);
    push_epsilon(edges, d.0, d.1);
    assert(edges_view(edges@) =~= edges_view(old(edges)@) + seq![
        epsilon(a.0 as nat, a.1 as nat),
        epsilon(b.0 as nat, b.1 as nat),
        epsilon(c.0 as nat, c.1 as nat),
        epsilon(d.0 as nat, d.1 as nat),
    ]);
}

/// Appends the edges of the fragment of `ast` whose first state is `start`.
/// Returns the number of its states, or `None` where the fragment would end
/// after state `MAX - 1`.
fn add_fragment(ast: &Ast, start: usize, edges: &mut Vec<Edge>) -> (r: Option<usize>)
    requires
        start <= MAX,
    ensures
        match r {
            Some(n) => n == size(ast@) && start + n <= MAX && edges_view(final(edges)@)
                == edges_view(old(edges)@) + fragment(ast@, start as nat),
            None => start + size(ast@) > MAX,
        },
    decreases ast,
{
    proof {
        lemma_size_at_least_two(ast@);
    }
    let ghost before = edges_view(edges@);
    match ast {
        Ast::Literal(c) => {
            if MAX - start < 2 {
                return None;
            }
            edges.push(Edge { from: start, label: Label::Char(*c), to: start + 1 });
            assert(edges_view(edges@) =~= before + fragment(ast@, start as nat));
            Some(2)
        },
        Ast::Class(bytes, negated) => {
            if MAX - start < 2 {
                return None;
            }
            let mut copy: Vec<u8> = Vec::new();
            append(&mut copy, bytes.as_slice());
            assert(copy@ =~= bytes@);
            edges.push(Edge { from: start, label: Label::Class(copy, *negated), to: start + 1 });
            assert(edges_view(edges@) =~= before + fragment(ast@, start as nat));
            Some(2)
        },
        Ast::And(l, r) => {
            proof {
                lemma_size_at_least_two(l@);
                lemma_size_at_least_two(r@);
            }
            let left = match add_fragment(l, start, edges) {
                Some(n) => n,
                None => {
                    return None;
                },
            };
            let right = match add_fragment(r, start + left - 1, edges) {
                Some(n) => n,
                None => {
                    return None;
                },
            };
            assert(edges_view(edges@) =~= before + fragment(ast@, start as nat));
            Some(left + right - 1)
        },
        Ast::Or(l, r) => {
            proof {
                lemma_size_at_least_two(l@);
                lemma_size_at_least_two(r@);
            }
            if start >= MAX {
                return None;
            }
            let left_start = start + 1;
            let left = match add_fragment(l, left_start, edges) {
                Some(n) => n,
                None => {
                    return None;
                },
            };
            let right_start = left_start + left;
            let right = match add_fragment(r, right_start, edges) {
                Some(n) => n,
                None => {
                    return None;
                },
            };
            let accept = right_start + right;
            if accept >= MAX {
                return None;
            }
            push_four(
                edges,
                (start, left_start),
                (start, right_start),
                (right_start - 1, accept),
                (accept - 1, accept),
            );
            assert(edges_view(edges@) =~= before + fragment(ast@, start as nat));
            Some(left + right + 2)
        },
        Ast::Repeat(r) => {
            proof {
                lemma_size_at_least_two(r@);
            }
            if start >= MAX {
                return None;
            }
            let body_start = start + 1;
            let body = match add_fragment(r, body_start, edges) {
                Some(n) => n,
                None => {
                    return None;
                },
            };
            let accept = body_start + body;
            if accept >= MAX {
                return None;
            }
            push_four(
                edges,
                (start, body_start),
                (start, accept),
                (accept - 1, body_start),
                (accept - 1, accept),
            );
            assert(edges_view(edges@) =~= before + fragment(ast@, start as nat));
            Some(body + 2)
        },
        Ast::Group(r) => add_fragment(r, start, edges),
    }
}

/// Builds the automaton of `patterns`: state 0 is its start state, and its
/// accept state with index `i` is that of pattern `i`, so that rule `i`
/// matches exactly the texts that pattern `i` denotes.
///
/// Fails with the syntax error of the first pattern that is no expression, or
/// with `RegexOverflow` at the first pattern that would bring the number of
/// states over `MAX`, whichever comes first in the order of the patterns.
pub fn build_many(patterns: &[Vec<u8>]) -> (r: Result<Nfa, Error>)
    ensures
        match r {
            Ok(nfa) => combined(patterns_view(patterns@), patterns@.len() as int) == Ok::<
                _,
                Error,
            >(nfa@) && nfa.wf() && nfa@.accepts.len() == patterns@.len() && forall|
                i: int,
                w: Seq<u8>,
            |
                0 <= i < patterns@.len() ==> #[trigger] rule_matches(nfa@, i, w) == denotes(
                    parsed(patterns@[i]@).unwrap(),
                    w,
                ),
            Err(e) => combined(patterns_view(patterns@), patterns@.len() as int) == Err::<
                NfaView,
                _,
            >(e),
        },
{
    let ghost ps = patterns_view(patterns@);
    let mut nfa = Nfa { states_count: 1, edges: Vec::new(), accepts: Vec::new() };
    assert(nfa@.edges =~= Seq::empty());
    assert(nfa@.accepts =~= Seq::empty());
    let mut i: usize = 0;
    while i < patterns.len()
        invariant
            i <= patterns.len(),
            ps == patterns_view(patterns@),
            combined(ps, i as int) == Ok::<_, Error>(nfa@),
            nfa.wf(),
        decreases patterns.len() - i,
    {
        assert(ps[i as int] == patterns@[i as int]@);
        let ast = match parse(patterns[i].as_slice()) {
            Ok(ast) => ast,
            Err(e) => {
                proof {
                    lemma_error_stays(ps, i as int + 1, patterns@.len() as int);
                }
                return Err(e);
            },
        };
        let ghost before = nfa@;
        let start = nfa.states_count;
        let n = match add_fragment(&ast, start, &mut nfa.edges) {
            Some(n) => n,
            None => {
                proof {
                    lemma_error_stays(ps, i as int + 1, patterns@.len() as int);
                }
                return Err(Error::RegexOverflow);
            },
        };
        push_epsilon(&mut nfa.edges, 0, start);
        nfa.accepts.push(start + n - 1);
        nfa.states_count = start + n;
        proof {
            lemma_size_at_least_two(ast@);
            lemma_with_pattern_wf(before, ast@);
            assert(nfa@.edges =~= with_pattern(before, ast@).edges);
            assert(nfa@.accepts =~= with_pattern(before, ast@).accepts);
        }
        i += 1;
    }
    proof {
        lemma_accept_states(ps, patterns@.len() as int);
        assert forall|i: int, w: Seq<u8>| 0 <= i < patterns@.len() implies #[trigger] rule_matches(
            nfa@,
            i,
            w,
        ) == denotes(parsed(patterns@[i]@).unwrap(), w) by {
            lemma_automaton_means_patterns(ps, i, w);
            assert(ps[i] == patterns@[i]@);
        }
    }
    Ok(nfa)
}

/// The values of a list of patterns.
pub open spec fn patterns_view(v: Seq<Vec<u8>>) -> Seq<Seq<u8>> {
    Seq::new(v.len(), |i: int| v[i]@)
}

/// Once the first `n` patterns give an error, every longer list of them gives
/// the same error.
pub proof fn lemma_error_stays(patterns: Seq<Seq<u8>>, n: int, m: int)
    requires
        0 <= n <= m,
        combined(patterns, n).is_err(),
    ensures
        combined(patterns, m) == combined(patterns, n),
    decreases m - n,
{
    if n < m {
        lemma_error_stays(patterns, n, m - 1);
    }
}

} // verus!
