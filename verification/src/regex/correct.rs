//! The automaton of a list of patterns is correct: rule `i` matches a text
//! exactly where pattern `i` denotes it.
use vstd::prelude::*;
use crate::regex::ast::AstView;
use crate::regex::builder::{
    combined, epsilon, fragment, lemma_accept_states, lemma_size_at_least_two, with_pattern,
};
use crate::regex::matcher::{in_closure, in_moved, moved, reaches, rule_matches, run};
use crate::regex::meaning::{
    accept_of, denotes, lemma_fragment_shape, lemma_walk_byte, lemma_walk_concat,
    lemma_walk_epsilon, lemma_walk_home, lemma_walk_mono, walk,
};
use crate::regex::nfa::{NfaView, label_accepts};
use crate::regex::parser::parsed;
use crate::regex::thompson::{before_last, last_edge, lemma_fragment_complete, lemma_fragment_sound};

verus! {

/// Reaching a state over edges without label is walking there without
/// reading.
proof fn lemma_reaches_is_walk(nfa: NfaView, s: nat, t: nat, n: nat)
    ensures
        reaches(nfa, s, t, n) == walk(nfa.edges, s, t, Seq::<u8>::empty(), n),
    decreases n,
{
    let none = Seq::<u8>::empty();
    if n > 0 {
        if reaches(nfa, s, t, n) {
            let k = choose|k: int|
                0 <= k < nfa.edges.len() && (#[trigger] nfa.edges[k]).label is Epsilon && reaches(
                    nfa,
                    s,
                    nfa.edges[k].from,
                    (n - 1) as nat,
                ) && nfa.edges[k].to == t;
            lemma_reaches_is_walk(nfa, s, nfa.edges[k].from, (n - 1) as nat);
            assert(walk(nfa.edges, s, t, none, n));
        }
        if walk(nfa.edges, s, t, none, n) {
            let k = last_edge(nfa.edges, s, t, none, n);
            lemma_reaches_is_walk(nfa, s, nfa.edges[k].from, (n - 1) as nat);
            assert(reaches(nfa, s, t, n));
        }
    }
}

/// Every state in which the automaton can be after reading `w` is reached by
/// a walk from the start state that reads `w`. Returns the length of such a
/// walk.
pub proof fn lemma_run_to_walk(nfa: NfaView, w: Seq<u8>, t: nat) -> (n: nat)
    requires
        run(nfa, w).contains(t),
    ensures
        walk(nfa.edges, 0, t, w, n),
    decreases w.len(),
{
    let none = Seq::<u8>::empty();
    if w.len() == 0 {
        let (s, m) = choose|s: nat, m: nat| set![0nat].contains(s) && #[trigger] reaches(nfa, s, t, m);
        lemma_reaches_is_walk(nfa, 0, t, m);
        assert(w =~= none);
        m
    } else {
        let before = w.drop_last();
        let b = w.last();
        let from = moved(nfa, run(nfa, before), b);
        let (u, m) = choose|u: nat, m: nat| from.contains(u) && #[trigger] reaches(nfa, u, t, m);
        let k = choose|k: int|
            0 <= k < nfa.edges.len() && run(nfa, before).contains((#[trigger] nfa.edges[k]).from)
                && label_accepts(nfa.edges[k].label, b) && nfa.edges[k].to == u;
        let n1 = lemma_run_to_walk(nfa, before, nfa.edges[k].from);
        lemma_walk_byte(nfa.edges, 0, before, n1, k, b);
        assert(before.push(b) =~= w);
        lemma_reaches_is_walk(nfa, u, t, m);
        lemma_walk_concat(nfa.edges, 0, u, t, w, n1 + 1, none, m);
        assert(w + none =~= w);
        n1 + 1 + m
    }
}

/// The end of every walk from the start state that reads `w` is a state in
/// which the automaton can be after reading `w`.
pub proof fn lemma_walk_to_run(nfa: NfaView, w: Seq<u8>, t: nat, n: nat)
    requires
        walk(nfa.edges, 0, t, w, n),
    ensures
        run(nfa, w).contains(t),
    decreases w.len(), n,
{
    if w.len() == 0 {
        assert(w =~= Seq::<u8>::empty());
        lemma_reaches_is_walk(nfa, 0, t, n);
        assert(set![0nat].contains(0nat));
        assert(in_closure(nfa, set![0nat], t));
    } else {
        let before = w.drop_last();
        let b = w.last();
        let from = moved(nfa, run(nfa, before), b);
        let k = last_edge(nfa.edges, 0, t, w, n);
        if nfa.edges[k].label is Epsilon {
            lemma_walk_to_run(nfa, w, nfa.edges[k].from, (n - 1) as nat);
            let (u, m) = choose|u: nat, m: nat|
                from.contains(u) && #[trigger] reaches(nfa, u, nfa.edges[k].from, m);
            assert(reaches(nfa, u, t, m + 1));
            assert(in_closure(nfa, from, t));
        } else {
            lemma_walk_to_run(nfa, before, nfa.edges[k].from, (n - 1) as nat);
            assert(in_moved(nfa, run(nfa, before), b, t));
            assert(reaches(nfa, t, t, 0));
            assert(in_closure(nfa, from, t));
        }
    }
}

/// Whether the first `n` patterns give an automaton.
pub open spec fn builds(patterns: Seq<Seq<u8>>, n: int) -> bool {
    0 <= n <= patterns.len() && combined(patterns, n).is_ok()
}

/// The automaton of the first `n` patterns.
pub open spec fn automaton(patterns: Seq<Seq<u8>>, n: int) -> NfaView {
    combined(patterns, n).unwrap()
}

/// The tree of pattern `i`.
pub open spec fn tree(patterns: Seq<Seq<u8>>, i: int) -> AstView {
    parsed(patterns[i]).unwrap()
}

/// Where the first `n` patterns give an automaton, so do fewer, each pattern
/// has a tree, and the automaton of `n` patterns is that of `n - 1` with the
/// last pattern added.
proof fn lemma_builds_step(patterns: Seq<Seq<u8>>, n: int)
    requires
        builds(patterns, n),
        n >= 1,
    ensures
        builds(patterns, n - 1),
        parsed(patterns[n - 1]).is_ok(),
        automaton(patterns, n) == with_pattern(automaton(patterns, n - 1), tree(patterns, n - 1)),
        automaton(patterns, n - 1).wf(),
        automaton(patterns, n).wf(),
        automaton(patterns, n - 1).accepts.len() == n - 1,
{
    lemma_accept_states(patterns, n - 1);
    lemma_accept_states(patterns, n);
}

/// No edge of the automaton enters the start state.
proof fn lemma_no_edge_home(patterns: Seq<Seq<u8>>, n: int)
    requires
        builds(patterns, n),
    ensures
        forall|k: int|
            0 <= k < automaton(patterns, n).edges.len() ==> (#[trigger] automaton(
                patterns,
                n,
            ).edges[k]).to != 0,
    decreases n,
{
    if n >= 1 {
        lemma_builds_step(patterns, n);
        lemma_no_edge_home(patterns, n - 1);
        let prev = automaton(patterns, n - 1);
        let ast = tree(patterns, n - 1);
        let es = automaton(patterns, n).edges;
        lemma_fragment_shape(ast, prev.states);
        assert forall|k: int| 0 <= k < es.len() implies (#[trigger] es[k]).to != 0 by {
            if k < prev.edges.len() {
                assert(es[k] == prev.edges[k]);
            } else if k < prev.edges.len() + fragment(ast, prev.states).len() {
                assert(es[k] == fragment(ast, prev.states)[k - prev.edges.len()]);
            }
        }
    }
}

/// A walk from the start state to a state of the automaton of the patterns
/// before the last is a walk in that automaton.
proof fn lemma_low_walk(patterns: Seq<Seq<u8>>, n: int, t: nat, w: Seq<u8>, m: nat)
    requires
        builds(patterns, n),
        n >= 1,
        walk(automaton(patterns, n).edges, 0, t, w, m),
        t < automaton(patterns, n - 1).states,
    ensures
        walk(automaton(patterns, n - 1).edges, 0, t, w, m),
    decreases m,
{
    lemma_builds_step(patterns, n);
    let prev = automaton(patterns, n - 1);
    let ast = tree(patterns, n - 1);
    let es = automaton(patterns, n).edges;
    lemma_fragment_shape(ast, prev.states);
    if m > 0 {
        let k = last_edge(es, 0, t, w, m);
        if k < prev.edges.len() {
            assert(es[k] == prev.edges[k]);
            lemma_low_walk(
                patterns,
                n,
                es[k].from,
                before_last(es[k].label is Epsilon, w),
                (m - 1) as nat,
            );
            assert(walk(prev.edges, 0, t, w, m));
        } else if k < prev.edges.len() + fragment(ast, prev.states).len() {
            assert(es[k] == fragment(ast, prev.states)[k - prev.edges.len()]);
        }
    }
}

/// A walk from the start state to a state of the fragment of the last pattern
/// begins with the edge to the start of the fragment and is a walk through
/// the fragment from there on.
proof fn lemma_new_walk(patterns: Seq<Seq<u8>>, n: int, t: nat, w: Seq<u8>, m: nat)
    requires
        builds(patterns, n),
        n >= 1,
        walk(automaton(patterns, n).edges, 0, t, w, m),
        t >= automaton(patterns, n - 1).states,
    ensures
        m >= 1,
        walk(
            fragment(tree(patterns, n - 1), automaton(patterns, n - 1).states),
            automaton(patterns, n - 1).states,
            t,
            w,
            (m - 1) as nat,
        ),
    decreases m,
{
    lemma_builds_step(patterns, n);
    lemma_no_edge_home(patterns, n);
    let prev = automaton(patterns, n - 1);
    let ast = tree(patterns, n - 1);
    let es = automaton(patterns, n).edges;
    let frag = fragment(ast, prev.states);
    lemma_fragment_shape(ast, prev.states);
    if m > 0 {
        let k = last_edge(es, 0, t, w, m);
        let v = before_last(es[k].label is Epsilon, w);
        if k < prev.edges.len() {
            assert(es[k] == prev.edges[k]);
        } else if k < prev.edges.len() + frag.len() {
            let j = k - prev.edges.len();
            assert(es[k] == frag[j]);
            lemma_new_walk(patterns, n, es[k].from, v, (m - 1) as nat);
            assert(walk(frag, prev.states, t, w, (m - 1) as nat));
        } else {
            assert(es[k] == epsilon(0, prev.states));
            lemma_walk_home(es, 0, v, (m - 1) as nat);
        }
    }
}

/// The text that a walk from the start state to the accept state of rule `i`
/// reads is denoted by pattern `i`.
proof fn lemma_rule_sound(patterns: Seq<Seq<u8>>, n: int, i: int, w: Seq<u8>, m: nat)
    requires
        builds(patterns, n),
        0 <= i < n,
        walk(automaton(patterns, n).edges, 0, automaton(patterns, n).accepts[i], w, m),
    ensures
        parsed(patterns[i]).is_ok(),
        denotes(tree(patterns, i), w),
    decreases n,
{
    lemma_builds_step(patterns, n);
    lemma_accept_states(patterns, n);
    lemma_accept_states(patterns, n - 1);
    let prev = automaton(patterns, n - 1);
    let ast = tree(patterns, n - 1);
    lemma_size_at_least_two(ast);
    if i == n - 1 {
        lemma_new_walk(patterns, n, automaton(patterns, n).accepts[i], w, m);
        lemma_fragment_sound(ast, prev.states, w, (m - 1) as nat);
    } else {
        assert(automaton(patterns, n).accepts[i] == prev.accepts[i]);
        lemma_low_walk(patterns, n, prev.accepts[i], w, m);
        lemma_rule_sound(patterns, n - 1, i, w, m);
    }
}

/// Every text that pattern `i` denotes is read by a walk from the start state
/// to the accept state of rule `i`. Returns the length of such a walk.
proof fn lemma_rule_complete(patterns: Seq<Seq<u8>>, n: int, i: int, w: Seq<u8>) -> (m: nat)
    requires
        builds(patterns, n),
        0 <= i < n,
        parsed(patterns[i]).is_ok(),
        denotes(tree(patterns, i), w),
    ensures
        walk(automaton(patterns, n).edges, 0, automaton(patterns, n).accepts[i], w, m),
    decreases n,
{
    lemma_builds_step(patterns, n);
    lemma_accept_states(patterns, n - 1);
    let prev = automaton(patterns, n - 1);
    let ast = tree(patterns, n - 1);
    let es = automaton(patterns, n).edges;
    let frag = fragment(ast, prev.states);
    let none = Seq::<u8>::empty();
    if i == n - 1 {
        let m1 = lemma_fragment_complete(ast, prev.states, w);
        assert forall|k: int| 0 <= k < frag.len() implies es.contains(#[trigger] frag[k]) by {
            assert(es[prev.edges.len() + k] == frag[k]);
        }
        lemma_walk_mono(frag, es, prev.states, accept_of(ast, prev.states), w, m1);
        let last = (prev.edges.len() + frag.len()) as int;
        assert(es[last] == epsilon(0, prev.states));
        assert(walk(es, 0, 0, none, 0));
        lemma_walk_epsilon(es, 0, none, 0, last);
        lemma_walk_concat(es, 0, prev.states, accept_of(ast, prev.states), none, 1, w, m1);
        assert(none + w =~= w);
        m1 + 1
    } else {
        let m1 = lemma_rule_complete(patterns, n - 1, i, w);
        assert forall|k: int| 0 <= k < prev.edges.len() implies es.contains(
            #[trigger] prev.edges[k],
        ) by {
            assert(es[k] == prev.edges[k]);
        }
        lemma_walk_mono(prev.edges, es, 0, prev.accepts[i], w, m1);
        assert(automaton(patterns, n).accepts[i] == prev.accepts[i]);
        m1
    }
}

/// The automaton means what the patterns mean: in the automaton of a list of
/// patterns, rule `i` matches a text exactly where the tree of pattern `i`
/// denotes the text.
pub proof fn lemma_automaton_means_patterns(patterns: Seq<Seq<u8>>, i: int, w: Seq<u8>)
    requires
        combined(patterns, patterns.len() as int).is_ok(),
        0 <= i < patterns.len(),
    ensures
        parsed(patterns[i]).is_ok(),
        rule_matches(combined(patterns, patterns.len() as int).unwrap(), i, w) == denotes(
            parsed(patterns[i]).unwrap(),
            w,
        ),
{
    let n = patterns.len() as int;
    let nfa = automaton(patterns, n);
    lemma_accept_states(patterns, n);
    lemma_trees(patterns, n, i);
    if rule_matches(nfa, i, w) {
        let m = lemma_run_to_walk(nfa, w, nfa.accepts[i]);
        lemma_rule_sound(patterns, n, i, w, m);
    }
    if denotes(tree(patterns, i), w) {
        let m = lemma_rule_complete(patterns, n, i, w);
        lemma_walk_to_run(nfa, w, nfa.accepts[i], m);
    }
}

/// Where the first `n` patterns give an automaton, each of them has a tree.
proof fn lemma_trees(patterns: Seq<Seq<u8>>, n: int, i: int)
    requires
        builds(patterns, n),
        0 <= i < n,
    ensures
        parsed(patterns[i]).is_ok(),
    decreases n,
{
    lemma_builds_step(patterns, n);
    if i < n - 1 {
        lemma_trees(patterns, n - 1, i);
    }
}

} // verus!
