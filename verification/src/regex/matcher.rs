//! Running an automaton over input: the states reached without reading, the
//! states reached by reading one byte, and whether a whole input matches.
use vstd::prelude::*;
use crate::regex::nfa::{Nfa, NfaView, label_accepts};

verus! {

/// Whether state `t` is reached from state `s` over exactly `n` edges without
/// label.
pub open spec fn reaches(nfa: NfaView, s: nat, t: nat, n: nat) -> bool
    decreases n,
{
    if n == 0 {
        s == t
    } else {
        exists|k: int|
            0 <= k < nfa.edges.len() && (#[trigger] nfa.edges[k]).label is Epsilon && reaches(
                nfa,
                s,
                nfa.edges[k].from,
                (n - 1) as nat,
            ) && nfa.edges[k].to == t
    }
}

/// Whether state `t` is reached from a state of `set` over any number of edges
/// without label.
pub open spec fn in_closure(nfa: NfaView, set: Set<nat>, t: nat) -> bool {
    exists|s: nat, n: nat| set.contains(s) && #[trigger] reaches(nfa, s, t, n)
}

/// The states that are reached from the states of `set` without reading.
pub open spec fn closure(nfa: NfaView, set: Set<nat>) -> Set<nat> {
    Set::new(|t: nat| in_closure(nfa, set, t))
}

/// Whether state `t` is reached from a state of `set` over one edge that is
/// taken on reading `b`.
pub open spec fn in_moved(nfa: NfaView, set: Set<nat>, b: u8, t: nat) -> bool {
    exists|k: int|
        0 <= k < nfa.edges.len() && set.contains((#[trigger] nfa.edges[k]).from) && label_accepts(
            nfa.edges[k].label,
            b,
        ) && nfa.edges[k].to == t
}

/// The states that are reached from the states of `set` by reading `b`, before
/// any edge without label is taken.
pub open spec fn moved(nfa: NfaView, set: Set<nat>, b: u8) -> Set<nat> {
    Set::new(|t: nat| in_moved(nfa, set, b, t))
}

/// The states in which the automaton can be after reading `b` in one of the
/// states of `set`.
pub open spec fn advance(nfa: NfaView, set: Set<nat>, b: u8) -> Set<nat> {
    closure(nfa, moved(nfa, set, b))
}

/// The states in which the automaton can be before it has read anything.
pub open spec fn start_set(nfa: NfaView) -> Set<nat> {
    closure(nfa, set![0nat])
}

/// The states in which the automaton can be after reading `input`.
pub open spec fn run(nfa: NfaView, input: Seq<u8>) -> Set<nat>
    decreases input.len(),
{
    if input.len() == 0 {
        start_set(nfa)
    } else {
        advance(nfa, run(nfa, input.drop_last()), input.last())
    }
}

/// Whether `set` holds no state.
pub open spec fn dead(set: Set<nat>) -> bool {
    forall|t: nat| !set.contains(t)
}

/// The first accept state at or after index `i` of the list that is in `set`,
/// by its index.
pub open spec fn first_accept_from(nfa: NfaView, set: Set<nat>, i: int) -> Option<int>
    decreases nfa.accepts.len() - i,
{
    if i < 0 || i >= nfa.accepts.len() {
        None
    } else if set.contains(nfa.accepts[i]) {
        Some(i)
    } else {
        first_accept_from(nfa, set, i + 1)
    }
}

/// The index of the first accept state of the list that is in `set`: the rule
/// that fires where several could.
pub open spec fn first_accept(nfa: NfaView, set: Set<nat>) -> Option<int> {
    first_accept_from(nfa, set, 0)
}

/// Whether rule `rule` matches `text`: after reading `text` the automaton can
/// be in the accept state of the rule.
pub open spec fn rule_matches(nfa: NfaView, rule: int, text: Seq<u8>) -> bool {
    0 <= rule < nfa.accepts.len() && run(nfa, text).contains(nfa.accepts[rule])
}

/// The set of states that a list of marks stands for: those whose mark is
/// set.
pub open spec fn marked(v: Seq<bool>) -> Set<nat> {
    Set::new(|t: nat| t < v.len() && v[t as int])
}

/// The number of marks that are set.
pub open spec fn count(v: Seq<bool>) -> nat
    decreases v.len(),
{
    if v.len() == 0 {
        0
    } else {
        count(v.drop_last()) + if v.last() {
            1nat
        } else {
            0nat
        }
    }
}

proof fn lemma_count_bound(v: Seq<bool>)
    ensures
        count(v) <= v.len(),
    decreases v.len(),
{
    if v.len() > 0 {
        lemma_count_bound(v.drop_last());
    }
}

proof fn lemma_count_update(v: Seq<bool>, i: int)
    requires
        0 <= i < v.len(),
        !v[i],
    ensures
        count(v.update(i, true)) == count(v) + 1,
    decreases v.len(),
{
    let u = v.update(i, true);
    if i == v.len() - 1 {
        assert(u.drop_last() =~= v.drop_last());
    } else {
        lemma_count_update(v.drop_last(), i);
        assert(u.drop_last() =~= v.drop_last().update(i, true));
    }
}

/// `first_accept_from` finds the first accept state in `set` at or after `i`.
pub proof fn lemma_first_accept_from(nfa: NfaView, set: Set<nat>, i: int)
    requires
        0 <= i,
    ensures
        match first_accept_from(nfa, set, i) {
            Some(r) => i <= r < nfa.accepts.len() && set.contains(nfa.accepts[r]) && forall|j: int|
                i <= j < r ==> !set.contains(#[trigger] nfa.accepts[j]),
            None => forall|j: int|
                i <= j < nfa.accepts.len() ==> !set.contains(#[trigger] nfa.accepts[j]),
        },
    decreases nfa.accepts.len() - i,
{
    if i >= nfa.accepts.len() {
    } else if set.contains(nfa.accepts[i]) {
    } else {
        lemma_first_accept_from(nfa, set, i + 1);
    }
}

/// A set that holds its start points and is closed under the edges without
/// label holds everything that is reached from them.
proof fn lemma_closed_holds_reached(nfa: NfaView, set: Set<nat>, marks: Seq<bool>, s: nat, t: nat, n: nat)
    requires
        nfa.wf(),
        marks.len() == nfa.states,
        forall|x: nat| set.contains(x) && x < nfa.states ==> marks[x as int],
        forall|k: int|
            0 <= k < nfa.edges.len() && (#[trigger] nfa.edges[k]).label is Epsilon
                && marks[nfa.edges[k].from as int] ==> marks[nfa.edges[k].to as int],
        set.contains(s),
        s < nfa.states,
        reaches(nfa, s, t, n),
    ensures
        t < nfa.states && marks[t as int],
    decreases n,
{
    if n > 0 {
        let k = choose|k: int|
            0 <= k < nfa.edges.len() && (#[trigger] nfa.edges[k]).label is Epsilon && reaches(
                nfa,
                s,
                nfa.edges[k].from,
                (n - 1) as nat,
            ) && nfa.edges[k].to == t;
        lemma_closed_holds_reached(nfa, set, marks, s, nfa.edges[k].from, (n - 1) as nat);
    }
}

/// No state is reached from no state.
pub proof fn lemma_advance_dead(nfa: NfaView, set: Set<nat>, b: u8)
    requires
        dead(set),
    ensures
        dead(advance(nfa, set, b)),
{
    assert(dead(moved(nfa, set, b)));
}

/// A list of `n` marks of which none is set.
pub fn cleared(n: usize) -> (v: Vec<bool>)
    ensures
        v.len() == n,
        forall|i: int| 0 <= i < n ==> !v@[i],
        dead(marked(v@)),
{
    let mut v: Vec<bool> = Vec::new();
    while v.len() < n
        invariant
            v.len() <= n,
            forall|i: int| 0 <= i < v.len() ==> !v@[i],
        decreases n - v.len(),
    {
        v.push(false);
    }
    v
}

/// Whether no mark is set.
pub fn states_is_empty(set: &Vec<bool>) -> (r: bool)
    ensures
        r == dead(marked(set@)),
{
    let mut i: usize = 0;
    while i < set.len()
        invariant
            i <= set.len(),
            forall|k: int| 0 <= k < i ==> !set@[k],
        decreases set.len() - i,
    {
        if set[i] {
            assert(marked(set@).contains(i as nat));
            return false;
        }
        i += 1;
    }
    true
}

/// The states that are reached from the states of `set` without reading.
pub fn epsilon_closure(nfa: &Nfa, set: Vec<bool>) -> (r: Vec<bool>)
    requires
        nfa.wf(),
        set.len() == nfa@.states,
    ensures
        r.len() == nfa@.states,
        marked(r@) == closure(nfa@, marked(set@)),
{
    let ghost origin = marked(set@);
    let ghost view = nfa@;
    let n = set.len();
    let mut marks = set;
    proof {
        assert forall|t: nat| t < n && marks@[t as int] implies in_closure(view, origin, t) by {
            assert(reaches(view, t, t, 0));
        }
    }
    loop
        invariant
            nfa.wf(),
            view == nfa@,
            n == view.states,
            marks.len() == n,
            origin == marked(set@),
            forall|t: nat| t < n && marks@[t as int] ==> in_closure(view, origin, t),
            forall|t: nat| origin.contains(t) ==> t < n && marks@[t as int],
        decreases n - count(marks@),
    {
        let ghost at_start = count(marks@);
        let mut changed = false;
        let mut k: usize = 0;
        proof {
            lemma_count_bound(marks@);
        }
        while k < nfa.edges.len()
            invariant
                nfa.wf(),
                view == nfa@,
                n == view.states,
                marks.len() == n,
                k <= nfa.edges.len(),
                forall|t: nat| t < n && marks@[t as int] ==> in_closure(view, origin, t),
                forall|t: nat| origin.contains(t) ==> t < n && marks@[t as int],
                count(marks@) >= at_start,
                count(marks@) <= n,
                changed ==> count(marks@) > at_start,
                !changed ==> forall|j: int|
                    0 <= j < k && (#[trigger] view.edges[j]).label is Epsilon
                        && marks@[view.edges[j].from as int] ==> marks@[view.edges[j].to as int],
            decreases nfa.edges.len() - k,
        {
            let e = &nfa.edges[k];
            assert(e@ == view.edges[k as int]);
            if e.label.is_epsilon() && marks[e.from] && !marks[e.to] {
                proof {
                    let from = e.from as nat;
                    let to = e.to as nat;
                    let (s, m) = choose|s: nat, m: nat|
                        origin.contains(s) && #[trigger] reaches(view, s, from, m);
                    assert(reaches(view, s, to, m + 1));
                    lemma_count_update(marks@, e.to as int);
                    lemma_count_bound(marks@.update(e.to as int, true));
                }
                marks.set(e.to, true);
                changed = true;
            }
            k += 1;
        }
        if !changed {
            proof {
                assert forall|t: nat| in_closure(view, origin, t) implies t < n
                    && marks@[t as int] by {
                    let (s, m) = choose|s: nat, m: nat|
                        origin.contains(s) && #[trigger] reaches(view, s, t, m);
                    lemma_closed_holds_reached(view, origin, marks@, s, t, m);
                }
                assert(marked(marks@) =~= closure(view, origin));
            }
            return marks;
        }
    }
}

/// The states that are reached from the states of `set` by reading `b`,
/// before any edge without label is taken.
pub fn step(nfa: &Nfa, set: &Vec<bool>, b: u8) -> (r: Vec<bool>)
    requires
        nfa.wf(),
        set.len() == nfa@.states,
    ensures
        r.len() == nfa@.states,
        marked(r@) == moved(nfa@, marked(set@), b),
{
    let ghost origin = marked(set@);
    let ghost view = nfa@;
    let n = set.len();
    let mut out = cleared(n);
    let mut k: usize = 0;
    while k < nfa.edges.len()
        invariant
            nfa.wf(),
            view == nfa@,
            origin == marked(set@),
            n == view.states,
            set.len() == n,
            out.len() == n,
            k <= nfa.edges.len(),
            forall|t: nat|
                t < n ==> (out@[t as int] <==> exists|j: int|
                    0 <= j < k && origin.contains((#[trigger] view.edges[j]).from) && label_accepts(
                        view.edges[j].label,
                        b,
                    ) && view.edges[j].to == t),
        decreases nfa.edges.len() - k,
    {
        let e = &nfa.edges[k];
        assert(e@ == view.edges[k as int]);
        if set[e.from] && e.label.accepts(b) {
            out.set(e.to, true);
        }
        k += 1;
    }
    assert(marked(out@) =~= moved(view, origin, b));
    out
}

/// The states in which the automaton can be before it has read anything.
pub fn initial_states(nfa: &Nfa) -> (r: Vec<bool>)
    requires
        nfa.wf(),
    ensures
        r.len() == nfa@.states,
        marked(r@) == start_set(nfa@),
{
    let mut set = cleared(nfa.states_count);
    set.set(0, true);
    assert(marked(set@) =~= set![0nat]);
    epsilon_closure(nfa, set)
}

/// The states in which the automaton can be after reading `b` in one of the
/// states of `set`.
pub fn next_states(nfa: &Nfa, set: &Vec<bool>, b: u8) -> (r: Vec<bool>)
    requires
        nfa.wf(),
        set.len() == nfa@.states,
    ensures
        r.len() == nfa@.states,
        marked(r@) == advance(nfa@, marked(set@), b),
{
    epsilon_closure(nfa, step(nfa, set, b))
}

/// The index of the first accept state of the list that is in `set`.
pub fn get_shared_state(nfa: &Nfa, set: &Vec<bool>) -> (r: Option<usize>)
    requires
        nfa.wf(),
        set.len() == nfa@.states,
    ensures
        match r {
            Some(i) => first_accept(nfa@, marked(set@)) == Some(i as int) && i < nfa@.accepts.len(),
            None => first_accept(nfa@, marked(set@)).is_none(),
        },
{
    let ghost view = nfa@;
    let ghost states = marked(set@);
    let mut i: usize = 0;
    while i < nfa.accepts.len()
        invariant
            nfa.wf(),
            view == nfa@,
            states == marked(set@),
            set.len() == view.states,
            i <= nfa.accepts.len(),
            first_accept(view, states) == first_accept_from(view, states, i as int),
        decreases nfa.accepts.len() - i,
    {
        assert(view.accepts[i as int] == nfa.accepts@[i as int]);
        if set[nfa.accepts[i]] {
            return Some(i);
        }
        i += 1;
    }
    None
}

/// Whether some rule matches the whole of `input`.
pub fn match_full(nfa: &Nfa, input: &[u8]) -> (r: bool)
    requires
        nfa.wf(),
    ensures
        r == exists|rule: int| rule_matches(nfa@, rule, input@),
{
    let mut set = initial_states(nfa);
    let mut i: usize = 0;
    assert(input@.subrange(0, 0) =~= Seq::<u8>::empty());
    while i < input.len()
        invariant
            nfa.wf(),
            i <= input.len(),
            set.len() == nfa@.states,
            marked(set@) == run(nfa@, input@.subrange(0, i as int)),
        decreases input.len() - i,
    {
        set = next_states(nfa, &set, input[i]);
        i += 1;
        assert(input@.subrange(0, i as int).drop_last() =~= input@.subrange(0, i - 1));
    }
    assert(input@.subrange(0, i as int) =~= input@);
    let found = get_shared_state(nfa, &set);
    proof {
        lemma_first_accept_from(nfa@, marked(set@), 0);
        match found {
            Some(rule) => {
                assert(rule_matches(nfa@, rule as int, input@));
            },
            None => {},
        }
    }
    found.is_some()
}

} // verus!
