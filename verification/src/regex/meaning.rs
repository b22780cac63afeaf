//! What a pattern means, and that the automaton means the same: a rule
//! matches a text exactly where the tree of its pattern denotes the text.
use vstd::prelude::*;
use crate::regex::ast::AstView;
use crate::regex::builder::{fragment, lemma_size_at_least_two, size};
use crate::regex::nfa::{EdgeView, label_accepts};

verus! {

/// Whether the expression `ast` denotes the text `w`.
///
/// A literal denotes its byte; a class denotes each byte that it lists, or,
/// negated, each that it does not list; `l` then `r` denotes a text of `l`
/// followed by a text of `r`; `l` or `r` denotes the texts of both; a
/// repetition denotes the empty text and every text of the repetition
/// followed by a text of its body that is not empty; a group denotes what its
/// content denotes.
pub open spec fn denotes(ast: AstView, w: Seq<u8>) -> bool
    decreases ast, w.len(),
{
    match ast {
        AstView::Literal(c) => w == seq![c],
        AstView::Class(bytes, negated) => w.len() == 1 && (bytes.contains(w[0]) != negated),
        AstView::And(l, r) => exists|k: int|
            #![trigger w.subrange(0, k)]
            0 <= k <= w.len() && denotes(*l, w.subrange(0, k)) && denotes(
                *r,
                w.subrange(k, w.len() as int),
            ),
        AstView::Or(l, r) => denotes(*l, w) || denotes(*r, w),
        AstView::Repeat(r) => w.len() == 0 || exists|k: int|
            #![trigger w.subrange(0, k)]
            0 <= k < w.len() && denotes(ast, w.subrange(0, k)) && denotes(
                *r,
                w.subrange(k, w.len() as int),
            ),
        AstView::Group(r) => denotes(*r, w),
    }
}

/// A text of a repetition followed by a text of its body is a text of the
/// repetition.
pub proof fn lemma_repeat_once_more(body: AstView, w: Seq<u8>, k: int)
    requires
        0 <= k <= w.len(),
        denotes(AstView::Repeat(Box::new(body)), w.subrange(0, k)),
        denotes(body, w.subrange(k, w.len() as int)),
    ensures
        denotes(AstView::Repeat(Box::new(body)), w),
{
    if k == w.len() {
        assert(w.subrange(0, k) =~= w);
    }
}

/// Whether the edges `es` lead from state `s` to state `t` in `n` steps that
/// read the text `w`: each step follows one edge, which reads nothing where it
/// has no label and else reads one byte that its label accepts.
pub open spec fn walk(es: Seq<EdgeView>, s: nat, t: nat, w: Seq<u8>, n: nat) -> bool
    decreases n,
{
    if n == 0 {
        s == t && w.len() == 0
    } else {
        exists|k: int|
            0 <= k < es.len() && (#[trigger] es[k]).to == t && ((es[k].label is Epsilon && walk(
                es,
                s,
                es[k].from,
                w,
                (n - 1) as nat,
            )) || (w.len() > 0 && label_accepts(es[k].label, w.last()) && walk(
                es,
                s,
                es[k].from,
                w.drop_last(),
                (n - 1) as nat,
            )))
    }
}

/// The accept state of the fragment of `ast` whose first state is `start`.
pub open spec fn accept_of(ast: AstView, start: nat) -> nat {
    (start + size(ast) - 1) as nat
}

/// A walk goes on over one more edge without label.
pub proof fn lemma_walk_epsilon(es: Seq<EdgeView>, s: nat, w: Seq<u8>, n: nat, k: int)
    requires
        0 <= k < es.len(),
        es[k].label is Epsilon,
        walk(es, s, es[k].from, w, n),
    ensures
        walk(es, s, es[k].to, w, n + 1),
{
}

/// A walk goes on over one more edge that reads a byte.
pub proof fn lemma_walk_byte(es: Seq<EdgeView>, s: nat, w: Seq<u8>, n: nat, k: int, b: u8)
    requires
        0 <= k < es.len(),
        label_accepts(es[k].label, b),
        walk(es, s, es[k].from, w, n),
    ensures
        walk(es, s, es[k].to, w.push(b), n + 1),
{
    assert(w.push(b).drop_last() =~= w);
}

/// A walk over some edges is a walk over any edges that hold them all.
pub proof fn lemma_walk_mono(
    es: Seq<EdgeView>,
    more: Seq<EdgeView>,
    s: nat,
    t: nat,
    w: Seq<u8>,
    n: nat,
)
    requires
        forall|k: int| 0 <= k < es.len() ==> more.contains(#[trigger] es[k]),
        walk(es, s, t, w, n),
    ensures
        walk(more, s, t, w, n),
    decreases n,
{
    if n > 0 {
        let k = choose|k: int|
            0 <= k < es.len() && (#[trigger] es[k]).to == t && ((es[k].label is Epsilon && walk(
                es,
                s,
                es[k].from,
                w,
                (n - 1) as nat,
            )) || (w.len() > 0 && label_accepts(es[k].label, w.last()) && walk(
                es,
                s,
                es[k].from,
                w.drop_last(),
                (n - 1) as nat,
            )));
        assert(more.contains(es[k]));
        let j = choose|j: int| 0 <= j < more.len() && more[j] == es[k];
        if es[k].label is Epsilon {
            lemma_walk_mono(es, more, s, es[k].from, w, (n - 1) as nat);
        } else {
            lemma_walk_mono(es, more, s, es[k].from, w.drop_last(), (n - 1) as nat);
        }
        assert(more[j].to == t);
    }
}

/// Two walks, the second from where the first ends, make one walk.
pub proof fn lemma_walk_concat(
    es: Seq<EdgeView>,
    s: nat,
    m: nat,
    t: nat,
    w1: Seq<u8>,
    n1: nat,
    w2: Seq<u8>,
    n2: nat,
)
    requires
        walk(es, s, m, w1, n1),
        walk(es, m, t, w2, n2),
    ensures
        walk(es, s, t, w1 + w2, n1 + n2),
    decreases n2,
{
    if n2 == 0 {
        assert(w1 + w2 =~= w1);
    } else {
        let k = choose|k: int|
            0 <= k < es.len() && (#[trigger] es[k]).to == t && ((es[k].label is Epsilon && walk(
                es,
                m,
                es[k].from,
                w2,
                (n2 - 1) as nat,
            )) || (w2.len() > 0 && label_accepts(es[k].label, w2.last()) && walk(
                es,
                m,
                es[k].from,
                w2.drop_last(),
                (n2 - 1) as nat,
            )));
        if es[k].label is Epsilon {
            lemma_walk_concat(es, s, m, es[k].from, w1, n1, w2, (n2 - 1) as nat);
        } else {
            lemma_walk_concat(es, s, m, es[k].from, w1, n1, w2.drop_last(), (n2 - 1) as nat);
            assert((w1 + w2).drop_last() =~= w1 + w2.drop_last());
        }
    }
}

/// Where no edge enters the state at which a walk begins, a walk that ends
/// there again has taken no step.
pub proof fn lemma_walk_home(es: Seq<EdgeView>, s: nat, w: Seq<u8>, n: nat)
    requires
        forall|k: int| 0 <= k < es.len() ==> (#[trigger] es[k]).to != s,
        walk(es, s, s, w, n),
    ensures
        n == 0,
        w.len() == 0,
{
}

/// In a fragment every edge leaves a state that is not the accept state and
/// enters a state that is not the start state, both among its states.
pub proof fn lemma_fragment_shape(ast: AstView, start: nat)
    ensures
        forall|k: int|
            0 <= k < fragment(ast, start).len() ==> {
                let e = #[trigger] fragment(ast, start)[k];
                start <= e.from < accept_of(ast, start) && start < e.to <= accept_of(ast, start)
            },
    decreases ast,
{
    lemma_size_at_least_two(ast);
    match ast {
        AstView::Literal(_) => {},
        AstView::Class(_, _) => {},
        AstView::And(l, r) => {
            lemma_size_at_least_two(*l);
            lemma_size_at_least_two(*r);
            lemma_fragment_shape(*l, start);
            lemma_fragment_shape(*r, (start + size(*l) - 1) as nat);
        },
        AstView::Or(l, r) => {
            lemma_size_at_least_two(*l);
            lemma_size_at_least_two(*r);
            lemma_fragment_shape(*l, start + 1);
            lemma_fragment_shape(*r, start + 1 + size(*l));
        },
        AstView::Repeat(r) => {
            lemma_size_at_least_two(*r);
            lemma_fragment_shape(*r, start + 1);
        },
        AstView::Group(r) => {
            lemma_fragment_shape(*r, start);
        },
    }
}

} // verus!
