//! A fragment means what its expression means: the walks through the fragment
//! of an expression, from its start state to its accept state, read exactly
//! the texts that the expression denotes.
use vstd::prelude::*;
use crate::regex::ast::AstView;
use crate::regex::builder::{epsilon, fragment, lemma_size_at_least_two, size};
use crate::regex::meaning::{
    accept_of, denotes, lemma_fragment_shape, lemma_repeat_once_more, lemma_walk_concat,
    lemma_walk_epsilon, lemma_walk_home, lemma_walk_mono, walk,
};
use crate::regex::nfa::{EdgeView, label_accepts};

verus! {

/// The last edge of a walk of at least one step.
pub proof fn last_edge(es: Seq<EdgeView>, s: nat, t: nat, w: Seq<u8>, n: nat) -> (k: int)
    requires
        n > 0,
        walk(es, s, t, w, n),
    ensures
        0 <= k < es.len(),
        es[k].to == t,
        (es[k].label is Epsilon && walk(es, s, es[k].from, w, (n - 1) as nat)) || (w.len() > 0
            && label_accepts(es[k].label, w.last()) && walk(
            es,
            s,
            es[k].from,
            w.drop_last(),
            (n - 1) as nat,
        )),
{
    choose|k: int|
        0 <= k < es.len() && (#[trigger] es[k]).to == t && ((es[k].label is Epsilon && walk(
            es,
            s,
            es[k].from,
            w,
            (n - 1) as nat,
        )) || (w.len() > 0 && label_accepts(es[k].label, w.last()) && walk(
            es,
            s,
            es[k].from,
            w.drop_last(),
            (n - 1) as nat,
        )))
}

/// The text that a walk had read before its last edge.
pub open spec fn before_last(label_is_epsilon: bool, w: Seq<u8>) -> Seq<u8> {
    if label_is_epsilon {
        w
    } else {
        w.drop_last()
    }
}

/// A walk that is cut in two at `k` goes on over one more edge in its second
/// part.
proof fn lemma_extend_second(
    es: Seq<EdgeView>,
    j: int,
    m: nat,
    w: Seq<u8>,
    k: int,
    n: nat,
)
    requires
        0 <= j < es.len(),
        es[j].label is Epsilon || (w.len() > 0 && label_accepts(es[j].label, w.last())),
        0 <= k <= before_last(es[j].label is Epsilon, w).len(),
        walk(
            es,
            m,
            es[j].from,
            before_last(es[j].label is Epsilon, w).subrange(
                k,
                before_last(es[j].label is Epsilon, w).len() as int,
            ),
            n,
        ),
    ensures
        walk(es, m, es[j].to, w.subrange(k, w.len() as int), n + 1),
        before_last(es[j].label is Epsilon, w).subrange(0, k) == w.subrange(0, k),
{
    let v = before_last(es[j].label is Epsilon, w);
    assert(v.subrange(0, k) =~= w.subrange(0, k));
    if !(es[j].label is Epsilon) {
        let tail = w.subrange(k, w.len() as int);
        assert(tail.drop_last() =~= v.subrange(k, v.len() as int));
        assert(tail.last() == w.last());
    }
}

/// A walk through the fragment of `l` followed by `r` stays in the part of
/// `l` up to the state that both share, and after it is a walk through `l` to
/// that state followed by a walk through `r`. Returns where the text is cut
/// and the lengths of the two walks.
proof fn lemma_and_split(
    l: AstView,
    r: AstView,
    start: nat,
    t: nat,
    w: Seq<u8>,
    n: nat,
) -> (cut: (int, nat, nat))
    requires
        walk(fragment(l, start) + fragment(r, accept_of(l, start)), start, t, w, n),
    ensures
        t <= accept_of(l, start) ==> walk(fragment(l, start), start, t, w, n),
        t > accept_of(l, start) ==> 0 <= cut.0 <= w.len() && walk(
            fragment(l, start),
            start,
            accept_of(l, start),
            w.subrange(0, cut.0),
            cut.1,
        ) && walk(
            fragment(r, accept_of(l, start)),
            accept_of(l, start),
            t,
            w.subrange(cut.0, w.len() as int),
            cut.2,
        ),
    decreases n,
{
    let m = accept_of(l, start);
    let el = fragment(l, start);
    let er = fragment(r, m);
    let es = el + er;
    lemma_size_at_least_two(l);
    lemma_size_at_least_two(r);
    lemma_fragment_shape(l, start);
    lemma_fragment_shape(r, m);
    if n == 0 {
        return (0, 0, 0);
    }
    let k = last_edge(es, start, t, w, n);
    let eps = es[k].label is Epsilon;
    let v = before_last(eps, w);
    let u = es[k].from;
    let inner = lemma_and_split(l, r, start, u, v, (n - 1) as nat);
    if k < el.len() {
        assert(es[k] == el[k]);
        assert(walk(el, start, u, v, (n - 1) as nat));
        assert(walk(el, start, t, w, n));
        (0, 0, 0)
    } else {
        let j = k - el.len();
        assert(es[k] == er[j]);
        if u == m {
            assert(v.subrange(v.len() as int, v.len() as int) =~= Seq::<u8>::empty());
            assert(walk(er, m, m, v.subrange(v.len() as int, v.len() as int), 0));
            lemma_extend_second(er, j, m, w, v.len() as int, 0);
            assert(v.subrange(0, v.len() as int) =~= v);
            (v.len() as int, (n - 1) as nat, 1)
        } else {
            lemma_extend_second(er, j, m, w, inner.0, inner.2);
            (inner.0, inner.1, inner.2 + 1)
        }
    }
}

/// A walk from the start of the fragment of `l` or `r` to a state of one of
/// the two begins with the edge to the start of that one and is a walk
/// through it from there on.
proof fn lemma_or_inner(l: AstView, r: AstView, start: nat, t: nat, w: Seq<u8>, n: nat)
    requires
        walk(fragment(AstView::Or(Box::new(l), Box::new(r)), start), start, t, w, n),
        start < t < accept_of(AstView::Or(Box::new(l), Box::new(r)), start),
    ensures
        n >= 1,
        t <= accept_of(l, start + 1) ==> walk(
            fragment(l, start + 1),
            start + 1,
            t,
            w,
            (n - 1) as nat,
        ),
        t > accept_of(l, start + 1) ==> walk(
            fragment(r, start + 1 + size(l)),
            start + 1 + size(l),
            t,
            w,
            (n - 1) as nat,
        ),
    decreases n,
{
    let whole = AstView::Or(Box::new(l), Box::new(r));
    let ls = start + 1;
    let rs = ls + size(l);
    let a = rs + size(r);
    let el = fragment(l, ls);
    let er = fragment(r, rs);
    let es = fragment(whole, start);
    lemma_size_at_least_two(l);
    lemma_size_at_least_two(r);
    lemma_fragment_shape(l, ls);
    lemma_fragment_shape(r, rs);
    lemma_fragment_shape(whole, start);
    assert(es =~= el + er + seq![
        epsilon(start, ls),
        epsilon(start, rs),
        epsilon((rs - 1) as nat, a),
        epsilon((a - 1) as nat, a),
    ]);
    if n == 0 {
        return ;
    }
    let k = last_edge(es, start, t, w, n);
    let eps = es[k].label is Epsilon;
    let v = before_last(eps, w);
    let u = es[k].from;
    if k < el.len() {
        assert(es[k] == el[k]);
        lemma_or_inner(l, r, start, u, v, (n - 1) as nat);
        assert(walk(el, ls, t, w, (n - 1) as nat));
    } else if k < el.len() + er.len() {
        let j = k - el.len();
        assert(es[k] == er[j]);
        lemma_or_inner(l, r, start, u, v, (n - 1) as nat);
        assert(walk(er, rs, t, w, (n - 1) as nat));
    } else {
        // one of the four edges without label; those that enter `t` leave
        // the start state
        assert(u == start);
        lemma_walk_home(es, start, v, (n - 1) as nat);
    }
}

/// A walk from the start of the fragment of a repetition to a state of its
/// body has read a text of the repetition and then walks through the body.
/// Returns where the text is cut and the length of the walk after the cut.
proof fn lemma_repeat_inner(body: AstView, start: nat, t: nat, w: Seq<u8>, n: nat) -> (cut: (
    int,
    nat,
))
    requires
        walk(fragment(AstView::Repeat(Box::new(body)), start), start, t, w, n),
        start < t < accept_of(AstView::Repeat(Box::new(body)), start),
    ensures
        0 <= cut.0 <= w.len(),
        denotes(AstView::Repeat(Box::new(body)), w.subrange(0, cut.0)),
        walk(fragment(body, start + 1), start + 1, t, w.subrange(cut.0, w.len() as int), cut.1),
    decreases body, n + 1,
{
    let whole = AstView::Repeat(Box::new(body));
    let bs = start + 1;
    let a = bs + size(body);
    let ba = (a - 1) as nat;
    let eb = fragment(body, bs);
    let es = fragment(whole, start);
    lemma_size_at_least_two(body);
    lemma_fragment_shape(body, bs);
    lemma_fragment_shape(whole, start);
    assert(es =~= eb + seq![
        epsilon(start, bs),
        epsilon(start, a),
        epsilon(ba, bs),
        epsilon(ba, a),
    ]);
    if n == 0 {
        return (0, 0);
    }
    let k = last_edge(es, start, t, w, n);
    let eps = es[k].label is Epsilon;
    let v = before_last(eps, w);
    let u = es[k].from;
    if k < eb.len() {
        assert(es[k] == eb[k]);
        let inner = lemma_repeat_inner(body, start, u, v, (n - 1) as nat);
        lemma_extend_second(eb, k, bs, w, inner.0, inner.1);
        (inner.0, inner.1 + 1)
    } else if u == start {
        lemma_walk_home(es, start, v, (n - 1) as nat);
        assert(w.subrange(0, 0) =~= Seq::<u8>::empty());
        assert(w.subrange(0, w.len() as int) =~= Seq::<u8>::empty());
        (0, 0)
    } else {
        // the edge from the accept state of the body back to its start
        assert(u == ba && t == bs);
        let inner = lemma_repeat_inner(body, start, ba, w, (n - 1) as nat);
        lemma_fragment_sound(body, bs, w.subrange(inner.0, w.len() as int), inner.1);
        lemma_repeat_once_more(body, w, inner.0);
        assert(w.subrange(0, w.len() as int) =~= w);
        assert(w.subrange(w.len() as int, w.len() as int) =~= Seq::<u8>::empty());
        (w.len() as int, 0)
    }
}

/// The text that a walk through the fragment of an expression reads, from the
/// start state to the accept state, is denoted by the expression.
pub proof fn lemma_fragment_sound(ast: AstView, start: nat, w: Seq<u8>, n: nat)
    requires
        walk(fragment(ast, start), start, accept_of(ast, start), w, n),
    ensures
        denotes(ast, w),
    decreases ast, 0nat,
{
    let es = fragment(ast, start);
    let a = accept_of(ast, start);
    lemma_size_at_least_two(ast);
    lemma_fragment_shape(ast, start);
    match ast {
        AstView::Literal(c) => {
            let k = last_edge(es, start, a, w, n);
            lemma_walk_home(es, start, w.drop_last(), (n - 1) as nat);
            assert(w =~= seq![c]);
            assert(denotes(ast, w));
        },
        AstView::Class(bytes, negated) => {
            let k = last_edge(es, start, a, w, n);
            lemma_walk_home(es, start, w.drop_last(), (n - 1) as nat);
            assert(w.len() == 1);
            assert(w.last() == w[0]);
            assert(denotes(ast, w));
        },
        AstView::And(l, r) => {
            lemma_size_at_least_two(*l);
            lemma_size_at_least_two(*r);
            let cut = lemma_and_split(*l, *r, start, a, w, n);
            lemma_fragment_sound(*l, start, w.subrange(0, cut.0), cut.1);
            lemma_fragment_sound(*r, accept_of(*l, start), w.subrange(cut.0, w.len() as int), cut.2);
            assert(denotes(ast, w));
        },
        AstView::Or(l, r) => {
            lemma_size_at_least_two(*l);
            lemma_size_at_least_two(*r);
            let ls = start + 1;
            let rs = ls + size(*l);
            let el = fragment(*l, ls);
            let er = fragment(*r, rs);
            lemma_fragment_shape(*l, ls);
            lemma_fragment_shape(*r, rs);
            assert(es =~= el + er + seq![
                epsilon(start, ls),
                epsilon(start, rs),
                epsilon((rs - 1) as nat, a),
                epsilon((a - 1) as nat, a),
            ]);
            let k = last_edge(es, start, a, w, n);
            if k < el.len() {
                assert(es[k] == el[k]);
            } else if k < el.len() + er.len() {
                assert(es[k] == er[k - el.len()]);
            } else {
                let u = es[k].from;
                lemma_or_inner(*l, *r, start, u, w, (n - 1) as nat);
                if u == rs - 1 {
                    lemma_fragment_sound(*l, ls, w, (n - 2) as nat);
                } else {
                    lemma_fragment_sound(*r, rs, w, (n - 2) as nat);
                }
            }
            assert(denotes(ast, w));
        },
        AstView::Repeat(body) => {
            lemma_size_at_least_two(*body);
            let bs = start + 1;
            let ba = (a - 1) as nat;
            let eb = fragment(*body, bs);
            lemma_fragment_shape(*body, bs);
            assert(es =~= eb + seq![
                epsilon(start, bs),
                epsilon(start, a),
                epsilon(ba, bs),
                epsilon(ba, a),
            ]);
            let k = last_edge(es, start, a, w, n);
            if k < eb.len() {
                assert(es[k] == eb[k]);
            } else if es[k].from == start {
                lemma_walk_home(es, start, w, (n - 1) as nat);
            } else {
                let cut = lemma_repeat_inner(*body, start, ba, w, (n - 1) as nat);
                lemma_fragment_sound(*body, bs, w.subrange(cut.0, w.len() as int), cut.1);
                lemma_repeat_once_more(*body, w, cut.0);
            }
            assert(denotes(ast, w));
        },
        AstView::Group(r) => {
            lemma_fragment_sound(*r, start, w, n);
            assert(denotes(ast, w));
        },
    }
}

/// Every edge of the first list is in the two lists put together, and so is
/// every edge of the second.
proof fn lemma_parts_are_held(first: Seq<EdgeView>, second: Seq<EdgeView>)
    ensures
        forall|k: int| 0 <= k < first.len() ==> (first + second).contains(#[trigger] first[k]),
        forall|k: int| 0 <= k < second.len() ==> (first + second).contains(#[trigger] second[k]),
{
    assert forall|k: int| 0 <= k < first.len() implies (first + second).contains(
        #[trigger] first[k],
    ) by {
        assert((first + second)[k] == first[k]);
    }
    assert forall|k: int| 0 <= k < second.len() implies (first + second).contains(
        #[trigger] second[k],
    ) by {
        assert((first + second)[first.len() + k] == second[k]);
    }
}

/// A text of a repetition is read by a walk from the start of its fragment to
/// the start of its body. Returns the length of the walk.
proof fn lemma_repeat_walk(body: AstView, start: nat, w: Seq<u8>) -> (n: nat)
    requires
        denotes(AstView::Repeat(Box::new(body)), w),
    ensures
        walk(fragment(AstView::Repeat(Box::new(body)), start), start, start + 1, w, n),
    decreases body, w.len() + 1,
{
    let whole = AstView::Repeat(Box::new(body));
    let bs = start + 1;
    let a = bs + size(body);
    let ba = (a - 1) as nat;
    let eb = fragment(body, bs);
    let tail = seq![epsilon(start, bs), epsilon(start, a), epsilon(ba, bs), epsilon(ba, a)];
    let es = fragment(whole, start);
    lemma_size_at_least_two(body);
    assert(es =~= eb + tail);
    lemma_parts_are_held(eb, tail);
    let i = eb.len() as int;
    assert(es[i] == epsilon(start, bs));
    assert(es[i + 2] == epsilon(ba, bs));
    if w.len() == 0 {
        assert(walk(es, start, start, w, 0));
        lemma_walk_epsilon(es, start, w, 0, i);
        1
    } else {
        let k = choose|k: int|
            #![trigger w.subrange(0, k)]
            0 <= k < w.len() && denotes(whole, w.subrange(0, k)) && denotes(
                body,
                w.subrange(k, w.len() as int),
            );
        let first = w.subrange(0, k);
        let second = w.subrange(k, w.len() as int);
        assert(first + second =~= w);
        let n1 = lemma_repeat_walk(body, start, first);
        let n2 = lemma_fragment_complete(body, bs, second);
        lemma_walk_mono(eb, es, bs, ba, second, n2);
        lemma_walk_concat(es, start, bs, ba, first, n1, second, n2);
        lemma_walk_epsilon(es, start, w, n1 + n2, i + 2);
        n1 + n2 + 1
    }
}

/// Every text that an expression denotes is read by a walk through its
/// fragment from the start state to the accept state. Returns the length of
/// such a walk.
pub proof fn lemma_fragment_complete(ast: AstView, start: nat, w: Seq<u8>) -> (n: nat)
    requires
        denotes(ast, w),
    ensures
        walk(fragment(ast, start), start, accept_of(ast, start), w, n),
    decreases ast, 0nat,
{
    let es = fragment(ast, start);
    let a = accept_of(ast, start);
    lemma_size_at_least_two(ast);
    match ast {
        AstView::Literal(c) => {
            assert(w.drop_last() =~= Seq::<u8>::empty());
            assert(walk(es, start, start, w.drop_last(), 0));
            assert(es[0].to == a);
            1
        },
        AstView::Class(bytes, negated) => {
            assert(w.drop_last() =~= Seq::<u8>::empty());
            assert(walk(es, start, start, w.drop_last(), 0));
            assert(es[0].to == a);
            1
        },
        AstView::And(l, r) => {
            lemma_size_at_least_two(*l);
            lemma_size_at_least_two(*r);
            let k = choose|k: int|
                #![trigger w.subrange(0, k)]
                0 <= k <= w.len() && denotes(*l, w.subrange(0, k)) && denotes(
                    *r,
                    w.subrange(k, w.len() as int),
                );
            let m = accept_of(*l, start);
            let el = fragment(*l, start);
            let er = fragment(*r, m);
            let first = w.subrange(0, k);
            let second = w.subrange(k, w.len() as int);
            assert(first + second =~= w);
            let n1 = lemma_fragment_complete(*l, start, first);
            let n2 = lemma_fragment_complete(*r, m, second);
            lemma_parts_are_held(el, er);
            lemma_walk_mono(el, es, start, m, first, n1);
            lemma_walk_mono(er, es, m, a, second, n2);
            lemma_walk_concat(es, start, m, a, first, n1, second, n2);
            n1 + n2
        },
        AstView::Or(l, r) => {
            lemma_size_at_least_two(*l);
            lemma_size_at_least_two(*r);
            let ls = start + 1;
            let rs = ls + size(*l);
            let el = fragment(*l, ls);
            let er = fragment(*r, rs);
            let tail = seq![
                epsilon(start, ls),
                epsilon(start, rs),
                epsilon((rs - 1) as nat, a),
                epsilon((a - 1) as nat, a),
            ];
            assert(es =~= el + er + tail);
            lemma_parts_are_held(el, er);
            lemma_parts_are_held(el + er, tail);
            let i = (el.len() + er.len()) as int;
            let none = Seq::<u8>::empty();
            assert(none + w =~= w);
            assert(walk(es, start, start, none, 0));
            if denotes(*l, w) {
                let n1 = lemma_fragment_complete(*l, ls, w);
                assert forall|k: int| 0 <= k < el.len() implies es.contains(#[trigger] el[k]) by {
                    assert((el + er).contains(el[k]));
                    assert(es[k] == el[k]);
                }
                lemma_walk_mono(el, es, ls, (rs - 1) as nat, w, n1);
                assert(es[i] == epsilon(start, ls));
                lemma_walk_epsilon(es, start, none, 0, i);
                lemma_walk_concat(es, start, ls, (rs - 1) as nat, none, 1, w, n1);
                assert(es[i + 2] == epsilon((rs - 1) as nat, a));
                lemma_walk_epsilon(es, start, w, 1 + n1, i + 2);
                n1 + 2
            } else {
                let n1 = lemma_fragment_complete(*r, rs, w);
                assert forall|k: int| 0 <= k < er.len() implies es.contains(#[trigger] er[k]) by {
                    assert(es[el.len() + k] == er[k]);
                }
                lemma_walk_mono(er, es, rs, (a - 1) as nat, w, n1);
                assert(es[i + 1] == epsilon(start, rs));
                lemma_walk_epsilon(es, start, none, 0, i + 1);
                lemma_walk_concat(es, start, rs, (a - 1) as nat, none, 1, w, n1);
                assert(es[i + 3] == epsilon((a - 1) as nat, a));
                lemma_walk_epsilon(es, start, w, 1 + n1, i + 3);
                n1 + 2
            }
        },
        AstView::Repeat(body) => {
            lemma_size_at_least_two(*body);
            let bs = start + 1;
            let ba = (a - 1) as nat;
            let eb = fragment(*body, bs);
            let tail = seq![epsilon(start, bs), epsilon(start, a), epsilon(ba, bs), epsilon(ba, a)];
            assert(es =~= eb + tail);
            let i = eb.len() as int;
            lemma_parts_are_held(eb, tail);
            if w.len() == 0 {
                assert(walk(es, start, start, w, 0));
                assert(es[i + 1] == epsilon(start, a));
                lemma_walk_epsilon(es, start, w, 0, i + 1);
                1
            } else {
                let k = choose|k: int|
                    #![trigger w.subrange(0, k)]
                    0 <= k < w.len() && denotes(ast, w.subrange(0, k)) && denotes(
                        *body,
                        w.subrange(k, w.len() as int),
                    );
                let first = w.subrange(0, k);
                let second = w.subrange(k, w.len() as int);
                assert(first + second =~= w);
                let n1 = lemma_repeat_walk(*body, start, first);
                let n2 = lemma_fragment_complete(*body, bs, second);
                lemma_walk_mono(eb, es, bs, ba, second, n2);
                lemma_walk_concat(es, start, bs, ba, first, n1, second, n2);
                assert(es[i + 3] == epsilon(ba, a));
                lemma_walk_epsilon(es, start, w, n1 + n2, i + 3);
                n1 + n2 + 1
            }
        },
        AstView::Group(r) => lemma_fragment_complete(*r, start, w),
    }
}

} // verus!
