//! Textual expansion of macro references in rule patterns.
//!
//! A reference is the name of a declared macro between `{` and `}`. One round
//! reads a pattern from left to right and replaces each reference it meets by
//! the macro's definition; text that a replacement brought in is read in the
//! next round. Rounds are repeated until no reference is left, but there is a
//! limit: no more rounds are made than there are macros. A pattern that still
//! holds a reference then is not expanded; `expand` has no value for it.
//!
//! The limit leaves room for every chain of macros of which each refers to
//! the next: such a chain is expanded in as many rounds as it has macros.
//! Macros that refer to each other in a circle always reach the limit. So
//! does, now and then, a pattern without any circle, where the text of a
//! definition and the text after it make up a new reference in round after
//! round: with the one macro `a` defined as `{`, the pattern `{a}a}` would be
//! done after two rounds and is given up after one.
//!
//! A name in braces that no macro has is no reference: it stays as it is.
use vstd::prelude::*;
use crate::ast::definition::{DefinitionPairNode, MacroView, macros_view};
use crate::bytes::{append, occurs, occurs_at};
use crate::lexer::scan::{CLOSE_BRACE, OPEN_BRACE};

verus! {

/// The text that refers to the macro `name`: `{`, the name, `}`.
pub open spec fn reference(name: Seq<u8>) -> Seq<u8> {
    seq![OPEN_BRACE] + name + seq![CLOSE_BRACE]
}

/// Whether a reference to macro `i` stands at `p` in `text`.
pub open spec fn refers_at(text: Seq<u8>, p: int, macros: Seq<MacroView>, i: int) -> bool {
    0 <= i < macros.len() && occurs_at(text, p, reference(macros[i].name))
}

/// Whether `text` holds a reference to one of `macros` anywhere.
pub open spec fn has_reference(text: Seq<u8>, macros: Seq<MacroView>) -> bool {
    exists|p: int, i: int| refers_at(text, p, macros, i)
}

/// The first macro at or after index `i`, in the order of declaration, to
/// which `text` refers at `p`.
pub open spec fn macro_from(text: Seq<u8>, p: int, macros: Seq<MacroView>, i: int) -> Option<int>
    decreases macros.len() - i,
{
    if i < 0 || i >= macros.len() {
        None
    } else if refers_at(text, p, macros, i) {
        Some(i)
    } else {
        macro_from(text, p, macros, i + 1)
    }
}

/// The first macro, in the order of declaration, to which `text` refers at
/// `p`.
pub open spec fn macro_at(text: Seq<u8>, p: int, macros: Seq<MacroView>) -> Option<int> {
    macro_from(text, p, macros, 0)
}

/// One round of expansion over the part of `text` from `p` on.
pub open spec fn expand_from(text: Seq<u8>, p: int, macros: Seq<MacroView>) -> Seq<u8>
    decreases text.len() - p,
{
    if p < 0 || p >= text.len() {
        Seq::empty()
    } else {
        match macro_at(text, p, macros) {
            Some(i) if refers_at(text, p, macros, i) => macros[i].definition + expand_from(
                text,
                p + reference(macros[i].name).len(),
                macros,
            ),
            _ => seq![text[p]] + expand_from(text, p + 1, macros),
        }
    }
}

/// One round of expansion over `text`.
pub open spec fn expand_once(text: Seq<u8>, macros: Seq<MacroView>) -> Seq<u8> {
    expand_from(text, 0, macros)
}

/// `text` after the rounds that remove all references, provided `rounds`
/// rounds are enough; `None` where they are not.
pub open spec fn expand_rounds(text: Seq<u8>, macros: Seq<MacroView>, rounds: nat) -> Option<
    Seq<u8>,
>
    decreases rounds,
{
    if !has_reference(text, macros) {
        Some(text)
    } else if rounds == 0 {
        None
    } else {
        expand_rounds(expand_once(text, macros), macros, (rounds - 1) as nat)
    }
}

/// The most rounds of expansion that are made with `macros`: as many as
/// there are macros.
pub open spec fn round_limit(macros: Seq<MacroView>) -> nat {
    macros.len()
}

/// The expansion of `text`: rounds are repeated until no reference is left,
/// at most `round_limit(macros)` of them. `None` where a reference is left
/// after that many rounds, whether more rounds would remove it or not.
pub open spec fn expand(text: Seq<u8>, macros: Seq<MacroView>) -> Option<Seq<u8>> {
    expand_rounds(text, macros, round_limit(macros))
}

/// `macro_from` finds a macro exactly where a reference to one at or after
/// `i` stands at `p`, and then it is the first such.
pub proof fn lemma_macro_from(text: Seq<u8>, p: int, macros: Seq<MacroView>, i: int)
    requires
        0 <= i,
    ensures
        match macro_from(text, p, macros, i) {
            Some(k) => i <= k && refers_at(text, p, macros, k) && forall|j: int|
                i <= j < k ==> !refers_at(text, p, macros, j),
            None => forall|j: int| i <= j ==> !refers_at(text, p, macros, j),
        },
    decreases macros.len() - i,
{
    if i >= macros.len() {
    } else if refers_at(text, p, macros, i) {
    } else {
        lemma_macro_from(text, p, macros, i + 1);
    }
}

/// A round leaves a text without references as it is.
pub proof fn lemma_expand_from_without_reference(text: Seq<u8>, p: int, macros: Seq<MacroView>)
    requires
        !has_reference(text, macros),
        0 <= p <= text.len(),
    ensures
        expand_from(text, p, macros) == text.subrange(p, text.len() as int),
    decreases text.len() - p,
{
    if p < text.len() {
        lemma_macro_from(text, p, macros, 0);
        match macro_at(text, p, macros) {
            Some(i) => {
                assert(refers_at(text, p, macros, i));
            },
            None => {
                lemma_expand_from_without_reference(text, p + 1, macros);
                assert(seq![text[p]] + text.subrange(p + 1, text.len() as int) =~= text.subrange(
                    p,
                    text.len() as int,
                ));
            },
        }
    } else {
        assert(text.subrange(p, text.len() as int) =~= Seq::<u8>::empty());
    }
}

/// What expansion yields holds no reference to a declared macro, and
/// expanding it again changes nothing: neither one more round nor a whole
/// expansion.
pub proof fn lemma_expansion_is_fixpoint(text: Seq<u8>, macros: Seq<MacroView>)
    requires
        expand(text, macros).is_some(),
    ensures
        ({
            let done = expand(text, macros).unwrap();
            &&& forall|p: int, i: int|
                0 <= i < macros.len() ==> !#[trigger] occurs_at(done, p, reference(macros[i].name))
            &&& expand_once(done, macros) == done
            &&& expand(done, macros) == Some(done)
        }),
{
    lemma_expand_rounds_fixpoint(text, macros, macros.len());
    let done = expand(text, macros).unwrap();
    lemma_expand_from_without_reference(done, 0, macros);
    assert(done.subrange(0, done.len() as int) =~= done);
    assert forall|p: int, i: int| 0 <= i < macros.len() implies !#[trigger] occurs_at(
        done,
        p,
        reference(macros[i].name),
    ) by {
        if occurs_at(done, p, reference(macros[i].name)) {
            assert(refers_at(done, p, macros, i));
        }
    }
}

/// What any number of rounds yields holds no reference.
pub proof fn lemma_expand_rounds_fixpoint(text: Seq<u8>, macros: Seq<MacroView>, rounds: nat)
    requires
        expand_rounds(text, macros, rounds).is_some(),
    ensures
        !has_reference(expand_rounds(text, macros, rounds).unwrap(), macros),
    decreases rounds,
{
    if !has_reference(text, macros) {
    } else if rounds == 0 {
    } else {
        lemma_expand_rounds_fixpoint(expand_once(text, macros), macros, (rounds - 1) as nat);
    }
}

/// Whether a reference to `name` stands at `p` in `text`.
fn refers(text: &[u8], p: usize, name: &[u8]) -> (r: bool)
    requires
        p < text.len(),
    ensures
        r == occurs_at(text@, p as int, reference(name@)),
        r ==> p + name.len() + 2 <= text.len(),
{
    let n = name.len();
    let len = text.len();
    if len - p < 2 || n > len - p - 2 {
        return false;
    }
    let r = text[p] == OPEN_BRACE && occurs(text, p + 1, name) && text[p + 1 + n] == CLOSE_BRACE;
    proof {
        let whole = text@.subrange(p as int, p + n + 2);
        let part = text@.subrange(p + 1, p + 1 + n);
        if r {
            assert(whole =~= reference(name@)) by {
                assert forall|k: int| 0 <= k < n + 2 implies whole[k] == reference(name@)[k] by {
                    if 1 <= k <= n {
                        assert(part[k - 1] == text@[p + k]);
                    }
                }
            }
        } else if occurs_at(text@, p as int, reference(name@)) {
            assert(whole[0] == text@[p as int]);
            assert(whole[n + 1] == text@[p + 1 + n]);
            assert(part =~= name@) by {
                assert forall|k: int| 0 <= k < n implies part[k] == name@[k] by {
                    assert(whole[k + 1] == text@[p + 1 + k]);
                }
            }
        }
    }
    r
}

/// The first macro to which `text` refers at `p`.
fn find_macro(text: &[u8], p: usize, macros: &[DefinitionPairNode<'_>]) -> (r: Option<usize>)
    requires
        p < text.len(),
    ensures
        match r {
            Some(i) => macro_at(text@, p as int, macros_view(macros@)) == Some(i as int) && i
                < macros.len() && p + macros[i as int].name@.len() + 2 <= text.len(),
            None => macro_at(text@, p as int, macros_view(macros@)).is_none(),
        },
{
    let ghost ms = macros_view(macros@);
    let mut i: usize = 0;
    while i < macros.len()
        invariant
            i <= macros.len(),
            p < text.len(),
            ms == macros_view(macros@),
            macro_at(text@, p as int, ms) == macro_from(text@, p as int, ms, i as int),
        decreases macros.len() - i,
    {
        if refers(text, p, macros[i].name) {
            return Some(i);
        }
        i += 1;
    }
    None
}

/// One round of expansion over `text`. Returns the new text, and whether
/// `text` held a reference.
fn expand_pass(text: &[u8], macros: &[DefinitionPairNode<'_>]) -> (r: (Vec<u8>, bool))
    ensures
        r.0@ == expand_once(text@, macros_view(macros@)),
        r.1 == has_reference(text@, macros_view(macros@)),
{
    let ghost ms = macros_view(macros@);
    let mut out: Vec<u8> = Vec::new();
    let mut replaced = false;
    let mut p: usize = 0;
    while p < text.len()
        invariant
            p <= text.len(),
            ms == macros_view(macros@),
            expand_once(text@, ms) == out@ + expand_from(text@, p as int, ms),
            replaced ==> has_reference(text@, ms),
            !replaced ==> forall|q: int, i: int| 0 <= q < p ==> !refers_at(text@, q, ms, i),
        decreases text.len() - p,
    {
        proof {
            lemma_macro_from(text@, p as int, ms, 0);
        }
        match find_macro(text, p, macros) {
            Some(i) => {
                let ghost before = out@;
                append(&mut out, macros[i].definition);
                assert(refers_at(text@, p as int, ms, i as int));
                assert(reference(ms[i as int].name).len() == ms[i as int].name.len() + 2);
                assert(before + (ms[i as int].definition + expand_from(
                    text@,
                    p + ms[i as int].name.len() + 2,
                    ms,
                )) =~= out@ + expand_from(text@, p + ms[i as int].name.len() + 2, ms));
                replaced = true;
                p = p + macros[i].name.len() + 2;
            },
            None => {
                let ghost before = out@;
                out.push(text[p]);
                assert(before + (seq![text@[p as int]] + expand_from(text@, p + 1, ms)) =~= out@
                    + expand_from(text@, p + 1, ms));
                p += 1;
            },
        }
    }
    proof {
        assert(out@ + Seq::<u8>::empty() =~= out@);
        if !replaced {
            assert forall|q: int, i: int| !refers_at(text@, q, ms, i) by {
                if refers_at(text@, q, ms, i) {
                    assert(reference(ms[i].name).len() >= 2);
                }
            }
        }
    }
    (out, replaced)
}

/// Expands the macro references in `pattern`.
///
/// Returns the text without any reference to a macro of `macros`, or `None`
/// where a reference is left after the most rounds that are made, which are
/// as many as there are macros.
pub fn expand_pattern(pattern: &[u8], macros: &[DefinitionPairNode<'_>]) -> (r: Option<Vec<u8>>)
    ensures
        match r {
            Some(text) => expand(pattern@, macros_view(macros@)) == Some(text@),
            None => expand(pattern@, macros_view(macros@)).is_none(),
        },
{
    let ghost ms = macros_view(macros@);
    let mut text: Vec<u8> = Vec::new();
    append(&mut text, pattern);
    assert(text@ =~= pattern@);
    let mut left: usize = macros.len();
    loop
        invariant
            ms == macros_view(macros@),
            left <= macros.len(),
            expand(pattern@, ms) == expand_rounds(text@, ms, left as nat),
        decreases left,
    {
        let (next, replaced) = expand_pass(text.as_slice(), macros);
        if !replaced {
            return Some(text);
        }
        if left == 0 {
            return None;
        }
        text = next;
        left -= 1;
    }
}

} // verus!
