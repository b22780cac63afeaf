//! The automaton: numbered states, labelled edges, one start state and an
//! ordered list of accept states.
use vstd::prelude::*;

verus! {

/// The most states that an automaton may have.
pub const MAX: usize = 999;

/// What an edge asks of the input.
#[derive(Debug, PartialEq, Eq)]
pub enum Label {
    /// Nothing: the edge is taken without reading a byte.
    Epsilon,
    /// Exactly this byte.
    Char(u8),
    /// One of the listed bytes, or, where the flag is set, a byte that is not
    /// listed.
    Class(Vec<u8>, bool),
}

/// The mathematical value of a `Label`.
pub enum LabelView {
    Epsilon,
    Char(u8),
    Class(Seq<u8>, bool),
}

impl View for Label {
    type V = LabelView;

    open spec fn view(&self) -> LabelView {
        match self {
            Label::Epsilon => LabelView::Epsilon,
            Label::Char(c) => LabelView::Char(*c),
            Label::Class(bytes, negated) => LabelView::Class(bytes@, *negated),
        }
    }
}

/// An edge from one state to another.
#[derive(Debug, PartialEq, Eq)]
pub struct Edge {
    pub from: usize,
    pub label: Label,
    pub to: usize,
}

/// The mathematical value of an `Edge`.
pub struct EdgeView {
    pub from: nat,
    pub label: LabelView,
    pub to: nat,
}

impl View for Edge {
    type V = EdgeView;

    open spec fn view(&self) -> EdgeView {
        EdgeView { from: self.from as nat, label: self.label@, to: self.to as nat }
    }
}

/// The values of a list of edges.
pub open spec fn edges_view(v: Seq<Edge>) -> Seq<EdgeView> {
    Seq::new(v.len(), |i: int| v[i]@)
}

/// The states of a list, as numbers.
pub open spec fn states_view(v: Seq<usize>) -> Seq<nat> {
    Seq::new(v.len(), |i: int| v[i] as nat)
}

/// The mathematical value of an `Nfa`: the number of its states, which are 0
/// up to that number, its edges, and its accept states, the one at index `i`
/// for rule `i`. State 0 is the start state.
pub struct NfaView {
    pub states: nat,
    pub edges: Seq<EdgeView>,
    pub accepts: Seq<nat>,
}

impl NfaView {
    /// There is a start state, there are at most `MAX` states, and every edge
    /// and every accept state names a state that there is.
    pub open spec fn wf(&self) -> bool {
        &&& 1 <= self.states <= MAX
        &&& forall|k: int|
            0 <= k < self.edges.len() ==> (#[trigger] self.edges[k]).from < self.states
                && self.edges[k].to < self.states
        &&& forall|i: int| 0 <= i < self.accepts.len() ==> #[trigger] self.accepts[i] < self.states
    }
}

/// Whether an edge with label `l` is taken on reading the byte `b`.
pub open spec fn label_accepts(l: LabelView, b: u8) -> bool {
    match l {
        LabelView::Epsilon => false,
        LabelView::Char(c) => c == b,
        LabelView::Class(bytes, negated) => bytes.contains(b) != negated,
    }
}

/// An automaton for a list of patterns.
pub struct Nfa {
    pub states_count: usize,
    pub edges: Vec<Edge>,
    pub accepts: Vec<usize>,
}

impl View for Nfa {
    type V = NfaView;

    open spec fn view(&self) -> NfaView {
        NfaView {
            states: self.states_count as nat,
            edges: edges_view(self.edges@),
            accepts: states_view(self.accepts@),
        }
    }
}

impl Nfa {
    /// The automaton is well formed.
    pub open spec fn wf(&self) -> bool {
        self@.wf()
    }
}

/// Whether `bytes` holds `b`.
pub fn holds(bytes: &Vec<u8>, b: u8) -> (r: bool)
    ensures
        r == bytes@.contains(b),
{
    let mut i: usize = 0;
    while i < bytes.len()
        invariant
            i <= bytes.len(),
            forall|k: int| 0 <= k < i ==> bytes@[k] != b,
        decreases bytes.len() - i,
    {
        if bytes[i] == b {
            return true;
        }
        i += 1;
    }
    false
}

impl Label {
    /// Whether an edge with this label is taken on reading the byte `b`.
    pub fn accepts(&self, b: u8) -> (r: bool)
        ensures
            r == label_accepts(self@, b),
    {
        match self {
            Label::Epsilon => false,
            Label::Char(c) => *c == b,
            Label::Class(bytes, negated) => holds(bytes, b) != *negated,
        }
    }

    /// Whether the label is `Epsilon`.
    pub fn is_epsilon(&self) -> (r: bool)
        ensures
            r == (self@ is Epsilon),
    {
        match self {
            Label::Epsilon => true,
            _ => false,
        }
    }
}

} // verus!
