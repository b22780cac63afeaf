//! The tree of a regular expression.
use vstd::prelude::*;
use crate::bytes::append;

verus! {

/// A regular expression over bytes.
#[derive(Debug, PartialEq, Eq)]
pub enum Ast {
    /// Exactly this byte.
    Literal(u8),
    /// One byte of the listed ones, or, where the flag is set, one byte that
    /// is not listed.
    Class(Vec<u8>, bool),
    /// The first, then the second.
    And(Box<Ast>, Box<Ast>),
    /// The first or the second.
    Or(Box<Ast>, Box<Ast>),
    /// Zero or more times.
    Repeat(Box<Ast>),
    /// A parenthesized expression; it matches what its content matches.
    Group(Box<Ast>),
}

/// The mathematical value of an `Ast`.
pub enum AstView {
    Literal(u8),
    Class(Seq<u8>, bool),
    And(Box<AstView>, Box<AstView>),
    Or(Box<AstView>, Box<AstView>),
    Repeat(Box<AstView>),
    Group(Box<AstView>),
}

impl View for Ast {
    type V = AstView;

    open spec fn view(&self) -> AstView
        decreases self,
    {
        match self {
            Ast::Literal(c) => AstView::Literal(*c),
            Ast::Class(bytes, negated) => AstView::Class(bytes@, *negated),
            Ast::And(l, r) => AstView::And(Box::new((**l).view()), Box::new((**r).view())),
            Ast::Or(l, r) => AstView::Or(Box::new((**l).view()), Box::new((**r).view())),
            Ast::Repeat(r) => AstView::Repeat(Box::new((**r).view())),
            Ast::Group(r) => AstView::Group(Box::new((**r).view())),
        }
    }
}

impl Ast {
    /// An independent copy of the tree.
    pub fn duplicate(&self) -> (copy: Ast)
        ensures
            copy@ == self@,
        decreases self,
    {
        match self {
            Ast::Literal(c) => Ast::Literal(*c),
            Ast::Class(bytes, negated) => {
                let mut copy: Vec<u8> = Vec::new();
                append(&mut copy, bytes.as_slice());
                assert(copy@ =~= bytes@);
                Ast::Class(copy, *negated)
            },
            Ast::And(l, r) => Ast::And(Box::new(l.duplicate()), Box::new(r.duplicate())),
            Ast::Or(l, r) => Ast::Or(Box::new(l.duplicate()), Box::new(r.duplicate())),
            Ast::Repeat(r) => Ast::Repeat(Box::new(r.duplicate())),
            Ast::Group(r) => Ast::Group(Box::new(r.duplicate())),
        }
    }
}

} // verus!
