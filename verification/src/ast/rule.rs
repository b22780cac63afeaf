//! The rules section of a specification as a tree.
use vstd::prelude::*;

verus! {

/// The rules of a specification, in the order of their declaration, which is
/// their priority.
#[derive(Debug, PartialEq)]
pub struct RuleNode<'a> {
    pub rules: Option<Vec<RulePairNode<'a>>>,
}

/// One rule: a pattern, with its macro references expanded, and the action to
/// run on a match.
#[derive(Debug, PartialEq)]
pub struct RulePairNode<'a> {
    pub pattern: Vec<u8>,
    pub action: &'a [u8],
}

/// The mathematical value of a rule.
pub struct RuleView {
    pub pattern: Seq<u8>,
    pub action: Seq<u8>,
}

impl<'a> View for RulePairNode<'a> {
    type V = RuleView;

    open spec fn view(&self) -> RuleView {
        RuleView { pattern: self.pattern@, action: self.action@ }
    }
}

/// The values of a list of rules.
pub open spec fn rules_view(v: Seq<RulePairNode<'_>>) -> Seq<RuleView> {
    Seq::new(v.len(), |i: int| v[i]@)
}

impl<'a> View for RuleNode<'a> {
    type V = Option<Seq<RuleView>>;

    open spec fn view(&self) -> Option<Seq<RuleView>> {
        match self.rules {
            Some(v) => Some(rules_view(v@)),
            None => None,
        }
    }
}

} // verus!
