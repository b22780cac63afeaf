//! The tree that parsing a specification yields.
use vstd::prelude::*;
pub use crate::ast::definition::{
    CodeNode, DefinitionNode, DefinitionPairNode, DefinitionView, MacroView, OptionNode,
};
pub use crate::ast::rule::{RuleNode, RulePairNode, RuleView};
pub use crate::ast::usercode::UserCodeNode;

pub mod definition;
pub mod rule;
pub mod usercode;

verus! {

/// A parsed specification. A child is `None` where its section holds no
/// token.
#[derive(Debug, PartialEq)]
pub struct Root<'a> {
    pub definition_node: Option<DefinitionNode<'a>>,
    pub rule_node: Option<RuleNode<'a>>,
    pub usercode_node: Option<UserCodeNode<'a>>,
}

/// The mathematical value of a `Root`.
pub struct RootView {
    pub definitions: Option<DefinitionView>,
    pub rules: Option<Option<Seq<RuleView>>>,
    pub usercode: Option<Seq<u8>>,
}

impl<'a> View for Root<'a> {
    type V = RootView;

    open spec fn view(&self) -> RootView {
        RootView {
            definitions: match self.definition_node {
                Some(d) => Some(d@),
                None => None,
            },
            rules: match self.rule_node {
                Some(r) => Some(r@),
                None => None,
            },
            usercode: match self.usercode_node {
                Some(u) => Some(u@),
                None => None,
            },
        }
    }
}

} // verus!
