//! The user-code section of a specification as a tree.
use vstd::prelude::*;

verus! {

/// The text of the user-code section, to be copied to the end of the scanner.
#[derive(Debug, PartialEq)]
pub struct UserCodeNode<'a> {
    pub value: &'a [u8],
}

impl<'a> View for UserCodeNode<'a> {
    type V = Seq<u8>;

    open spec fn view(&self) -> Seq<u8> {
        self.value@
    }
}

impl<'a> UserCodeNode<'a> {
    /// The node with this text.
    pub fn from(value: &'a [u8]) -> (node: Self)
        ensures
            node@ == value@,
    {
        UserCodeNode { value }
    }
}

} // verus!
