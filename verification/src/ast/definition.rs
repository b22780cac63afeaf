//! The definitions section of a specification as a tree.
use vstd::prelude::*;

verus! {

/// What the definitions section declares. A field is `None` where the section
/// holds nothing of its kind.
#[derive(Debug, PartialEq)]
pub struct DefinitionNode<'a> {
    /// The options of the last `%option` line.
    pub options: Option<Vec<OptionNode<'a>>>,
    /// The last block of C code, to be copied into the scanner.
    pub code: Option<CodeNode<'a>>,
    /// The macros, in the order of their declaration.
    pub definitions: Option<Vec<DefinitionPairNode<'a>>>,
}

/// One option name.
#[derive(Debug, PartialEq)]
pub struct OptionNode<'a> {
    pub value: &'a [u8],
}

/// A block of C code.
#[derive(Debug, PartialEq)]
pub struct CodeNode<'a> {
    pub value: &'a [u8],
}

/// A macro: a name and the pattern text that it stands for.
#[derive(Debug, PartialEq)]
pub struct DefinitionPairNode<'a> {
    pub name: &'a [u8],
    pub definition: &'a [u8],
}

/// The mathematical value of a macro.
pub struct MacroView {
    pub name: Seq<u8>,
    pub definition: Seq<u8>,
}

/// The mathematical value of a `DefinitionNode`.
pub struct DefinitionView {
    pub options: Option<Seq<Seq<u8>>>,
    pub code: Option<Seq<u8>>,
    pub definitions: Option<Seq<MacroView>>,
}

impl<'a> View for OptionNode<'a> {
    type V = Seq<u8>;

    open spec fn view(&self) -> Seq<u8> {
        self.value@
    }
}

impl<'a> View for CodeNode<'a> {
    type V = Seq<u8>;

    open spec fn view(&self) -> Seq<u8> {
        self.value@
    }
}

impl<'a> View for DefinitionPairNode<'a> {
    type V = MacroView;

    open spec fn view(&self) -> MacroView {
        MacroView { name: self.name@, definition: self.definition@ }
    }
}

/// The values of a list of options.
pub open spec fn options_view(v: Seq<OptionNode<'_>>) -> Seq<Seq<u8>> {
    Seq::new(v.len(), |i: int| v[i]@)
}

/// The values of a list of macros.
pub open spec fn macros_view(v: Seq<DefinitionPairNode<'_>>) -> Seq<MacroView> {
    Seq::new(v.len(), |i: int| v[i]@)
}

impl<'a> View for DefinitionNode<'a> {
    type V = DefinitionView;

    open spec fn view(&self) -> DefinitionView {
        DefinitionView {
            options: match self.options {
                Some(v) => Some(options_view(v@)),
                None => None,
            },
            code: match self.code {
                Some(c) => Some(c@),
                None => None,
            },
            definitions: match self.definitions {
                Some(v) => Some(macros_view(v@)),
                None => None,
            },
        }
    }
}

impl<'a> Default for DefinitionNode<'a> {
    /// A node that declares nothing.
    fn default() -> (node: Self)
        ensures
            node.options.is_none(),
            node.code.is_none(),
            node.definitions.is_none(),
    {
        DefinitionNode { options: None, code: None, definitions: None }
    }
}

impl<'a> OptionNode<'a> {
    /// The option with this name.
    pub fn from(value: &'a [u8]) -> (node: Self)
        ensures
            node@ == value@,
    {
        OptionNode { value }
    }
}

impl<'a> CodeNode<'a> {
    /// The block with this text.
    pub fn from(value: &'a [u8]) -> (node: Self)
        ensures
            node@ == value@,
    {
        CodeNode { value }
    }
}

} // verus!
