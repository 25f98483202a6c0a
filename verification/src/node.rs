//! A tree node holding a value and non-owning links to child nodes. A link is
//! a plain node identifier to be resolved against an owning registry, so a
//! released child can never leave a dangling reference behind.

use vstd::prelude::*;

verus! {

/// A node with a text value and links to its children, kept in the order they
/// were appended.
#[derive(Clone, Debug)]
pub struct Node {
    value: String,
    children: Vec<u64>,
}

impl Node {
    /// The value as a character sequence.
    pub closed spec fn spec_value(self) -> Seq<char> {
        self.value@
    }

    /// The identifiers of the linked children, oldest first.
    pub closed spec fn links(self) -> Seq<u64> {
        self.children@
    }

    /// Creates a node with an empty value and no children.
    pub fn new() -> (r: Node)
        ensures
            r.spec_value() == Seq::<char>::empty(),
            r.links() == Seq::<u64>::empty(),
    {
        Node { value: String::new(), children: Vec::new() }
    }

    /// Creates a node with the given value and no children.
    pub fn with_value(value: String) -> (r: Node)
        ensures
            r.spec_value() == value@,
            r.links() == Seq::<u64>::empty(),
    {
        Node { value, children: Vec::new() }
    }

    /// Appends a link to the node with the given identifier.
    pub fn add_link_to_node(&mut self, node: u64)
        ensures
            final(self).spec_value() == old(self).spec_value(),
            final(self).links() == old(self).links().push(node),
    {
        self.children.push(node);
    }

    /// The node's value.
    pub fn value(&self) -> (r: &String)
        ensures
            r@ == self.spec_value(),
    {
        &self.value
    }

    /// The identifiers of the linked children, oldest first.
    pub fn children(&self) -> (r: &Vec<u64>)
        ensures
            r@ == self.links(),
    {
        &self.children
    }
}

} // verus!
