//! The styled document tree that box construction walks.
//!
//! Style computation has already happened: every element carries its
//! resolved display value.  The tree is plain owned data; children are
//! held in document order.

use vstd::prelude::*;
use crate::display::Display;

verus! {

/// One node of the styled document tree.
#[derive(Debug, PartialEq)]
pub enum DomNode {
    /// The document node itself; box construction skips it and starts at
    /// its root element.
    Document { children: Vec<DomNode> },
    /// An element with its name, resolved display value and children.
    Element { name: String, display: Display, children: Vec<DomNode> },
    /// A text node; a leaf.
    Text { content: String },
    /// A doctype node; never generates a box.
    Doctype,
}

impl DomNode {
    /// The node's children, in document order (empty for leaves).
    pub open spec fn spec_children(self) -> Seq<DomNode> {
        match self {
            DomNode::Document { children } => children@,
            DomNode::Element { children, .. } => children@,
            DomNode::Text { .. } => Seq::empty(),
            DomNode::Doctype => Seq::empty(),
        }
    }
}

/// The size of a node's subtree; the builder's termination measure.
pub open spec fn spec_node_size(node: DomNode) -> nat
    decreases node,
{
    match node {
        DomNode::Document { children } => 1 + spec_forest_size(children@),
        DomNode::Element { children, .. } => 1 + spec_forest_size(children@),
        DomNode::Text { .. } => 1,
        DomNode::Doctype => 1,
    }
}

pub open spec fn spec_forest_size(nodes: Seq<DomNode>) -> nat
    decreases nodes,
{
    if nodes.len() == 0 {
        0
    } else {
        spec_forest_size(nodes.drop_last()) + spec_node_size(nodes.last())
    }
}

/// Every node of a forest counts towards the forest's size.
pub proof fn lemma_forest_size_element(nodes: Seq<DomNode>, i: int)
    requires
        0 <= i < nodes.len(),
    ensures
        spec_node_size(nodes[i]) <= spec_forest_size(nodes),
    decreases nodes.len(),
{
    if i == nodes.len() - 1 {
        assert(nodes.last() == nodes[i]);
    } else {
        lemma_forest_size_element(nodes.drop_last(), i);
        assert(nodes.drop_last()[i] == nodes[i]);
    }
}

/// A child's subtree is smaller than its parent's.
pub proof fn lemma_child_size_decreases(node: DomNode, i: int)
    requires
        0 <= i < node.spec_children().len(),
    ensures
        spec_node_size(node.spec_children()[i]) < spec_node_size(node),
{
    lemma_forest_size_element(node.spec_children(), i);
}

} // verus!
