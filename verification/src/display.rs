//! Resolved `display` values, as handed over by style computation.

use vstd::prelude::*;

verus! {

/// How a box takes part in its parent's layout.
#[derive(Clone, Copy, Debug, PartialEq, Eq, Structural)]
pub enum OuterDisplay {
    Block,
    Inline,
}

/// Which layout mode a box uses for its own contents.
#[derive(Clone, Copy, Debug, PartialEq, Eq, Structural)]
pub enum InnerDisplay {
    Flow,
    FlowRoot,
}

/// A node's resolved display value: either `display: none` (the `NoBox`
/// variant), which suppresses box generation for the node and its whole
/// subtree, or a full outer/inner pair.
#[derive(Clone, Copy, Debug, PartialEq, Eq, Structural)]
pub enum Display {
    NoBox,
    Full { outer: OuterDisplay, inner: InnerDisplay },
}

} // verus!
