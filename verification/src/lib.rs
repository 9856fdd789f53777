//! Box-tree construction for a document layout engine.
//!
//! Given a styled document tree (elements with resolved `display` values,
//! text, the document node itself), this crate builds the tree of layout
//! boxes that a later geometric layout phase consumes: block containers,
//! inline boxes, text runs, and the anonymous block boxes that are
//! synthesized to host inline-level content appearing next to block-level
//! content inside a block container.  Formatting contexts are kept in an
//! explicit registry and shared between boxes by identifier.

pub mod builder;
pub mod context;
pub mod display;
pub mod dom;
pub mod laws;
pub mod layout_box;
pub mod semantics;
pub mod text;
