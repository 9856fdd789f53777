//! The box tree that construction produces, and the errors a failed
//! construction surfaces.
//!
//! Alongside the executable types stands a mathematical model of the same
//! tree (`BoxModel`, `ErrorModel`) with text as `Seq<char>` and children
//! as `Seq`, which the construction contracts are stated over.

use vstd::prelude::*;
use crate::context::ContextId;

verus! {

/// One node of the box tree.
///
/// Context identifiers refer to the registry used during construction.
/// `participates` is the context the box is laid out in (`None` only for
/// a root box built with no offered context); `establishes` is the fresh
/// context the box created for its contents, if any.
#[derive(Debug, PartialEq)]
pub enum LayoutBox {
    /// A block container generated by an element.
    BlockContainer {
        name: String,
        participates: Option<ContextId>,
        establishes: Option<ContextId>,
        children: Vec<LayoutBox>,
    },
    /// An anonymous block box, synthesized to host inline-level content
    /// inside a block container; it always establishes a fresh inline
    /// formatting context and holds exactly one root inline box.
    AnonymousBlock { participates: ContextId, establishes: ContextId, children: Vec<LayoutBox> },
    /// An inline box generated by an element; takes part in an inline
    /// formatting context and never establishes one.
    Inline { name: String, participates: ContextId, children: Vec<LayoutBox> },
    /// The root inline box of an anonymous block box; inline content
    /// hosted by the anonymous box hangs off it.
    RootInline { participates: ContextId, children: Vec<LayoutBox> },
    /// A leaf holding trimmed, non-empty text content.
    TextRun { participates: ContextId, content: String },
}

/// The mathematical model of a box-tree node.
#[verifier::ext_equal]
pub enum BoxModel {
    BlockContainer {
        name: Seq<char>,
        participates: Option<nat>,
        establishes: Option<nat>,
        children: Seq<BoxModel>,
    },
    AnonymousBlock { participates: nat, establishes: nat, children: Seq<BoxModel> },
    Inline { name: Seq<char>, participates: nat, children: Seq<BoxModel> },
    RootInline { participates: nat, children: Seq<BoxModel> },
    TextRun { participates: nat, content: Seq<char> },
}

impl BoxModel {
    /// The context governing the box's contents: the one it establishes
    /// if it establishes one, else the one it takes part in.  This is the
    /// context its block-level children are offered.
    pub open spec fn inner_context(self) -> nat {
        match self {
            BoxModel::BlockContainer { participates, establishes, .. } => match establishes {
                Some(c) => c,
                None => participates->0,
            },
            BoxModel::AnonymousBlock { establishes, .. } => establishes,
            BoxModel::Inline { participates, .. } => participates,
            BoxModel::RootInline { participates, .. } => participates,
            BoxModel::TextRun { participates, .. } => participates,
        }
    }

    /// The box's children (empty for text runs).
    pub open spec fn spec_children(self) -> Seq<BoxModel> {
        match self {
            BoxModel::BlockContainer { children, .. } => children,
            BoxModel::AnonymousBlock { children, .. } => children,
            BoxModel::Inline { children, .. } => children,
            BoxModel::RootInline { children, .. } => children,
            BoxModel::TextRun { .. } => Seq::empty(),
        }
    }
}

/// The identifier of an offered context, as the model sees it.
pub open spec fn opt_id_model(id: Option<ContextId>) -> Option<nat> {
    match id {
        Some(c) => Some(c as nat),
        None => None,
    }
}

impl LayoutBox {
    /// The mathematical model of this box.
    pub open spec fn model(self) -> BoxModel
        decreases self,
    {
        match self {
            LayoutBox::BlockContainer { name, participates, establishes, children } => (
            BoxModel::BlockContainer {
                name: name@,
                participates: opt_id_model(participates),
                establishes: opt_id_model(establishes),
                children: forest_model(children@),
            }),
            LayoutBox::AnonymousBlock { participates, establishes, children } => (
            BoxModel::AnonymousBlock {
                participates: participates as nat,
                establishes: establishes as nat,
                children: forest_model(children@),
            }),
            LayoutBox::Inline { name, participates, children } => (BoxModel::Inline {
                name: name@,
                participates: participates as nat,
                children: forest_model(children@),
            }),
            LayoutBox::RootInline { participates, children } => (BoxModel::RootInline {
                participates: participates as nat,
                children: forest_model(children@),
            }),
            LayoutBox::TextRun { participates, content } => (BoxModel::TextRun {
                participates: participates as nat,
                content: content@,
            }),
        }
    }
}

/// The models of a sequence of sibling boxes, in order.
pub open spec fn forest_model(boxes: Seq<LayoutBox>) -> Seq<BoxModel>
    decreases boxes,
{
    if boxes.len() == 0 {
        Seq::empty()
    } else {
        forest_model(boxes.drop_last()).push(boxes.last().model())
    }
}

/// `forest_model` maps each box to its model, in place.
pub proof fn lemma_forest_model_index(boxes: Seq<LayoutBox>)
    ensures
        forest_model(boxes).len() == boxes.len(),
        forall|i: int| 0 <= i < boxes.len() ==> forest_model(boxes)[i] == boxes[i].model(),
    decreases boxes,
{
    if boxes.len() > 0 {
        lemma_forest_model_index(boxes.drop_last());
    }
}

/// Appending a box appends its model.
pub proof fn lemma_forest_model_push(boxes: Seq<LayoutBox>, b: LayoutBox)
    ensures
        forest_model(boxes.push(b)) == forest_model(boxes).push(b.model()),
{
    assert(boxes.push(b).drop_last() =~= boxes);
    assert(boxes.push(b).last() == b);
}

/// Why one construction pass failed.
///
/// The first two are contract violations (an inline-level box was asked
/// for where no inline formatting context stood ready); the last two are
/// explicitly unsupported arrangements.  Each names the offending node by
/// its element name, or by its trimmed content for a text node.
#[derive(Debug, PartialEq)]
pub enum BuildError {
    /// An inline box or text run was required, but no context was
    /// offered.
    MissingInlineContext { subject: String },
    /// An inline box or text run was required, but the offered context
    /// was not an inline one.
    NotInlineContext { subject: String },
    /// An `inline flow-root` display value; this core does not build
    /// such boxes.
    UnsupportedInlineFlowRoot { subject: String },
    /// A block-level box inside an inline box; this core does not build
    /// such arrangements.
    UnsupportedBlockInInline { subject: String },
}

/// The mathematical model of a construction error.
#[verifier::ext_equal]
pub enum ErrorModel {
    MissingInlineContext { subject: Seq<char> },
    NotInlineContext { subject: Seq<char> },
    UnsupportedInlineFlowRoot { subject: Seq<char> },
    UnsupportedBlockInInline { subject: Seq<char> },
}

impl BuildError {
    /// The mathematical model of this error.
    pub open spec fn model(self) -> ErrorModel {
        match self {
            BuildError::MissingInlineContext { subject } => (ErrorModel::MissingInlineContext {
                subject: subject@,
            }),
            BuildError::NotInlineContext { subject } => (ErrorModel::NotInlineContext {
                subject: subject@,
            }),
            BuildError::UnsupportedInlineFlowRoot { subject } => (
            ErrorModel::UnsupportedInlineFlowRoot { subject: subject@ }),
            BuildError::UnsupportedBlockInInline { subject } => (
            ErrorModel::UnsupportedBlockInInline { subject: subject@ }),
        }
    }
}

} // verus!
