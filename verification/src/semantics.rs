//! Box-tree construction as a mathematical function.
//!
//! `spec_build_box_tree` says, for every document node, offered context
//! and registry state, exactly which outcome construction has (a box, no
//! box, or a typed error) and which formatting contexts it creates, in
//! order.  The executable builder is proved equal to it.  Freshly created
//! contexts are numbered from the end of the registry the call starts
//! with; `created` lists their records in order of creation.

use vstd::prelude::*;
use crate::context::{FormattingContext, QualifiedFormattingContext};
use crate::display::{Display, InnerDisplay, OuterDisplay};
use crate::dom::DomNode;
use crate::layout_box::{BoxModel, ErrorModel};
use crate::text::spec_trim;

verus! {

/// The name of the markup root element at which construction starts when
/// handed a document node.
pub open spec fn spec_root_name() -> Seq<char> {
    "html"@
}

/// Whether `n` is an element named like the markup root.
pub open spec fn spec_is_root_element(n: DomNode) -> bool {
    match n {
        DomNode::Element { name, .. } => name@ == spec_root_name(),
        _ => false,
    }
}

/// Whether `c` names an inline formatting context of `ctxs`, of either
/// qualifier.
pub open spec fn spec_is_inline_context(ctxs: Seq<QualifiedFormattingContext>, c: nat) -> bool {
    c < ctxs.len() && ctxs[c as int].kind() == FormattingContext::Inline
}

/// Whether `c` names a block formatting context of `ctxs`, of either
/// qualifier.
pub open spec fn spec_is_block_context(ctxs: Seq<QualifiedFormattingContext>, c: nat) -> bool {
    c < ctxs.len() && ctxs[c as int].kind() == FormattingContext::Block
}

/// What one construction call produced.
#[verifier::ext_equal]
pub enum BuildOutcome {
    /// A box was built.
    Produced(BoxModel),
    /// No box is generated: whitespace-only text, `display: none`, a
    /// doctype, or a document without a root element.
    Skipped,
    /// Construction of this subtree failed.
    Failed(ErrorModel),
}

/// A construction call's outcome together with the formatting-context
/// records it appended to the registry, in order of creation.
#[verifier::ext_equal]
pub struct BuildEffect {
    pub outcome: BuildOutcome,
    pub created: Seq<QualifiedFormattingContext>,
}

/// The state of the walk over a box's children: the sibling boxes built
/// so far, the contexts created so far, and the error that stopped the
/// walk, if one did.
#[verifier::ext_equal]
pub struct ChildrenEffect {
    pub kids: Seq<BoxModel>,
    pub created: Seq<QualifiedFormattingContext>,
    pub error: Option<ErrorModel>,
}

/// A fresh anonymous block box: it takes part in `participates`,
/// establishes the inline context `ifc`, and holds one root inline box
/// with the given inline-level `items`.
pub open spec fn spec_new_anonymous(participates: nat, ifc: nat, items: Seq<BoxModel>) -> BoxModel {
    BoxModel::AnonymousBlock {
        participates,
        establishes: ifc,
        children: seq![BoxModel::RootInline { participates: ifc, children: items }],
    }
}

/// Whether the last sibling built so far is an anonymous block box — the
/// current inline container.  A block-level sibling appended after it
/// ends its reuse, precisely because it then no longer stands last.
pub open spec fn spec_last_is_anonymous(kids: Seq<BoxModel>) -> bool {
    kids.len() > 0 && kids.last() matches BoxModel::AnonymousBlock { .. }
}

/// The inline formatting context established by the current inline
/// container (meaningful when `spec_last_is_anonymous(kids)`).
pub open spec fn spec_container_context(kids: Seq<BoxModel>) -> nat {
    kids.last()->AnonymousBlock_establishes
}

/// `kids` with `item` appended inside the current inline container: the
/// item goes at the end of the container's root inline box (meaningful
/// when `spec_last_is_anonymous(kids)`).
pub open spec fn spec_append_inline(kids: Seq<BoxModel>, item: BoxModel) -> Seq<BoxModel> {
    let anon = kids.last();
    let root = anon.spec_children()[0];
    let root2 = BoxModel::RootInline {
        participates: root->RootInline_participates,
        children: root->RootInline_children.push(item),
    };
    let anon2 = BoxModel::AnonymousBlock {
        participates: anon->AnonymousBlock_participates,
        establishes: anon->AnonymousBlock_establishes,
        children: seq![root2],
    };
    kids.drop_last().push(anon2)
}

/// `shell` with its children replaced by `kids`.
pub open spec fn spec_with_children(shell: BoxModel, kids: Seq<BoxModel>) -> BoxModel {
    match shell {
        BoxModel::BlockContainer { name, participates, establishes, .. } => (
        BoxModel::BlockContainer { name, participates, establishes, children: kids }),
        BoxModel::AnonymousBlock { participates, establishes, .. } => (BoxModel::AnonymousBlock {
            participates,
            establishes,
            children: kids,
        }),
        BoxModel::Inline { name, participates, .. } => (BoxModel::Inline {
            name,
            participates,
            children: kids,
        }),
        BoxModel::RootInline { participates, .. } => (BoxModel::RootInline {
            participates,
            children: kids,
        }),
        BoxModel::TextRun { participates, content } => (BoxModel::TextRun {
            participates,
            content,
        }),
    }
}

/// A block container that establishes a fresh independent block context
/// (numbered `ctxs.len()`), still childless.
pub open spec fn spec_establish_block(
    name: Seq<char>,
    offered: Option<nat>,
    ctxs: Seq<QualifiedFormattingContext>,
) -> BuildEffect {
    BuildEffect {
        outcome: BuildOutcome::Produced(
            BoxModel::BlockContainer {
                name,
                participates: offered,
                establishes: Some(ctxs.len()),
                children: Seq::empty(),
            },
        ),
        created: seq![QualifiedFormattingContext::Independent(FormattingContext::Block)],
    }
}

/// The box classifier: from an element's name, its resolved display value
/// and the offered context, the childless box it generates (or the signal
/// that none is, or the violation).
///
/// - `block flow` joins the offered context when that is a block context,
///   and establishes a fresh independent block context otherwise;
/// - `block flow-root` always establishes a fresh independent block
///   context;
/// - `inline flow` requires the offered context to be inline, and fails
///   otherwise;
/// - `inline flow-root` is not supported;
/// - `none` generates no box.
pub open spec fn spec_classify(
    name: Seq<char>,
    display: Display,
    offered: Option<nat>,
    ctxs: Seq<QualifiedFormattingContext>,
) -> BuildEffect {
    match display {
        Display::NoBox => BuildEffect { outcome: BuildOutcome::Skipped, created: Seq::empty() },
        Display::Full { outer, inner } => match (outer, inner) {
            (OuterDisplay::Block, InnerDisplay::Flow) => match offered {
                Some(c) => if spec_is_block_context(ctxs, c) {
                    BuildEffect {
                        outcome: BuildOutcome::Produced(
                            BoxModel::BlockContainer {
                                name,
                                participates: Some(c),
                                establishes: None,
                                children: Seq::empty(),
                            },
                        ),
                        created: Seq::empty(),
                    }
                } else {
                    spec_establish_block(name, offered, ctxs)
                },
                None => spec_establish_block(name, offered, ctxs),
            },
            (OuterDisplay::Block, InnerDisplay::FlowRoot) => spec_establish_block(
                name,
                offered,
                ctxs,
            ),
            (OuterDisplay::Inline, InnerDisplay::Flow) => match offered {
                Some(c) => if spec_is_inline_context(ctxs, c) {
                    BuildEffect {
                        outcome: BuildOutcome::Produced(
                            BoxModel::Inline { name, participates: c, children: Seq::empty() },
                        ),
                        created: Seq::empty(),
                    }
                } else {
                    BuildEffect {
                        outcome: BuildOutcome::Failed(
                            ErrorModel::NotInlineContext { subject: name },
                        ),
                        created: Seq::empty(),
                    }
                },
                None => BuildEffect {
                    outcome: BuildOutcome::Failed(
                        ErrorModel::MissingInlineContext { subject: name },
                    ),
                    created: Seq::empty(),
                },
            },
            (OuterDisplay::Inline, InnerDisplay::FlowRoot) => BuildEffect {
                outcome: BuildOutcome::Failed(
                    ErrorModel::UnsupportedInlineFlowRoot { subject: name },
                ),
                created: Seq::empty(),
            },
        },
    }
}

/// The whole construction: from a document node, the context its box is
/// offered to join (`None` means the call must establish one), and the
/// registry contents at the time of the call, the outcome and the
/// contexts created.
pub open spec fn spec_build_box_tree(
    node: DomNode,
    offered: Option<nat>,
    ctxs: Seq<QualifiedFormattingContext>,
) -> BuildEffect
    decreases node, 0int,
{
    match node {
        DomNode::Document { children } => spec_scan_for_root(children@, ctxs),
        DomNode::Doctype => BuildEffect {
            outcome: BuildOutcome::Skipped,
            created: Seq::empty(),
        },
        DomNode::Text { content } => {
            let t = spec_trim(content@);
            if t.len() == 0 {
                BuildEffect { outcome: BuildOutcome::Skipped, created: Seq::empty() }
            } else {
                match offered {
                    None => BuildEffect {
                        outcome: BuildOutcome::Failed(
                            ErrorModel::MissingInlineContext { subject: t },
                        ),
                        created: Seq::empty(),
                    },
                    Some(c) => if spec_is_inline_context(ctxs, c) {
                        BuildEffect {
                            outcome: BuildOutcome::Produced(
                                BoxModel::TextRun { participates: c, content: t },
                            ),
                            created: Seq::empty(),
                        }
                    } else {
                        BuildEffect {
                            outcome: BuildOutcome::Failed(
                                ErrorModel::NotInlineContext { subject: t },
                            ),
                            created: Seq::empty(),
                        }
                    },
                }
            }
        },
        DomNode::Element { name, display, children } => {
            let head = spec_classify(name@, display, offered, ctxs);
            match head.outcome {
                BuildOutcome::Skipped => BuildEffect {
                    outcome: BuildOutcome::Skipped,
                    created: Seq::empty(),
                },
                BuildOutcome::Failed(e) => BuildEffect {
                    outcome: BuildOutcome::Failed(e),
                    created: head.created,
                },
                BuildOutcome::Produced(shell) => {
                    let parent_inline = shell matches BoxModel::Inline { .. };
                    let f = spec_build_children(
                        children@,
                        parent_inline,
                        shell.inner_context(),
                        ctxs + head.created,
                    );
                    match f.error {
                        Some(e) => BuildEffect {
                            outcome: BuildOutcome::Failed(e),
                            created: head.created + f.created,
                        },
                        None => BuildEffect {
                            outcome: BuildOutcome::Produced(spec_with_children(shell, f.kids)),
                            created: head.created + f.created,
                        },
                    }
                },
            }
        },
    }
}

/// The document-node case: construction skips the document node itself
/// and starts at its first child that is the markup root element; no such
/// child means no box.
pub open spec fn spec_scan_for_root(
    children: Seq<DomNode>,
    ctxs: Seq<QualifiedFormattingContext>,
) -> BuildEffect
    decreases children, 2int,
{
    if children.len() == 0 {
        BuildEffect { outcome: BuildOutcome::Skipped, created: Seq::empty() }
    } else if spec_is_root_element(children[0]) {
        spec_build_box_tree(children[0], None, ctxs)
    } else {
        spec_scan_for_root(children.drop_first(), ctxs)
    }
}

/// The walk over a box's children, in document order, starting from no
/// siblings built; an error stops the walk.
pub open spec fn spec_build_children(
    children: Seq<DomNode>,
    parent_inline: bool,
    inner_ctx: nat,
    ctxs: Seq<QualifiedFormattingContext>,
) -> ChildrenEffect
    decreases children, 2int,
{
    if children.len() == 0 {
        ChildrenEffect { kids: Seq::empty(), created: Seq::empty(), error: None }
    } else {
        let pre = spec_build_children(children.drop_last(), parent_inline, inner_ctx, ctxs);
        match pre.error {
            Some(_) => pre,
            None => {
                let step = spec_handle_child(
                    children.last(),
                    parent_inline,
                    inner_ctx,
                    pre.kids,
                    ctxs + pre.created,
                );
                ChildrenEffect {
                    kids: step.kids,
                    created: pre.created + step.created,
                    error: step.error,
                }
            },
        }
    }
}

/// How one child node changes the walk state.
///
/// Text with non-empty trimmed content and inline-level elements go
/// through the current inline container when the parent box is
/// block-level, and directly into an inline parent; block-level children
/// are appended directly (ending the container's reuse), and are not
/// supported inside an inline parent.  Document and doctype children
/// generate nothing.
pub open spec fn spec_handle_child(
    child: DomNode,
    parent_inline: bool,
    inner_ctx: nat,
    kids: Seq<BoxModel>,
    ctxs: Seq<QualifiedFormattingContext>,
) -> ChildrenEffect
    decreases child, 1int,
{
    match child {
        DomNode::Text { content } => {
            let t = spec_trim(content@);
            if t.len() == 0 {
                ChildrenEffect { kids, created: Seq::empty(), error: None }
            } else if parent_inline {
                ChildrenEffect {
                    kids: kids.push(BoxModel::TextRun { participates: inner_ctx, content: t }),
                    created: Seq::empty(),
                    error: None,
                }
            } else if spec_last_is_anonymous(kids) {
                let c = spec_container_context(kids);
                ChildrenEffect {
                    kids: spec_append_inline(
                        kids,
                        BoxModel::TextRun { participates: c, content: t },
                    ),
                    created: Seq::empty(),
                    error: None,
                }
            } else {
                let ifc = ctxs.len();
                ChildrenEffect {
                    kids: kids.push(
                        spec_new_anonymous(
                            inner_ctx,
                            ifc,
                            seq![BoxModel::TextRun { participates: ifc, content: t }],
                        ),
                    ),
                    created: seq![
                        QualifiedFormattingContext::Independent(FormattingContext::Inline),
                    ],
                    error: None,
                }
            }
        },
        DomNode::Element { name, display, .. } => match display {
            Display::NoBox => ChildrenEffect { kids, created: Seq::empty(), error: None },
            Display::Full { outer, inner } => match (outer, inner) {
                (OuterDisplay::Block, _) => {
                    if parent_inline {
                        ChildrenEffect {
                            kids,
                            created: Seq::empty(),
                            error: Some(ErrorModel::UnsupportedBlockInInline { subject: name@ }),
                        }
                    } else {
                        let sub = spec_build_box_tree(child, Some(inner_ctx), ctxs);
                        spec_attach_direct(kids, sub)
                    }
                },
                (OuterDisplay::Inline, InnerDisplay::Flow) => {
                    if parent_inline {
                        let sub = spec_build_box_tree(child, Some(inner_ctx), ctxs);
                        spec_attach_direct(kids, sub)
                    } else if spec_last_is_anonymous(kids) {
                        let c = spec_container_context(kids);
                        let sub = spec_build_box_tree(child, Some(c), ctxs);
                        spec_attach_in_container(kids, sub)
                    } else {
                        let ifc = ctxs.len();
                        let with_anon = kids.push(spec_new_anonymous(inner_ctx, ifc, Seq::empty()));
                        let created1 = seq![
                            QualifiedFormattingContext::Independent(FormattingContext::Inline),
                        ];
                        let sub = spec_build_box_tree(
                            child,
                            Some(ifc),
                            ctxs + created1,
                        );
                        let attached = spec_attach_in_container(with_anon, sub);
                        ChildrenEffect {
                            kids: attached.kids,
                            created: created1 + attached.created,
                            error: attached.error,
                        }
                    }
                },
                (OuterDisplay::Inline, InnerDisplay::FlowRoot) => ChildrenEffect {
                    kids,
                    created: Seq::empty(),
                    error: Some(ErrorModel::UnsupportedInlineFlowRoot { subject: name@ }),
                },
            },
        },
        DomNode::Document { .. } => ChildrenEffect { kids, created: Seq::empty(), error: None },
        DomNode::Doctype => ChildrenEffect { kids, created: Seq::empty(), error: None },
    }
}

/// Attaches a child's build result directly as the next sibling.
pub open spec fn spec_attach_direct(kids: Seq<BoxModel>, sub: BuildEffect) -> ChildrenEffect {
    match sub.outcome {
        BuildOutcome::Produced(b) => ChildrenEffect {
            kids: kids.push(b),
            created: sub.created,
            error: None,
        },
        BuildOutcome::Skipped => ChildrenEffect { kids, created: sub.created, error: None },
        BuildOutcome::Failed(e) => ChildrenEffect { kids, created: sub.created, error: Some(e) },
    }
}

/// Attaches a child's build result inside the current inline container
/// (meaningful when `spec_last_is_anonymous(kids)`).
pub open spec fn spec_attach_in_container(kids: Seq<BoxModel>, sub: BuildEffect) -> ChildrenEffect {
    match sub.outcome {
        BuildOutcome::Produced(b) => ChildrenEffect {
            kids: spec_append_inline(kids, b),
            created: sub.created,
            error: None,
        },
        BuildOutcome::Skipped => ChildrenEffect { kids, created: sub.created, error: None },
        BuildOutcome::Failed(e) => ChildrenEffect { kids, created: sub.created, error: Some(e) },
    }
}

/// Unrolls the child walk by one step at index `i`.
pub proof fn lemma_build_children_snoc(
    children: Seq<DomNode>,
    i: int,
    parent_inline: bool,
    inner_ctx: nat,
    ctxs: Seq<QualifiedFormattingContext>,
)
    requires
        0 <= i < children.len(),
    ensures
        ({
            let pre = spec_build_children(children.subrange(0, i), parent_inline, inner_ctx, ctxs);
            let all = spec_build_children(
                children.subrange(0, i + 1),
                parent_inline,
                inner_ctx,
                ctxs,
            );
            all == if pre.error is Some {
                pre
            } else {
                let step = spec_handle_child(
                    children[i],
                    parent_inline,
                    inner_ctx,
                    pre.kids,
                    ctxs + pre.created,
                );
                ChildrenEffect {
                    kids: step.kids,
                    created: pre.created + step.created,
                    error: step.error,
                }
            }
        }),
{
    let s = children.subrange(0, i + 1);
    assert(s.drop_last() =~= children.subrange(0, i));
    assert(s.last() == children[i]);
}

/// Once a child fails, the rest of the walk changes nothing.
pub proof fn lemma_build_children_error_stops(
    children: Seq<DomNode>,
    i: int,
    parent_inline: bool,
    inner_ctx: nat,
    ctxs: Seq<QualifiedFormattingContext>,
)
    requires
        0 <= i <= children.len(),
        spec_build_children(
            children.subrange(0, i),
            parent_inline,
            inner_ctx,
            ctxs,
        ).error is Some,
    ensures
        spec_build_children(children, parent_inline, inner_ctx, ctxs) == spec_build_children(
            children.subrange(0, i),
            parent_inline,
            inner_ctx,
            ctxs,
        ),
    decreases children.len() - i,
{
    if i == children.len() {
        assert(children.subrange(0, i) =~= children);
    } else {
        lemma_build_children_snoc(children, i, parent_inline, inner_ctx, ctxs);
        lemma_build_children_error_stops(children, i + 1, parent_inline, inner_ctx, ctxs);
    }
}

/// A successful construction hands back a principal box — a block
/// container, an inline box or a text run — never a bare anonymous block
/// or root inline box, which only ever arise inside a parent.
pub proof fn lemma_built_box_is_principal(
    node: DomNode,
    offered: Option<nat>,
    ctxs: Seq<QualifiedFormattingContext>,
)
    ensures
        spec_build_box_tree(node, offered, ctxs).outcome matches BuildOutcome::Produced(b) ==> (
        !(b is AnonymousBlock) && !(b is RootInline)),
    decreases node, 3int,
{
    match node {
        DomNode::Document { children } => {
            lemma_scan_box_is_principal(children@, ctxs);
        },
        _ => {},
    }
}

/// The scan for the markup root element only ever hands back a principal
/// box.
proof fn lemma_scan_box_is_principal(
    children: Seq<DomNode>,
    ctxs: Seq<QualifiedFormattingContext>,
)
    ensures
        spec_scan_for_root(children, ctxs).outcome matches BuildOutcome::Produced(b) ==> (
        !(b is AnonymousBlock) && !(b is RootInline)),
    decreases children, 3int,
{
    if children.len() == 0 {
    } else if spec_is_root_element(children[0]) {
        lemma_built_box_is_principal(children[0], None, ctxs);
    } else {
        lemma_scan_box_is_principal(children.drop_first(), ctxs);
    }
}

/// Children that are not the markup root do not change the scan.
pub proof fn lemma_scan_skips_prefix(
    children: Seq<DomNode>,
    i: int,
    ctxs: Seq<QualifiedFormattingContext>,
)
    requires
        0 <= i <= children.len(),
        forall|j: int| 0 <= j < i ==> !spec_is_root_element(#[trigger] children[j]),
    ensures
        spec_scan_for_root(children, ctxs) == spec_scan_for_root(
            children.subrange(i, children.len() as int),
            ctxs,
        ),
    decreases i,
{
    if i == 0 {
        assert(children.subrange(0, children.len() as int) =~= children);
    } else {
        let d = children.drop_first();
        assert(!spec_is_root_element(children[0]));
        assert(forall|j: int| 0 <= j < i - 1 ==> !spec_is_root_element(#[trigger] d[j]));
        lemma_scan_skips_prefix(d, i - 1, ctxs);
        assert(d.subrange(i - 1, d.len() as int) =~= children.subrange(i, children.len() as int));
        if children.len() > 0 {
            assert(spec_scan_for_root(children, ctxs) == spec_scan_for_root(d, ctxs));
        }
    }
}

} // verus!
