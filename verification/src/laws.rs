//! Properties of box-tree construction, proved once and for all from the
//! construction semantics.

use vstd::prelude::*;
use crate::context::QualifiedFormattingContext;
use crate::display::Display;
use crate::dom::DomNode;
use crate::layout_box::BoxModel;
use crate::semantics::{
    lemma_scan_skips_prefix, spec_build_box_tree, spec_build_children, spec_handle_child,
    spec_is_root_element, spec_scan_for_root, BuildEffect, BuildOutcome,
};
use crate::text::spec_trim;

verus! {

/// Whitespace elision: a text node whose content trims to nothing never
/// generates a box, whatever context is offered and whatever the
/// registry holds, and no formatting context is created for it.
pub proof fn lemma_whitespace_text_generates_no_box(
    node: DomNode,
    offered: Option<nat>,
    ctxs: Seq<QualifiedFormattingContext>,
)
    requires
        node matches DomNode::Text { content } && spec_trim(content@).len() == 0,
    ensures
        spec_build_box_tree(node, offered, ctxs) == (BuildEffect {
            outcome: BuildOutcome::Skipped,
            created: Seq::<QualifiedFormattingContext>::empty(),
        }),
{
}

/// Document-root skipping: building from a document node whose children
/// hold the markup root element (first at position `i`) is the same as
/// building from that root element with no offered context.
pub proof fn lemma_document_root_skipping(
    node: DomNode,
    i: int,
    ctxs: Seq<QualifiedFormattingContext>,
)
    requires
        node is Document,
        0 <= i < node.spec_children().len(),
        spec_is_root_element(node.spec_children()[i]),
        forall|j: int| 0 <= j < i ==> !spec_is_root_element(#[trigger] node.spec_children()[j]),
    ensures
        spec_build_box_tree(node, None, ctxs) == spec_build_box_tree(
            node.spec_children()[i],
            None,
            ctxs,
        ),
{
    match node {
        DomNode::Document { children } => {
            lemma_scan_skips_prefix(children@, i, ctxs);
            let suffix = children@.subrange(i, children@.len() as int);
            assert(suffix[0] == children@[i]);
            assert(spec_scan_for_root(suffix, ctxs) == spec_build_box_tree(
                children@[i],
                None,
                ctxs,
            ));
        },
        _ => {},
    }
}

/// `display: none` suppresses the whole subtree: such an element
/// generates no box and creates no context, whatever its descendants'
/// display values are — construction never looks at them.
pub proof fn lemma_display_none_suppresses_subtree(
    node: DomNode,
    offered: Option<nat>,
    ctxs: Seq<QualifiedFormattingContext>,
)
    requires
        node matches DomNode::Element { display: Display::NoBox, .. },
    ensures
        spec_build_box_tree(node, offered, ctxs) == (BuildEffect {
            outcome: BuildOutcome::Skipped,
            created: Seq::<QualifiedFormattingContext>::empty(),
        }),
{
}

/// Whether `k` is a block container that joined the context it was
/// offered rather than establishing its own.
pub open spec fn spec_is_joined_block(k: BoxModel) -> bool {
    match k {
        BoxModel::BlockContainer { establishes, .. } => establishes is None,
        _ => false,
    }
}

/// The context a box takes part in (`None` for a root box built with no
/// offered context).
pub open spec fn spec_participates(k: BoxModel) -> Option<nat> {
    match k {
        BoxModel::BlockContainer { participates, .. } => participates,
        BoxModel::AnonymousBlock { participates, .. } => Some(participates),
        BoxModel::Inline { participates, .. } => Some(participates),
        BoxModel::RootInline { participates, .. } => Some(participates),
        BoxModel::TextRun { participates, .. } => Some(participates),
    }
}

/// What context sharing says of one child `k` of a block container whose
/// contents are governed by `c`: if `k` is a block container that joined
/// rather than established, it takes part in exactly `c`.
pub open spec fn spec_joined_child_shares(c: nat, k: BoxModel) -> bool {
    spec_is_joined_block(k) ==> spec_participates(k) == Some(c)
}

/// An element built with an offered context only ever produces a block
/// container that takes part in exactly that offered context.
proof fn lemma_element_child_joins(
    child: DomNode,
    offered: Option<nat>,
    ctxs: Seq<QualifiedFormattingContext>,
)
    requires
        child is Element,
    ensures
        spec_build_box_tree(child, offered, ctxs).outcome matches BuildOutcome::Produced(k)
            ==> (k is BlockContainer ==> spec_participates(k) == offered),
{
}

/// The child walk of a block container only ever appends children that
/// obey context sharing for the container's context `inner_ctx`.
proof fn lemma_children_keep_sharing(
    children: Seq<DomNode>,
    inner_ctx: nat,
    ctxs: Seq<QualifiedFormattingContext>,
)
    ensures
        ({
            let f = spec_build_children(children, false, inner_ctx, ctxs);
            forall|i: int|
                0 <= i < f.kids.len() ==> spec_joined_child_shares(
                    inner_ctx,
                    #[trigger] f.kids[i],
                )
        }),
    decreases children,
{
    if children.len() > 0 {
        lemma_children_keep_sharing(children.drop_last(), inner_ctx, ctxs);
        let pre = spec_build_children(children.drop_last(), false, inner_ctx, ctxs);
        if pre.error is None {
            let step = spec_handle_child(
                children.last(),
                false,
                inner_ctx,
                pre.kids,
                ctxs + pre.created,
            );
            match children.last() {
                DomNode::Element { name, display, .. } => {
                    match display {
                        Display::Full { outer, inner } => {
                            lemma_element_child_joins(
                                children.last(),
                                Some(inner_ctx),
                                ctxs + pre.created,
                            );
                        },
                        _ => {},
                    }
                },
                _ => {},
            }
            assert forall|i: int| 0 <= i < step.kids.len() implies spec_joined_child_shares(
                inner_ctx,
                #[trigger] step.kids[i],
            ) by {
                if i < pre.kids.len() - 1 {
                    assert(spec_joined_child_shares(inner_ctx, pre.kids[i]));
                }
                if i < pre.kids.len() {
                    assert(spec_joined_child_shares(inner_ctx, pre.kids[i]));
                }
            }
        }
    }
}

/// Context sharing: when construction produces a block container, every
/// child of it that is itself a block container and did not establish a
/// fresh context takes part in exactly the context governing the parent's
/// contents — so all such siblings share one context instance.
pub proof fn lemma_context_sharing(
    node: DomNode,
    offered: Option<nat>,
    ctxs: Seq<QualifiedFormattingContext>,
)
    ensures
        spec_build_box_tree(node, offered, ctxs).outcome matches BuildOutcome::Produced(b) ==> (b
            is BlockContainer ==> forall|i: int|
            0 <= i < b.spec_children().len() ==> spec_joined_child_shares(
                b.inner_context(),
                #[trigger] b.spec_children()[i],
            )),
    decreases node, 4int,
{
    match node {
        DomNode::Document { children } => {
            lemma_scan_context_sharing(children@, ctxs);
        },
        DomNode::Element { name, display, children } => {
            let head = crate::semantics::spec_classify(name@, display, offered, ctxs);
            match head.outcome {
                BuildOutcome::Produced(shell) => {
                    if shell is BlockContainer {
                        lemma_children_keep_sharing(children@, shell.inner_context(), ctxs
                            + head.created);
                    }
                },
                _ => {},
            }
        },
        _ => {},
    }
}

/// The scan for the markup root element preserves context sharing.
proof fn lemma_scan_context_sharing(
    children: Seq<DomNode>,
    ctxs: Seq<QualifiedFormattingContext>,
)
    ensures
        spec_scan_for_root(children, ctxs).outcome matches BuildOutcome::Produced(b) ==> (b
            is BlockContainer ==> forall|i: int|
            0 <= i < b.spec_children().len() ==> spec_joined_child_shares(
                b.inner_context(),
                #[trigger] b.spec_children()[i],
            )),
    decreases children, 4int,
{
    if children.len() == 0 {
    } else if spec_is_root_element(children[0]) {
        lemma_context_sharing(children[0], None, ctxs);
    } else {
        lemma_scan_context_sharing(children.drop_first(), ctxs);
    }
}

/// Context sharing, pairwise: two sibling block containers under one
/// block container, neither of which establishes its own context, take
/// part in the same context instance.
pub proof fn lemma_sibling_contexts_equal(
    node: DomNode,
    offered: Option<nat>,
    ctxs: Seq<QualifiedFormattingContext>,
    i: int,
    j: int,
)
    ensures
        spec_build_box_tree(node, offered, ctxs).outcome matches BuildOutcome::Produced(b) ==> ((b
            is BlockContainer && 0 <= i < b.spec_children().len() && 0 <= j
            < b.spec_children().len() && spec_is_joined_block(b.spec_children()[i])
            && spec_is_joined_block(b.spec_children()[j])) ==> spec_participates(
            b.spec_children()[i],
        ) == spec_participates(b.spec_children()[j])),
{
    lemma_context_sharing(node, offered, ctxs);
}

} // verus!
