//! The tree builder: the recursive procedure that turns a styled document
//! node into a layout box tree.
//!
//! Every function here is proved equal to the mathematical construction
//! in `semantics`: the same outcome, and the same formatting contexts
//! appended to the registry, in the same order.

use vstd::prelude::*;
use crate::context::{ContextId, FormattingContextRegistry, QualifiedFormattingContext};
use crate::display::{Display, InnerDisplay, OuterDisplay};
use crate::dom::{lemma_child_size_decreases, spec_node_size, DomNode};
use crate::layout_box::{
    forest_model, lemma_forest_model_index, lemma_forest_model_push, opt_id_model, BoxModel,
    BuildError, LayoutBox,
};
use crate::semantics::{
    lemma_build_children_error_stops, lemma_build_children_snoc, lemma_scan_skips_prefix,
    spec_append_inline, spec_build_box_tree, spec_build_children, spec_classify,
    spec_container_context, spec_establish_block, spec_handle_child, spec_is_root_element,
    spec_last_is_anonymous, spec_new_anonymous, spec_scan_for_root, spec_with_children,
    BuildOutcome,
};
use crate::text::trim_text;

verus! {

/// The outcome a call's result stands for: a box (by its model), no box,
/// or an error (by its model).
pub open spec fn spec_result_outcome(r: Result<Option<LayoutBox>, BuildError>) -> BuildOutcome {
    match r {
        Ok(Some(b)) => BuildOutcome::Produced(b.model()),
        Ok(None) => BuildOutcome::Skipped,
        Err(e) => BuildOutcome::Failed(e.model()),
    }
}

/// An anonymous block box holds exactly one root inline box; other boxes
/// carry no such obligation.
pub open spec fn spec_anon_container_shape(b: LayoutBox) -> bool {
    match b {
        LayoutBox::AnonymousBlock { children, .. } => children@.len() == 1 && children@[0]
            is RootInline,
        _ => true,
    }
}

/// What the child walk keeps true of the siblings built so far: the last
/// one, if it is an anonymous box, has its root inline box in place, and
/// the inline context it establishes is registered.
pub open spec fn kids_wf(kids: Seq<LayoutBox>, ctxs: Seq<QualifiedFormattingContext>) -> bool {
    &&& (kids.len() > 0 ==> spec_anon_container_shape(kids.last()))
    &&& (spec_last_is_anonymous(forest_model(kids)) ==> spec_container_context(forest_model(kids))
        < ctxs.len())
}

/// Whether `n` is the markup root element.
pub fn is_root_element(n: &DomNode) -> (b: bool)
    ensures
        b == spec_is_root_element(*n),
{
    match n {
        DomNode::Element { name, .. } => {
            let root: String = "html".to_owned();
            *name == root
        },
        _ => false,
    }
}

impl LayoutBox {
    /// The formatting context governing this box's contents: the one it
    /// establishes if any, else the one it takes part in.
    pub fn formatting_context(&self) -> (c: ContextId)
        requires
            self matches LayoutBox::BlockContainer { participates, establishes, .. } ==> (
            establishes is Some || participates is Some),
        ensures
            c as nat == self.model().inner_context(),
    {
        match self {
            LayoutBox::BlockContainer { participates, establishes, .. } => match establishes {
                Some(c) => *c,
                None => {
                    match participates {
                        Some(c) => *c,
                        None => {
                            proof {
                                assert(false);
                            }
                            0
                        },
                    }
                },
            },
            LayoutBox::AnonymousBlock { establishes, .. } => *establishes,
            LayoutBox::Inline { participates, .. } => *participates,
            LayoutBox::RootInline { participates, .. } => *participates,
            LayoutBox::TextRun { participates, .. } => *participates,
        }
    }
}

/// Builds a fresh anonymous block box: it establishes a new independent
/// inline formatting context and holds one root inline box taking part
/// in that same context.
pub fn create_inline_container(
    participates: ContextId,
    registry: &mut FormattingContextRegistry,
) -> (r: LayoutBox)
    ensures
        final(registry)@ == old(registry)@.push(
            QualifiedFormattingContext::Independent(crate::context::FormattingContext::Inline),
        ),
        r.model() == spec_new_anonymous(
            participates as nat,
            old(registry)@.len(),
            Seq::<BoxModel>::empty(),
        ),
        r is AnonymousBlock,
        spec_anon_container_shape(r),
        r matches LayoutBox::AnonymousBlock { establishes, .. } ==> establishes == old(
            registry,
        )@.len(),
{
    let ifc = registry.new_independent_inline();
    let root = LayoutBox::RootInline { participates: ifc, children: Vec::new() };
    let mut anon_children: Vec<LayoutBox> = Vec::new();
    anon_children.push(root);
    proof {
        lemma_forest_model_push(Seq::<LayoutBox>::empty(), root);
        assert(forest_model(anon_children@) =~= seq![root.model()]);
        assert(root.model() == (BoxModel::RootInline {
            participates: ifc as nat,
            children: Seq::<BoxModel>::empty(),
        }));
    }
    LayoutBox::AnonymousBlock { participates, establishes: ifc, children: anon_children }
}

/// Returns the current inline container's inline context, creating and
/// appending the container first if the last sibling is not one.
pub fn get_or_create_inline_container(
    kids: &mut Vec<LayoutBox>,
    participates: ContextId,
    registry: &mut FormattingContextRegistry,
) -> (ifc: ContextId)
    requires
        kids_wf(old(kids)@, old(registry)@),
    ensures
        ({
            if spec_last_is_anonymous(forest_model(old(kids)@)) {
                &&& final(kids)@ == old(kids)@
                &&& final(registry)@ == old(registry)@
                &&& ifc as nat == spec_container_context(forest_model(old(kids)@))
            } else {
                &&& final(registry)@ == old(registry)@.push(
                    QualifiedFormattingContext::Independent(
                        crate::context::FormattingContext::Inline,
                    ),
                )
                &&& ifc == old(registry)@.len()
                &&& forest_model(final(kids)@) == forest_model(old(kids)@).push(
                    spec_new_anonymous(participates as nat, ifc as nat, Seq::<BoxModel>::empty()),
                )
            }
        }),
        ifc < final(registry)@.len(),
        final(kids)@.len() > 0,
        final(kids)@.last() matches LayoutBox::AnonymousBlock { establishes, .. } && establishes
            == ifc,
        spec_anon_container_shape(final(kids)@.last()),
        spec_last_is_anonymous(forest_model(final(kids)@)),
        spec_container_context(forest_model(final(kids)@)) == ifc as nat,
        kids_wf(final(kids)@, final(registry)@),
{
    proof {
        lemma_forest_model_index(kids@);
    }
    let len = kids.len();
    if len > 0 {
        let existing: Option<ContextId> = match &kids[len - 1] {
            LayoutBox::AnonymousBlock { establishes, .. } => Some(*establishes),
            _ => None,
        };
        if let Some(c) = existing {
            proof {
                assert(kids@.last() == kids@[len - 1]);
                assert(forest_model(kids@).last() == kids@.last().model());
                assert(spec_last_is_anonymous(forest_model(kids@)));
            }
            return c;
        }
        proof {
            assert(!spec_last_is_anonymous(forest_model(kids@)));
        }
    }
    let container = create_inline_container(participates, registry);
    let ghost pre = kids@;
    kids.push(container);
    proof {
        lemma_forest_model_push(pre, container);
        lemma_forest_model_index(kids@);
    }
    let ifc = match &kids[kids.len() - 1] {
        LayoutBox::AnonymousBlock { establishes, .. } => *establishes,
        _ => {
            proof {
                assert(false);
            }
            0
        },
    };
    ifc
}

/// Appends an inline-level box at the end of the current inline
/// container's root inline box.
pub fn append_inline_item(kids: &mut Vec<LayoutBox>, item: LayoutBox)
    requires
        old(kids)@.len() > 0,
        old(kids)@.last() is AnonymousBlock,
        spec_anon_container_shape(old(kids)@.last()),
    ensures
        forest_model(final(kids)@) == spec_append_inline(forest_model(old(kids)@), item.model()),
        final(kids)@.len() == old(kids)@.len(),
        final(kids)@.last() is AnonymousBlock,
        spec_anon_container_shape(final(kids)@.last()),
        spec_last_is_anonymous(forest_model(final(kids)@)),
        spec_container_context(forest_model(final(kids)@)) == spec_container_context(
            forest_model(old(kids)@),
        ),
{
    proof {
        lemma_forest_model_index(kids@);
    }
    let ghost pre = kids@;
    let anon = kids.pop().unwrap();
    proof {
        assert(anon == pre.last());
        assert(kids@ =~= pre.drop_last());
    }
    match anon {
        LayoutBox::AnonymousBlock { participates, establishes, children } => {
            let mut anon_children = children;
            let ghost anon_children0 = anon_children@;
            let root = anon_children.pop().unwrap();
            proof {
                lemma_forest_model_index(anon_children0);
                assert(root == anon_children0[0]);
                assert(forest_model(anon_children0) =~= seq![root.model()]);
            }
            match root {
                LayoutBox::RootInline { participates: root_participates, children: root_children,
                } => {
                    let mut items = root_children;
                    let ghost items_pre = items@;
                    items.push(item);
                    let new_root = LayoutBox::RootInline {
                        participates: root_participates,
                        children: items,
                    };
                    anon_children.push(new_root);
                    let new_anon = LayoutBox::AnonymousBlock {
                        participates,
                        establishes,
                        children: anon_children,
                    };
                    let ghost mid = kids@;
                    kids.push(new_anon);
                    proof {
                        lemma_forest_model_push(items_pre, item);
                        assert(anon_children@ =~= seq![new_root]);
                        lemma_forest_model_push(Seq::<LayoutBox>::empty(), new_root);
                        assert(forest_model(anon_children@) =~= seq![new_root.model()]);
                        lemma_forest_model_push(mid, new_anon);
                        lemma_forest_model_index(pre);
                        assert(forest_model(pre.drop_last()) =~= forest_model(pre).drop_last());
                        assert(forest_model(kids@) =~= spec_append_inline(
                            forest_model(pre),
                            item.model(),
                        ));
                    }
                },
                _ => {
                    proof {
                        assert(false);
                    }
                },
            }
        },
        _ => {
            proof {
                assert(false);
            }
        },
    }
}

/// A block container that establishes a fresh independent block
/// formatting context, childless.
fn establish_block(
    name: &String,
    parent_context: Option<ContextId>,
    registry: &mut FormattingContextRegistry,
) -> (r: LayoutBox)
    ensures
        final(registry)@ == old(registry)@ + spec_establish_block(
            name@,
            opt_id_model(parent_context),
            old(registry)@,
        ).created,
        BuildOutcome::Produced(r.model()) == spec_establish_block(
            name@,
            opt_id_model(parent_context),
            old(registry)@,
        ).outcome,
{
    let fresh = registry.new_independent_block();
    let r = LayoutBox::BlockContainer {
        name: name.clone(),
        participates: parent_context,
        establishes: Some(fresh),
        children: Vec::new(),
    };
    proof {
        assert(final(registry)@ =~= old(registry)@ + seq![
            QualifiedFormattingContext::Independent(crate::context::FormattingContext::Block),
        ]);
        assert(forest_model(Seq::<LayoutBox>::empty()) =~= Seq::<BoxModel>::empty());
    }
    r
}

/// The box classifier: from an element's resolved display value and the
/// offered context, the childless box the element generates, `Ok(None)`
/// for `display: none`, or the typed violation.
pub fn build_box_from_display(
    node: &DomNode,
    parent_context: Option<ContextId>,
    registry: &mut FormattingContextRegistry,
) -> (r: Result<Option<LayoutBox>, BuildError>)
    requires
        node is Element,
        parent_context matches Some(c) ==> c < old(registry)@.len(),
    ensures
        ({
            let head = spec_classify(
                node->Element_name@,
                node->Element_display,
                opt_id_model(parent_context),
                old(registry)@,
            );
            &&& final(registry)@ == old(registry)@ + head.created
            &&& spec_result_outcome(r) == head.outcome
        }),
{
    match node {
        DomNode::Element { name, display, .. } => {
            match *display {
                Display::NoBox => {
                    proof {
                        assert(final(registry)@ =~= old(registry)@ + Seq::<
                            QualifiedFormattingContext,
                        >::empty());
                    }
                    Ok(None)
                },
                Display::Full { outer, inner } => match (outer, inner) {
                    (OuterDisplay::Block, InnerDisplay::Flow) => {
                        let joined: Option<ContextId> = match parent_context {
                            Some(c) => {
                                if registry.is_block_formatting_context(c) {
                                    Some(c)
                                } else {
                                    None
                                }
                            },
                            None => None,
                        };
                        match joined {
                            Some(c) => {
                                let r = LayoutBox::BlockContainer {
                                    name: name.clone(),
                                    participates: Some(c),
                                    establishes: None,
                                    children: Vec::new(),
                                };
                                proof {
                                    assert(final(registry)@ =~= old(registry)@ + Seq::<
                                        QualifiedFormattingContext,
                                    >::empty());
                                    assert(forest_model(Seq::<LayoutBox>::empty()) =~= Seq::<
                                        BoxModel,
                                    >::empty());
                                }
                                Ok(Some(r))
                            },
                            None => Ok(Some(establish_block(name, parent_context, registry))),
                        }
                    },
                    (OuterDisplay::Block, InnerDisplay::FlowRoot) => Ok(
                        Some(establish_block(name, parent_context, registry)),
                    ),
                    (OuterDisplay::Inline, InnerDisplay::Flow) => {
                        proof {
                            assert(final(registry)@ =~= old(registry)@ + Seq::<
                                QualifiedFormattingContext,
                            >::empty());
                            assert(forest_model(Seq::<LayoutBox>::empty()) =~= Seq::<
                                BoxModel,
                            >::empty());
                        }
                        match parent_context {
                            Some(c) => {
                                if registry.is_inline_formatting_context(c) {
                                    Ok(
                                        Some(
                                            LayoutBox::Inline {
                                                name: name.clone(),
                                                participates: c,
                                                children: Vec::new(),
                                            },
                                        ),
                                    )
                                } else {
                                    Err(BuildError::NotInlineContext { subject: name.clone() })
                                }
                            },
                            None => Err(
                                BuildError::MissingInlineContext { subject: name.clone() },
                            ),
                        }
                    },
                    (OuterDisplay::Inline, InnerDisplay::FlowRoot) => {
                        proof {
                            assert(final(registry)@ =~= old(registry)@ + Seq::<
                                QualifiedFormattingContext,
                            >::empty());
                        }
                        Err(BuildError::UnsupportedInlineFlowRoot { subject: name.clone() })
                    },
                },
            }
        },
        _ => {
            proof {
                assert(false);
            }
            Ok(None)
        },
    }
}

/// Routes one child of the box being built: text and inline-level
/// children through the current inline container (or straight into an
/// inline parent), block-level children directly, `display: none`,
/// document and doctype children nowhere.
pub fn handle_child_node_by_display(
    child: &DomNode,
    parent_inline: bool,
    inner_ctx: ContextId,
    kids: &mut Vec<LayoutBox>,
    registry: &mut FormattingContextRegistry,
) -> (r: Result<(), BuildError>)
    requires
        inner_ctx < old(registry)@.len(),
        kids_wf(old(kids)@, old(registry)@),
    ensures
        ({
            let step = spec_handle_child(
                *child,
                parent_inline,
                inner_ctx as nat,
                forest_model(old(kids)@),
                old(registry)@,
            );
            &&& final(registry)@ == old(registry)@ + step.created
            &&& forest_model(final(kids)@) == step.kids
            &&& match r {
                Ok(_) => step.error is None,
                Err(e) => step.error == Some(e.model()),
            }
            &&& kids_wf(final(kids)@, final(registry)@)
        }),
    decreases spec_node_size(*child), 1int,
{
    match child {
        DomNode::Text { content } => {
            let t = trim_text(content.as_str());
            if t.as_str().is_empty() {
                proof {
                    assert(final(registry)@ =~= old(registry)@ + Seq::<
                        QualifiedFormattingContext,
                    >::empty());
                }
                return Ok(());
            }
            if parent_inline {
                let ghost pre = kids@;
                kids.push(LayoutBox::TextRun { participates: inner_ctx, content: t });
                proof {
                    lemma_forest_model_push(
                        pre,
                        LayoutBox::TextRun { participates: inner_ctx, content: t },
                    );
                    lemma_forest_model_index(kids@);
                    assert(final(registry)@ =~= old(registry)@ + Seq::<
                        QualifiedFormattingContext,
                    >::empty());
                }
                return Ok(());
            }
            let ifc = get_or_create_inline_container(kids, inner_ctx, registry);
            append_inline_item(kids, LayoutBox::TextRun { participates: ifc, content: t });
            proof {
                if spec_last_is_anonymous(forest_model(old(kids)@)) {
                    assert(final(registry)@ =~= old(registry)@ + Seq::<
                        QualifiedFormattingContext,
                    >::empty());
                } else {
                    assert(final(registry)@ =~= old(registry)@ + seq![
                        QualifiedFormattingContext::Independent(
                            crate::context::FormattingContext::Inline,
                        ),
                    ]);
                    assert(forest_model(final(kids)@) =~= spec_handle_child(
                        *child,
                        parent_inline,
                        inner_ctx as nat,
                        forest_model(old(kids)@),
                        old(registry)@,
                    ).kids);
                }
            }
            Ok(())
        },
        DomNode::Element { name, display, .. } => match *display {
            Display::NoBox => {
                proof {
                    assert(final(registry)@ =~= old(registry)@ + Seq::<
                        QualifiedFormattingContext,
                    >::empty());
                }
                Ok(())
            },
            Display::Full { outer, inner } => match (outer, inner) {
                (OuterDisplay::Block, _) => {
                    if parent_inline {
                        proof {
                            assert(final(registry)@ =~= old(registry)@ + Seq::<
                                QualifiedFormattingContext,
                            >::empty());
                        }
                        Err(BuildError::UnsupportedBlockInInline { subject: name.clone() })
                    } else {
                        match build_box_tree(child, Some(inner_ctx), registry) {
                            Ok(Some(b)) => {
                                proof {
                                    crate::semantics::lemma_built_box_is_principal(
                                        *child,
                                        Some(inner_ctx as nat),
                                        old(registry)@,
                                    );
                                }
                                let ghost pre = kids@;
                                kids.push(b);
                                proof {
                                    lemma_forest_model_push(pre, b);
                                    lemma_forest_model_index(kids@);
                                }
                                Ok(())
                            },
                            Ok(None) => Ok(()),
                            Err(e) => Err(e),
                        }
                    }
                },
                (OuterDisplay::Inline, InnerDisplay::Flow) => {
                    if parent_inline {
                        match build_box_tree(child, Some(inner_ctx), registry) {
                            Ok(Some(b)) => {
                                proof {
                                    crate::semantics::lemma_built_box_is_principal(
                                        *child,
                                        Some(inner_ctx as nat),
                                        old(registry)@,
                                    );
                                }
                                let ghost pre = kids@;
                                kids.push(b);
                                proof {
                                    lemma_forest_model_push(pre, b);
                                    lemma_forest_model_index(kids@);
                                }
                                Ok(())
                            },
                            Ok(None) => Ok(()),
                            Err(e) => Err(e),
                        }
                    } else {
                        let ifc = get_or_create_inline_container(kids, inner_ctx, registry);
                        match build_box_tree(child, Some(ifc), registry) {
                            Ok(Some(b)) => {
                                append_inline_item(kids, b);
                                Ok(())
                            },
                            Ok(None) => Ok(()),
                            Err(e) => Err(e),
                        }
                    }
                },
                (OuterDisplay::Inline, InnerDisplay::FlowRoot) => {
                    proof {
                        assert(final(registry)@ =~= old(registry)@ + Seq::<
                            QualifiedFormattingContext,
                        >::empty());
                    }
                    Err(BuildError::UnsupportedInlineFlowRoot { subject: name.clone() })
                },
            },
        },
        DomNode::Document { .. } => {
            proof {
                assert(final(registry)@ =~= old(registry)@ + Seq::<
                    QualifiedFormattingContext,
                >::empty());
            }
            Ok(())
        },
        DomNode::Doctype => {
            proof {
                assert(final(registry)@ =~= old(registry)@ + Seq::<
                    QualifiedFormattingContext,
                >::empty());
            }
            Ok(())
        },
    }
}

/// `shell` with its children replaced by `kids`.
fn attach_children(shell: LayoutBox, kids: Vec<LayoutBox>) -> (r: LayoutBox)
    ensures
        r.model() == spec_with_children(shell.model(), forest_model(kids@)),
{
    match shell {
        LayoutBox::BlockContainer { name, participates, establishes, children: _ } => (
        LayoutBox::BlockContainer { name, participates, establishes, children: kids }),
        LayoutBox::AnonymousBlock { participates, establishes, children: _ } => (
        LayoutBox::AnonymousBlock { participates, establishes, children: kids }),
        LayoutBox::Inline { name, participates, children: _ } => (LayoutBox::Inline {
            name,
            participates,
            children: kids,
        }),
        LayoutBox::RootInline { participates, children: _ } => (LayoutBox::RootInline {
            participates,
            children: kids,
        }),
        LayoutBox::TextRun { participates, content } => (LayoutBox::TextRun {
            participates,
            content,
        }),
    }
}

/// Takes a document node and builds the box tree of it and its children.
///
/// `parent_context` is the formatting context the box generated by this
/// node is offered to join; `None` means the box is expected to
/// establish its own.  Returns `Ok(None)` when the node generates no box
/// (whitespace-only text, `display: none`, a doctype, a document without
/// a markup root element), and a typed error when construction cannot
/// proceed.  For a document node, construction skips to the markup root
/// element among its children.
#[verifier::rlimit(50)]
pub fn build_box_tree(
    node: &DomNode,
    parent_context: Option<ContextId>,
    registry: &mut FormattingContextRegistry,
) -> (r: Result<Option<LayoutBox>, BuildError>)
    requires
        parent_context matches Some(c) ==> c < old(registry)@.len(),
    ensures
        ({
            let eff = spec_build_box_tree(*node, opt_id_model(parent_context), old(registry)@);
            &&& final(registry)@ == old(registry)@ + eff.created
            &&& spec_result_outcome(r) == eff.outcome
        }),
    decreases spec_node_size(*node), 0int,
{
    match node {
        DomNode::Document { children } => {
            let n = children.len();
            let mut i: usize = 0;
            while i < n
                invariant
                    i <= n,
                    n == children@.len(),
                    *node is Document,
                    node->Document_children@ == children@,
                    registry@ == old(registry)@,
                    forall|j: int| 0 <= j < i ==> !spec_is_root_element(#[trigger] children@[j]),
                decreases n - i,
            {
                proof {
                    assert(node.spec_children() == children@);
                    lemma_child_size_decreases(*node, i as int);
                }
                if is_root_element(&children[i]) {
                    let r = build_box_tree(&children[i], None, registry);
                    proof {
                        lemma_scan_skips_prefix(children@, i as int, old(registry)@);
                        let suffix = children@.subrange(i as int, n as int);
                        assert(suffix[0] == children@[i as int]);
                        assert(spec_scan_for_root(children@, old(registry)@)
                            == spec_build_box_tree(children@[i as int], None, old(registry)@));
                    }
                    return r;
                }
                i = i + 1;
            }
            proof {
                lemma_scan_skips_prefix(children@, n as int, old(registry)@);
                assert(children@.subrange(n as int, n as int).len() == 0);
                assert(final(registry)@ =~= old(registry)@ + Seq::<
                    QualifiedFormattingContext,
                >::empty());
            }
            Ok(None)
        },
        DomNode::Doctype => {
            proof {
                assert(final(registry)@ =~= old(registry)@ + Seq::<
                    QualifiedFormattingContext,
                >::empty());
            }
            Ok(None)
        },
        DomNode::Text { content } => {
            proof {
                assert(final(registry)@ =~= old(registry)@ + Seq::<
                    QualifiedFormattingContext,
                >::empty());
            }
            let t = trim_text(content.as_str());
            if t.as_str().is_empty() {
                return Ok(None);
            }
            match parent_context {
                None => Err(BuildError::MissingInlineContext { subject: t }),
                Some(c) => {
                    if registry.is_inline_formatting_context(c) {
                        Ok(Some(LayoutBox::TextRun { participates: c, content: t }))
                    } else {
                        Err(BuildError::NotInlineContext { subject: t })
                    }
                },
            }
        },
        DomNode::Element { children, .. } => {
            let head = build_box_from_display(node, parent_context, registry);
            let shell = match head {
                Ok(Some(b)) => b,
                Ok(None) => {
                    return Ok(None);
                },
                Err(e) => {
                    return Err(e);
                },
            };
            let ghost ctxs0 = old(registry)@;
            let ghost ctxs_mid = registry@;
            let ghost spec_shell = shell.model();
            let parent_inline = match &shell {
                LayoutBox::Inline { .. } => true,
                _ => false,
            };
            let inner_ctx = shell.formatting_context();
            proof {
                assert(inner_ctx < registry@.len());
            }
            let mut kids: Vec<LayoutBox> = Vec::new();
            let n = children.len();
            let mut i: usize = 0;
            while i < n
                invariant
                    i <= n,
                    n == children@.len(),
                    *node is Element,
                    node->Element_children@ == children@,
                    ctxs0 == old(registry)@,
                    inner_ctx < registry@.len(),
                    ctxs_mid == ctxs0 + spec_classify(
                        node->Element_name@,
                        node->Element_display,
                        opt_id_model(parent_context),
                        ctxs0,
                    ).created,
                    spec_classify(
                        node->Element_name@,
                        node->Element_display,
                        opt_id_model(parent_context),
                        ctxs0,
                    ).outcome == BuildOutcome::Produced(spec_shell),
                    parent_inline == (spec_shell matches BoxModel::Inline { .. }),
                    inner_ctx as nat == spec_shell.inner_context(),
                    ({
                        let f = spec_build_children(
                            children@.subrange(0, i as int),
                            parent_inline,
                            inner_ctx as nat,
                            ctxs_mid,
                        );
                        &&& f.error is None
                        &&& forest_model(kids@) == f.kids
                        &&& registry@ == ctxs_mid + f.created
                    }),
                    kids_wf(kids@, registry@),
                decreases n - i,
            {
                let ghost f_pre = spec_build_children(
                    children@.subrange(0, i as int),
                    parent_inline,
                    inner_ctx as nat,
                    ctxs_mid,
                );
                proof {
                    assert(node.spec_children() == children@);
                    lemma_child_size_decreases(*node, i as int);
                }
                let step_result = handle_child_node_by_display(
                    &children[i],
                    parent_inline,
                    inner_ctx,
                    &mut kids,
                    registry,
                );
                proof {
                    lemma_build_children_snoc(
                        children@,
                        i as int,
                        parent_inline,
                        inner_ctx as nat,
                        ctxs_mid,
                    );
                }
                match step_result {
                    Ok(_) => {},
                    Err(e) => {
                        proof {
                            let step = spec_handle_child(
                                children@[i as int],
                                parent_inline,
                                inner_ctx as nat,
                                f_pre.kids,
                                ctxs_mid + f_pre.created,
                            );
                            assert(step.error == Some(e.model()));
                            let f_next = spec_build_children(
                                children@.subrange(0, i as int + 1),
                                parent_inline,
                                inner_ctx as nat,
                                ctxs_mid,
                            );
                            assert(f_next.error == step.error);
                            assert(f_next.created == f_pre.created + step.created);
                            lemma_build_children_error_stops(
                                children@,
                                i as int + 1,
                                parent_inline,
                                inner_ctx as nat,
                                ctxs_mid,
                            );
                            let f_all = spec_build_children(
                                children@,
                                parent_inline,
                                inner_ctx as nat,
                                ctxs_mid,
                            );
                            assert(f_all == f_next);
                            let head = spec_classify(
                                node->Element_name@,
                                node->Element_display,
                                opt_id_model(parent_context),
                                ctxs0,
                            );
                            let eff = spec_build_box_tree(
                                *node,
                                opt_id_model(parent_context),
                                ctxs0,
                            );
                            assert(eff.outcome == BuildOutcome::Failed(e.model()));
                            assert(eff.created == head.created + f_all.created);
                            assert(registry@ =~= ctxs0 + (head.created + f_all.created));
                        }
                        return Err(e);
                    },
                }
                i = i + 1;
            }
            proof {
                assert(children@.subrange(0, n as int) =~= children@);
                let f_all = spec_build_children(
                    children@,
                    parent_inline,
                    inner_ctx as nat,
                    ctxs_mid,
                );
                assert(registry@ =~= ctxs0 + (spec_classify(
                    node->Element_name@,
                    node->Element_display,
                    opt_id_model(parent_context),
                    ctxs0,
                ).created + f_all.created));
            }
            Ok(Some(attach_children(shell, kids)))
        },
    }
}

} // verus!
