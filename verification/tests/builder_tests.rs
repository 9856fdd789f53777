use box_tree::builder::{
    append_inline_item, build_box_from_display, build_box_tree, get_or_create_inline_container,
};
use box_tree::context::{
    ContextId, FormattingContext, FormattingContextRegistry, QualifiedFormattingContext,
};
use box_tree::display::{Display, InnerDisplay, OuterDisplay};
use box_tree::dom::DomNode;
use box_tree::layout_box::{BuildError, LayoutBox};
use box_tree::text::trim_text;

fn elem(name: &str, outer: OuterDisplay, inner: InnerDisplay, children: Vec<DomNode>) -> DomNode {
    DomNode::Element {
        name: name.to_owned(),
        display: Display::Full { outer, inner },
        children,
    }
}

fn block(name: &str, children: Vec<DomNode>) -> DomNode {
    elem(name, OuterDisplay::Block, InnerDisplay::Flow, children)
}

fn inline(name: &str, children: Vec<DomNode>) -> DomNode {
    elem(name, OuterDisplay::Inline, InnerDisplay::Flow, children)
}

fn text(content: &str) -> DomNode {
    DomNode::Text { content: content.to_owned() }
}

fn hidden(name: &str, children: Vec<DomNode>) -> DomNode {
    DomNode::Element { name: name.to_owned(), display: Display::NoBox, children }
}

fn text_run(participates: ContextId, content: &str) -> LayoutBox {
    LayoutBox::TextRun { participates, content: content.to_owned() }
}

#[test]
fn trims_surrounding_whitespace() {
    assert_eq!(trim_text("  hello  "), "hello".to_owned());
    assert_eq!(trim_text("\t\n hi \r\n"), "hi".to_owned());
    assert_eq!(trim_text("hi"), "hi".to_owned());
    assert_eq!(trim_text("   "), "".to_owned());
    assert_eq!(trim_text(""), "".to_owned());
}

#[test]
fn text_node_yields_trimmed_text_run() {
    let mut registry = FormattingContextRegistry::new();
    let ifc = registry.new_independent_inline();
    let r = build_box_tree(&text("  hello  "), Some(ifc), &mut registry);
    assert_eq!(r, Ok(Some(text_run(ifc, "hello"))));
}

#[test]
fn whitespace_only_text_yields_no_box() {
    let mut registry = FormattingContextRegistry::new();
    let ifc = registry.new_independent_inline();
    assert_eq!(build_box_tree(&text("   \t\n"), Some(ifc), &mut registry), Ok(None));
    assert_eq!(build_box_tree(&text(""), None, &mut registry), Ok(None));
    assert_eq!(registry.len(), 1);
}

#[test]
fn text_without_context_is_a_contract_violation() {
    let mut registry = FormattingContextRegistry::new();
    let r = build_box_tree(&text(" hi "), None, &mut registry);
    assert_eq!(r, Err(BuildError::MissingInlineContext { subject: "hi".to_owned() }));
}

#[test]
fn text_with_block_context_is_a_contract_violation() {
    let mut registry = FormattingContextRegistry::new();
    let bfc = registry.new_independent_block();
    let r = build_box_tree(&text("hi"), Some(bfc), &mut registry);
    assert_eq!(r, Err(BuildError::NotInlineContext { subject: "hi".to_owned() }));
}

#[test]
fn inline_element_without_context_is_a_contract_violation() {
    let mut registry = FormattingContextRegistry::new();
    let r = build_box_tree(&inline("span", vec![]), None, &mut registry);
    assert_eq!(r, Err(BuildError::MissingInlineContext { subject: "span".to_owned() }));
}

#[test]
fn inline_element_with_block_context_is_a_contract_violation() {
    let mut registry = FormattingContextRegistry::new();
    let bfc = registry.new_independent_block();
    let r = build_box_tree(&inline("span", vec![]), Some(bfc), &mut registry);
    assert_eq!(r, Err(BuildError::NotInlineContext { subject: "span".to_owned() }));
}

#[test]
fn inline_flow_root_is_unsupported() {
    let mut registry = FormattingContextRegistry::new();
    let ifc = registry.new_independent_inline();
    let node = elem("button", OuterDisplay::Inline, InnerDisplay::FlowRoot, vec![]);
    let r = build_box_tree(&node, Some(ifc), &mut registry);
    assert_eq!(r, Err(BuildError::UnsupportedInlineFlowRoot { subject: "button".to_owned() }));
}

#[test]
fn block_inside_inline_is_unsupported() {
    let mut registry = FormattingContextRegistry::new();
    let ifc = registry.new_independent_inline();
    let node = inline("span", vec![block("div", vec![])]);
    let r = build_box_tree(&node, Some(ifc), &mut registry);
    assert_eq!(r, Err(BuildError::UnsupportedBlockInInline { subject: "div".to_owned() }));
}

#[test]
fn display_none_suppresses_subtree() {
    let mut registry = FormattingContextRegistry::new();
    let node = hidden("div", vec![block("child", vec![]), text("kept out")]);
    assert_eq!(build_box_tree(&node, None, &mut registry), Ok(None));
    assert_eq!(registry.len(), 0);
}

#[test]
fn doctype_yields_no_box() {
    let mut registry = FormattingContextRegistry::new();
    assert_eq!(build_box_tree(&DomNode::Doctype, None, &mut registry), Ok(None));
    assert_eq!(registry.len(), 0);
}

#[test]
fn document_without_markup_root_yields_no_box() {
    let mut registry = FormattingContextRegistry::new();
    let doc = DomNode::Document { children: vec![DomNode::Doctype, block("body", vec![])] };
    assert_eq!(build_box_tree(&doc, None, &mut registry), Ok(None));
    assert_eq!(registry.len(), 0);
}

#[test]
fn document_root_skipping_builds_same_tree() {
    let root = block("html", vec![block("body", vec![text("x")])]);
    let doc = DomNode::Document {
        children: vec![DomNode::Doctype, block("html", vec![block("body", vec![text("x")])])],
    };

    let mut registry_doc = FormattingContextRegistry::new();
    let from_doc = build_box_tree(&doc, None, &mut registry_doc);
    let mut registry_root = FormattingContextRegistry::new();
    let from_root = build_box_tree(&root, None, &mut registry_root);

    assert_eq!(from_doc, from_root);
    assert_eq!(registry_doc.len(), registry_root.len());
    assert!(from_doc.unwrap().is_some());
}

#[test]
fn block_flow_joins_offered_block_context() {
    let mut registry = FormattingContextRegistry::new();
    let node = block("body", vec![block("one", vec![]), block("two", vec![])]);
    let r = build_box_tree(&node, None, &mut registry).unwrap().unwrap();
    assert_eq!(
        r,
        LayoutBox::BlockContainer {
            name: "body".to_owned(),
            participates: None,
            establishes: Some(0),
            children: vec![
                LayoutBox::BlockContainer {
                    name: "one".to_owned(),
                    participates: Some(0),
                    establishes: None,
                    children: vec![],
                },
                LayoutBox::BlockContainer {
                    name: "two".to_owned(),
                    participates: Some(0),
                    establishes: None,
                    children: vec![],
                },
            ],
        }
    );
    assert_eq!(registry.len(), 1);
    assert_eq!(
        registry.record(0),
        QualifiedFormattingContext::Independent(FormattingContext::Block)
    );
}

#[test]
fn sibling_blocks_share_one_context_instance() {
    let mut registry = FormattingContextRegistry::new();
    let node = block("body", vec![block("one", vec![]), block("two", vec![])]);
    let r = build_box_tree(&node, None, &mut registry).unwrap().unwrap();
    match r {
        LayoutBox::BlockContainer { children, .. } => {
            let shared: Vec<Option<ContextId>> = children
                .iter()
                .map(|c| match c {
                    LayoutBox::BlockContainer { participates, .. } => *participates,
                    _ => None,
                })
                .collect();
            assert_eq!(shared, vec![Some(0), Some(0)]);
        }
        other => panic!("expected a block container, got {:?}", other),
    }
}

#[test]
fn block_flow_root_always_establishes_fresh_context() {
    let mut registry = FormattingContextRegistry::new();
    let bfc = registry.new_independent_block();
    let node = elem("aside", OuterDisplay::Block, InnerDisplay::FlowRoot, vec![]);
    let r = build_box_tree(&node, Some(bfc), &mut registry).unwrap().unwrap();
    assert_eq!(
        r,
        LayoutBox::BlockContainer {
            name: "aside".to_owned(),
            participates: Some(bfc),
            establishes: Some(1),
            children: vec![],
        }
    );
    assert_eq!(
        registry.record(1),
        QualifiedFormattingContext::Independent(FormattingContext::Block)
    );
}

#[test]
fn anonymous_container_grouping_breaks_at_block_sibling() {
    let mut registry = FormattingContextRegistry::new();
    let node = block(
        "div",
        vec![inline("a", vec![]), text("x"), block("b", vec![]), inline("c", vec![])],
    );
    let r = build_box_tree(&node, None, &mut registry).unwrap().unwrap();
    assert_eq!(
        r,
        LayoutBox::BlockContainer {
            name: "div".to_owned(),
            participates: None,
            establishes: Some(0),
            children: vec![
                LayoutBox::AnonymousBlock {
                    participates: 0,
                    establishes: 1,
                    children: vec![LayoutBox::RootInline {
                        participates: 1,
                        children: vec![
                            LayoutBox::Inline {
                                name: "a".to_owned(),
                                participates: 1,
                                children: vec![],
                            },
                            text_run(1, "x"),
                        ],
                    }],
                },
                LayoutBox::BlockContainer {
                    name: "b".to_owned(),
                    participates: Some(0),
                    establishes: None,
                    children: vec![],
                },
                LayoutBox::AnonymousBlock {
                    participates: 0,
                    establishes: 2,
                    children: vec![LayoutBox::RootInline {
                        participates: 2,
                        children: vec![LayoutBox::Inline {
                            name: "c".to_owned(),
                            participates: 2,
                            children: vec![],
                        }],
                    }],
                },
            ],
        }
    );
    assert_eq!(registry.len(), 3);
    assert_eq!(
        registry.record(1),
        QualifiedFormattingContext::Independent(FormattingContext::Inline)
    );
    assert_eq!(
        registry.record(2),
        QualifiedFormattingContext::Independent(FormattingContext::Inline)
    );
}

#[test]
fn end_to_end_body_div_text_span() {
    let mut registry = FormattingContextRegistry::new();
    let node = block(
        "body",
        vec![block("div", vec![text("A"), inline("span", vec![text("B")])])],
    );
    let r = build_box_tree(&node, None, &mut registry).unwrap().unwrap();
    assert_eq!(
        r,
        LayoutBox::BlockContainer {
            name: "body".to_owned(),
            participates: None,
            establishes: Some(0),
            children: vec![LayoutBox::BlockContainer {
                name: "div".to_owned(),
                participates: Some(0),
                establishes: None,
                children: vec![LayoutBox::AnonymousBlock {
                    participates: 0,
                    establishes: 1,
                    children: vec![LayoutBox::RootInline {
                        participates: 1,
                        children: vec![
                            text_run(1, "A"),
                            LayoutBox::Inline {
                                name: "span".to_owned(),
                                participates: 1,
                                children: vec![text_run(1, "B")],
                            },
                        ],
                    }],
                }],
            }],
        }
    );
    assert_eq!(registry.len(), 2);
    assert_eq!(
        registry.record(0),
        QualifiedFormattingContext::Independent(FormattingContext::Block)
    );
    assert_eq!(
        registry.record(1),
        QualifiedFormattingContext::Independent(FormattingContext::Inline)
    );
}

#[test]
fn failure_keeps_contexts_created_before_it() {
    let mut registry = FormattingContextRegistry::new();
    let node = block(
        "div",
        vec![text("x"), elem("bad", OuterDisplay::Inline, InnerDisplay::FlowRoot, vec![])],
    );
    let r = build_box_tree(&node, None, &mut registry);
    assert_eq!(r, Err(BuildError::UnsupportedInlineFlowRoot { subject: "bad".to_owned() }));
    assert_eq!(registry.len(), 2);
    assert!(registry.is_block_formatting_context(0));
    assert!(registry.is_inline_formatting_context(1));
}

#[test]
fn display_none_child_does_not_break_inline_run() {
    let mut registry = FormattingContextRegistry::new();
    let node = block("div", vec![text("x"), hidden("gone", vec![]), text("y")]);
    let r = build_box_tree(&node, None, &mut registry).unwrap().unwrap();
    match r {
        LayoutBox::BlockContainer { children, .. } => {
            assert_eq!(children.len(), 1);
            match &children[0] {
                LayoutBox::AnonymousBlock { children: anon_children, .. } => {
                    match &anon_children[0] {
                        LayoutBox::RootInline { children: runs, .. } => {
                            assert_eq!(runs.len(), 2);
                            assert_eq!(runs[0], text_run(1, "x"));
                            assert_eq!(runs[1], text_run(1, "y"));
                        }
                        other => panic!("expected a root inline box, got {:?}", other),
                    }
                }
                other => panic!("expected an anonymous block box, got {:?}", other),
            }
        }
        other => panic!("expected a block container, got {:?}", other),
    }
}

#[test]
fn registry_reports_kinds_and_records() {
    let mut registry = FormattingContextRegistry::new();
    assert_eq!(registry.len(), 0);
    assert!(!registry.contains(0));
    let b = registry.new_independent_block();
    let i = registry.new_independent_inline();
    assert_eq!((b, i), (0, 1));
    assert!(registry.contains(0) && registry.contains(1) && !registry.contains(2));
    assert!(registry.is_block_formatting_context(b));
    assert!(!registry.is_inline_formatting_context(b));
    assert!(registry.is_inline_formatting_context(i));
    assert_eq!(
        registry.record(i),
        QualifiedFormattingContext::Independent(FormattingContext::Inline)
    );
}

#[test]
fn classifier_joins_and_establishes_per_table() {
    let mut registry = FormattingContextRegistry::new();
    let bfc = registry.new_independent_block();

    let joined = build_box_from_display(&block("p", vec![]), Some(bfc), &mut registry);
    assert_eq!(
        joined,
        Ok(Some(LayoutBox::BlockContainer {
            name: "p".to_owned(),
            participates: Some(bfc),
            establishes: None,
            children: vec![],
        }))
    );
    assert_eq!(registry.len(), 1);

    let ifc = registry.new_independent_inline();
    let fresh = build_box_from_display(&block("p", vec![]), Some(ifc), &mut registry);
    assert_eq!(
        fresh,
        Ok(Some(LayoutBox::BlockContainer {
            name: "p".to_owned(),
            participates: Some(ifc),
            establishes: Some(2),
            children: vec![],
        }))
    );

    let none = build_box_from_display(&hidden("p", vec![]), Some(bfc), &mut registry);
    assert_eq!(none, Ok(None));
}

#[test]
fn inline_container_is_created_once_and_reused() {
    let mut registry = FormattingContextRegistry::new();
    let bfc = registry.new_independent_block();
    let mut kids: Vec<LayoutBox> = Vec::new();

    let ifc = get_or_create_inline_container(&mut kids, bfc, &mut registry);
    assert_eq!(ifc, 1);
    assert_eq!(kids.len(), 1);
    let again = get_or_create_inline_container(&mut kids, bfc, &mut registry);
    assert_eq!(again, ifc);
    assert_eq!(kids.len(), 1);
    assert_eq!(registry.len(), 2);

    append_inline_item(&mut kids, text_run(ifc, "x"));
    assert_eq!(
        kids,
        vec![LayoutBox::AnonymousBlock {
            participates: bfc,
            establishes: ifc,
            children: vec![LayoutBox::RootInline {
                participates: ifc,
                children: vec![text_run(ifc, "x")],
            }],
        }]
    );
}
