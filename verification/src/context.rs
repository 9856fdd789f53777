//! Formatting contexts and the registry that owns them.
//!
//! A formatting context is a layout mode (block or inline) together with a
//! qualifier saying whether the box it belongs to established it fresh
//! (independent) or merely takes part in one established by an ancestor
//! (dependent).  Context instances are shared by every box that takes part
//! in them; instead of reference-counted handles, this crate keeps every
//! instance in a registry and hands out stable identifiers, so that "same
//! instance" is identifier equality.

use vstd::prelude::*;

verus! {

/// The two formatting-context kinds.
#[derive(Clone, Copy, Debug, PartialEq, Eq, Structural)]
pub enum FormattingContext {
    Block,
    Inline,
}

/// A formatting-context record: its kind, qualified by whether the context
/// was established fresh (`Independent`) or stands for taking part in an
/// ancestor's context (`Dependent`).
#[derive(Clone, Copy, Debug, PartialEq, Eq, Structural)]
pub enum QualifiedFormattingContext {
    Independent(FormattingContext),
    Dependent(FormattingContext),
}

impl QualifiedFormattingContext {
    /// The kind of the context, ignoring the qualifier.
    pub open spec fn kind(self) -> FormattingContext {
        match self {
            QualifiedFormattingContext::Independent(k) => k,
            QualifiedFormattingContext::Dependent(k) => k,
        }
    }
}

/// A stable identifier of one formatting-context instance: its index in
/// the registry that created it.
pub type ContextId = usize;

/// Owns every formatting-context instance created during one construction
/// pass.  Instances are only ever appended, so identifiers stay stable.
#[derive(Debug)]
pub struct FormattingContextRegistry {
    records: Vec<QualifiedFormattingContext>,
}

impl View for FormattingContextRegistry {
    type V = Seq<QualifiedFormattingContext>;

    closed spec fn view(&self) -> Seq<QualifiedFormattingContext> {
        self.records@
    }
}

impl FormattingContextRegistry {
    /// An empty registry, holding no contexts yet.
    pub fn new() -> (r: FormattingContextRegistry)
        ensures
            r@ == Seq::<QualifiedFormattingContext>::empty(),
    {
        FormattingContextRegistry { records: Vec::new() }
    }

    /// Whether `id` names a context of this registry.
    pub fn contains(&self, id: ContextId) -> (r: bool)
        ensures
            r == (id < self@.len()),
    {
        id < self.records.len()
    }

    /// How many contexts have been created.
    pub fn len(&self) -> (r: usize)
        ensures
            r == self@.len(),
    {
        self.records.len()
    }

    /// The record behind an identifier.
    pub fn record(&self, id: ContextId) -> (r: QualifiedFormattingContext)
        requires
            id < self@.len(),
        ensures
            r == self@[id as int],
    {
        self.records[id]
    }

    /// Establishes a fresh independent block formatting context.
    pub fn new_independent_block(&mut self) -> (id: ContextId)
        ensures
            final(self)@ == old(self)@.push(
                QualifiedFormattingContext::Independent(FormattingContext::Block),
            ),
            id == old(self)@.len(),
    {
        let id = self.records.len();
        self.records.push(QualifiedFormattingContext::Independent(FormattingContext::Block));
        id
    }

    /// Establishes a fresh independent inline formatting context.
    pub fn new_independent_inline(&mut self) -> (id: ContextId)
        ensures
            final(self)@ == old(self)@.push(
                QualifiedFormattingContext::Independent(FormattingContext::Inline),
            ),
            id == old(self)@.len(),
    {
        let id = self.records.len();
        self.records.push(QualifiedFormattingContext::Independent(FormattingContext::Inline));
        id
    }

    /// Whether `id` names an inline formatting context (of either
    /// qualifier).
    pub fn is_inline_formatting_context(&self, id: ContextId) -> (r: bool)
        requires
            id < self@.len(),
        ensures
            r == (self@[id as int].kind() == FormattingContext::Inline),
    {
        match self.records[id] {
            QualifiedFormattingContext::Independent(FormattingContext::Inline) => true,
            QualifiedFormattingContext::Dependent(FormattingContext::Inline) => true,
            _ => false,
        }
    }

    /// Whether `id` names a block formatting context (of either
    /// qualifier).
    pub fn is_block_formatting_context(&self, id: ContextId) -> (r: bool)
        requires
            id < self@.len(),
        ensures
            r == (self@[id as int].kind() == FormattingContext::Block),
    {
        match self.records[id] {
            QualifiedFormattingContext::Independent(FormattingContext::Block) => true,
            QualifiedFormattingContext::Dependent(FormattingContext::Block) => true,
            _ => false,
        }
    }
}

} // verus!
