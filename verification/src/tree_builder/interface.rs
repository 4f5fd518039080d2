//! What the tree builder asks of the tree that it builds.

use vstd::prelude::*;
use crate::tokenizer::interface::{Attribute, AttributeView, attrs_view};
use crate::util::atom::Atom;
use crate::util::maybe_owned::MaybeOwned;
use crate::util::namespace::Namespace;

verus! {

/// A document's quirks mode.
#[derive(Clone, Copy, PartialEq, Eq, Structural, Debug, Hash)]
pub enum QuirksMode {
    Quirks,
    LimitedQuirks,
    NoQuirks,
}

/// Something which can be inserted in the tree.
///
/// Adjacent sibling text nodes are merged into a single node, so the sink may not want
/// to allocate a `Handle` for each.
#[derive(Debug)]
pub enum NodeOrText<Handle> {
    AppendNode(Handle),
    AppendText(String),
}

/// The contents of a `NodeOrText`.
pub enum NodeOrTextView<Handle> {
    AppendNode(Handle),
    AppendText(Seq<char>),
}

impl<Handle> View for NodeOrText<Handle> {
    type V = NodeOrTextView<Handle>;

    open spec fn view(&self) -> NodeOrTextView<Handle> {
        match *self {
            NodeOrText::AppendNode(h) => NodeOrTextView::AppendNode(h),
            NodeOrText::AppendText(s) => NodeOrTextView::AppendText(s@),
        }
    }
}

/// One call that was made to a `TreeSink`, with what it returned.
pub enum TreeCall<Handle> {
    ParseError(Seq<char>),
    GetDocument(Handle),
    SetQuirksMode(QuirksMode),
    CreateElement(Namespace, Seq<char>, Seq<AttributeView>, Handle),
    CreateComment(Seq<char>, Handle),
    Append(Handle, NodeOrTextView<Handle>),
    AppendBeforeSibling(Handle, NodeOrTextView<Handle>, bool),
    AppendDoctypeToDocument(Seq<char>, Seq<char>, Seq<char>),
    AddAttrsIfMissing(Handle, Seq<AttributeView>),
    RemoveFromParent(Handle),
    MarkScriptAlreadyStarted(Handle),
}

/// Types which can process tree modifications from the tree builder.
///
/// What the ghost functions are is for a sink to say. One that is not verified says
/// nothing.
pub trait TreeSink<Handle> {
    /// The calls that were made, oldest first.
    open spec fn calls(&self) -> Seq<TreeCall<Handle>> {
        arbitrary()
    }

    /// Does the tree hold together?
    open spec fn inv(&self) -> bool {
        arbitrary()
    }

    /// Is this a node of the tree, or one that can still be put into it?
    open spec fn is_node(&self, target: Handle) -> bool {
        arbitrary()
    }

    /// Is this a node without a parent?
    open spec fn is_orphan(&self, target: Handle) -> bool {
        arbitrary()
    }

    /// The name of an element. Other nodes have none.
    open spec fn name_of(&self, target: Handle) -> Option<(Namespace, Seq<char>)> {
        arbitrary()
    }

    /// Can elements of this namespace be created?
    open spec fn has_namespace(&self, ns: Namespace) -> bool {
        arbitrary()
    }

    /// Signal a parse error.
    fn parse_error(&mut self, msg: MaybeOwned)
        requires
            old(self).inv(),
        ensures
            final(self).inv(),
            final(self).calls() == old(self).calls().push(TreeCall::ParseError(msg@)),
    ;

    /// Get a handle to the `Document` node.
    fn get_document(&mut self) -> (r: Handle)
        requires
            old(self).inv(),
        ensures
            final(self).inv(),
            final(self).calls() == old(self).calls().push(TreeCall::GetDocument(r)),
            final(self).is_node(r),
    ;

    /// Set the document's quirks mode.
    fn set_quirks_mode(&mut self, mode: QuirksMode)
        requires
            old(self).inv(),
        ensures
            final(self).inv(),
            final(self).calls() == old(self).calls().push(TreeCall::SetQuirksMode(mode)),
    ;

    /// Do two handles refer to the same node?
    fn same_node(&self, x: Handle, y: Handle) -> (r: bool)
        ensures
            r == (x == y),
    ;

    /// What is the name of this element?
    fn elem_name(&self, target: &Handle) -> (r: (Namespace, Atom))
        requires
            self.inv(),
            self.name_of(*target) is Some,
        ensures
            (r.0, r.1@) == self.name_of(*target)->0,
    ;

    /// Create an element.
    fn create_element(&mut self, ns: Namespace, name: Atom, attrs: Vec<Attribute>) -> (r: Handle)
        requires
            old(self).inv(),
            old(self).has_namespace(ns),
        ensures
            final(self).inv(),
            final(self).calls() == old(self).calls().push(
                TreeCall::CreateElement(ns, name@, attrs_view(attrs@), r),
            ),
            final(self).is_orphan(r),
            final(self).name_of(r) == Some((ns, name@)),
    ;

    /// Create a comment node.
    fn create_comment(&mut self, text: String) -> (r: Handle)
        requires
            old(self).inv(),
        ensures
            final(self).inv(),
            final(self).calls() == old(self).calls().push(TreeCall::CreateComment(text@, r)),
            final(self).is_orphan(r),
    ;

    /// Append a node as the last child of the given node. If this would produce adjacent
    /// sibling text nodes, it concatenates the text instead. The child node must not
    /// already have a parent.
    fn append(&mut self, parent: Handle, child: NodeOrText<Handle>)
        requires
            old(self).inv(),
            old(self).is_node(parent),
            child matches NodeOrText::AppendNode(h) ==> old(self).is_orphan(h),
        ensures
            final(self).inv(),
            final(self).calls() == old(self).calls().push(TreeCall::Append(parent, child@)),
    ;

    /// Put a node before the given node, among the children of its parent. If it has no
    /// parent, do nothing and give the new node back.
    fn append_before_sibling(&mut self, sibling: Handle, new_node: NodeOrText<Handle>) -> (r: Result<
        (),
        NodeOrText<Handle>,
    >)
        requires
            old(self).inv(),
            old(self).is_node(sibling),
            new_node matches NodeOrText::AppendNode(h) ==> old(self).is_node(h),
        ensures
            final(self).inv(),
            final(self).calls() == old(self).calls().push(
                TreeCall::AppendBeforeSibling(sibling, new_node@, r is Ok),
            ),
            r matches Err(back) ==> back@ == new_node@,
    ;

    /// Append a `DOCTYPE` element to the `Document` node.
    fn append_doctype_to_document(&mut self, name: String, public_id: String, system_id: String)
        requires
            old(self).inv(),
        ensures
            final(self).inv(),
            final(self).calls() == old(self).calls().push(
                TreeCall::AppendDoctypeToDocument(name@, public_id@, system_id@),
            ),
    ;

    /// Add each attribute to the given element, if no attribute with that name already
    /// exists.
    fn add_attrs_if_missing(&mut self, target: Handle, attrs: Vec<Attribute>)
        requires
            old(self).inv(),
            old(self).is_node(target),
        ensures
            final(self).inv(),
            final(self).calls() == old(self).calls().push(
                TreeCall::AddAttrsIfMissing(target, attrs_view(attrs@)),
            ),
    ;

    /// Detach the given node from its parent.
    fn remove_from_parent(&mut self, target: Handle)
        requires
            old(self).inv(),
            old(self).is_node(target),
        ensures
            final(self).inv(),
            final(self).calls() == old(self).calls().push(TreeCall::RemoveFromParent(target)),
    ;

    /// Mark a HTML `<script>` element as "already started".
    fn mark_script_already_started(&mut self, node: Handle)
        requires
            old(self).inv(),
        ensures
            final(self).inv(),
            final(self).calls() == old(self).calls().push(TreeCall::MarkScriptAlreadyStarted(node)),
    ;
}

} // verus!
