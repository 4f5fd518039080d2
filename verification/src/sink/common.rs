//! What the trees have in common.

use vstd::prelude::*;
use crate::tokenizer::interface::{Attribute, AttributeView, attrs_view};
use crate::util::atom::Atom;

verus! {

/// The different kinds of nodes in the DOM.
#[derive(Debug)]
pub enum NodeEnum {
    /// The `Document` itself.
    Document,
    /// A `DOCTYPE` with name, public id, and system id.
    Doctype(String, String, String),
    /// A text node.
    Text(String),
    /// A comment.
    Comment(String),
    /// An element with attributes.
    Element(Atom, Vec<Attribute>),
}

/// The contents of a `NodeEnum`.
#[verifier::ext_equal]
pub enum NodeEnumView {
    Document,
    Doctype(Seq<char>, Seq<char>, Seq<char>),
    Text(Seq<char>),
    Comment(Seq<char>),
    Element(Seq<char>, Seq<AttributeView>),
}

impl View for NodeEnum {
    type V = NodeEnumView;

    open spec fn view(&self) -> NodeEnumView {
        match *self {
            NodeEnum::Document => NodeEnumView::Document,
            NodeEnum::Doctype(name, public_id, system_id) => NodeEnumView::Doctype(
                name@,
                public_id@,
                system_id@,
            ),
            NodeEnum::Text(s) => NodeEnumView::Text(s@),
            NodeEnum::Comment(s) => NodeEnumView::Comment(s@),
            NodeEnum::Element(name, attrs) => NodeEnumView::Element(name@, attrs_view(attrs@)),
        }
    }
}

impl Clone for NodeEnum {
    fn clone(&self) -> (r: NodeEnum)
        ensures
            r@ == self@,
    {
        match self {
            NodeEnum::Document => NodeEnum::Document,
            NodeEnum::Doctype(name, public_id, system_id) => NodeEnum::Doctype(
                name.clone(),
                public_id.clone(),
                system_id.clone(),
            ),
            NodeEnum::Text(s) => NodeEnum::Text(s.clone()),
            NodeEnum::Comment(s) => NodeEnum::Comment(s.clone()),
            NodeEnum::Element(name, attrs) => {
                let mut copies: Vec<Attribute> = Vec::new();
                let mut i: usize = 0;
                while i < attrs.len()
                    invariant
                        i <= attrs@.len(),
                        attrs_view(copies@) == attrs_view(attrs@).take(i as int),
                    decreases attrs@.len() - i,
                {
                    let ghost pre = copies@;
                    let attr = attrs[i].clone();
                    copies.push(attr);
                    assert(attrs_view(copies@) =~= attrs_view(pre).push(attr@));
                    assert(attrs_view(attrs@).take(i + 1) =~= attrs_view(attrs@).take(
                        i as int,
                    ).push(attrs_view(attrs@)[i as int]));
                    i += 1;
                }
                assert(attrs_view(attrs@).take(i as int) =~= attrs_view(attrs@));
                NodeEnum::Element(name.clone(), copies)
            },
        }
    }
}

} // verus!
