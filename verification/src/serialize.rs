//! What a serializer is asked to write.

use vstd::prelude::*;
use crate::tokenizer::interface::{Attribute, AttributeView, attrs_view};
use crate::util::atom::Atom;
use crate::util::namespace::Namespace;

verus! {

/// One call to a serializer.
#[derive(Debug)]
pub enum SerializeCall<'a> {
    /// The start of an element, with its attributes.
    StartElem(Namespace, &'a Atom, &'a Vec<Attribute>),
    /// The end of an element.
    EndElem(Namespace, &'a Atom),
    /// A doctype, by its name.
    WriteDoctype(&'a str),
    /// Text.
    WriteText(&'a str),
    /// A comment.
    WriteComment(&'a str),
}

/// The contents of a `SerializeCall`.
#[verifier::ext_equal]
pub enum SerializeCallView {
    StartElem(Namespace, Seq<char>, Seq<AttributeView>),
    EndElem(Namespace, Seq<char>),
    WriteDoctype(Seq<char>),
    WriteText(Seq<char>),
    WriteComment(Seq<char>),
}

impl<'a> View for SerializeCall<'a> {
    type V = SerializeCallView;

    open spec fn view(&self) -> SerializeCallView {
        match *self {
            SerializeCall::StartElem(ns, name, attrs) => SerializeCallView::StartElem(
                ns,
                name@,
                attrs_view(attrs@),
            ),
            SerializeCall::EndElem(ns, name) => SerializeCallView::EndElem(ns, name@),
            SerializeCall::WriteDoctype(name) => SerializeCallView::WriteDoctype(name@),
            SerializeCall::WriteText(text) => SerializeCallView::WriteText(text@),
            SerializeCall::WriteComment(text) => SerializeCallView::WriteComment(text@),
        }
    }
}

/// The contents of a list of calls.
pub open spec fn calls_view(calls: Seq<SerializeCall<'_>>) -> Seq<SerializeCallView> {
    calls.map_values(|c: SerializeCall<'_>| c@)
}

/// The names of the elements that are open after `calls`, if those in `open` were open
/// before, the outermost first. Nothing if an element ends that is not the innermost.
pub open spec fn open_after(
    calls: Seq<SerializeCallView>,
    open: Seq<(Namespace, Seq<char>)>,
) -> Option<Seq<(Namespace, Seq<char>)>>
    decreases calls.len(),
{
    if calls.len() == 0 {
        Some(open)
    } else {
        match open_after(calls.drop_last(), open) {
            None => None,
            Some(now) => match calls.last() {
                SerializeCallView::StartElem(ns, name, _) => Some(now.push((ns, name))),
                SerializeCallView::EndElem(ns, name) => if now.len() > 0 && now.last() == (
                    ns,
                    name,
                ) {
                    Some(now.drop_last())
                } else {
                    None
                },
                _ => Some(now),
            },
        }
    }
}

/// Calls that are made one after the other.
pub proof fn lemma_open_after(
    a: Seq<SerializeCallView>,
    b: Seq<SerializeCallView>,
    open: Seq<(Namespace, Seq<char>)>,
)
    ensures
        open_after(a + b, open) == (match open_after(a, open) {
            Some(now) => open_after(b, now),
            None => None,
        }),
    decreases b.len(),
{
    if b.len() == 0 {
        assert(a + b =~= a);
    } else {
        assert((a + b).drop_last() =~= a + b.drop_last());
        assert((a + b).last() == b.last());
        lemma_open_after(a, b.drop_last(), open);
    }
}

} // verus!
