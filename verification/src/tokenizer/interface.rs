//! What the tokenizer hands out, and to whom.

use vstd::prelude::*;
use crate::tokenizer::states::State;
use crate::util::atom::Atom;
use crate::util::maybe_owned::MaybeOwned;

verus! {

/// The text of an optional string.
pub open spec fn opt_text(s: Option<String>) -> Option<Seq<char>> {
    match s {
        Some(t) => Some(t@),
        None => None,
    }
}

/// A `DOCTYPE` token.
#[derive(Debug)]
pub struct Doctype {
    pub name: Option<String>,
    pub public_id: Option<String>,
    pub system_id: Option<String>,
    pub force_quirks: bool,
}

/// The contents of a `Doctype`.
#[verifier::ext_equal]
pub struct DoctypeView {
    pub name: Option<Seq<char>>,
    pub public_id: Option<Seq<char>>,
    pub system_id: Option<Seq<char>>,
    pub force_quirks: bool,
}

impl View for Doctype {
    type V = DoctypeView;

    open spec fn view(&self) -> DoctypeView {
        DoctypeView {
            name: opt_text(self.name),
            public_id: opt_text(self.public_id),
            system_id: opt_text(self.system_id),
            force_quirks: self.force_quirks,
        }
    }
}

/// A doctype of which nothing is known yet.
pub open spec fn empty_doctype() -> DoctypeView {
    DoctypeView { name: None, public_id: None, system_id: None, force_quirks: false }
}

impl Doctype {
    /// A doctype of which nothing is known yet.
    pub fn new() -> (r: Doctype)
        ensures
            r@ == empty_doctype(),
    {
        Doctype { name: None, public_id: None, system_id: None, force_quirks: false }
    }
}

/// The name of an attribute.
#[derive(Debug)]
pub struct AttrName {
    pub name: Atom,
}

impl View for AttrName {
    type V = Seq<char>;

    open spec fn view(&self) -> Seq<char> {
        self.name@
    }
}

impl AttrName {
    /// The attribute name that an atom spells.
    pub fn new(name: Atom) -> (r: AttrName)
        ensures
            r@ == name@,
    {
        AttrName { name }
    }

    /// The text of the name.
    pub fn as_slice(&self) -> (r: &str)
        ensures
            r@ == self@,
    {
        self.name.as_slice()
    }
}

impl PartialEq for AttrName {
    fn eq(&self, other: &AttrName) -> (r: bool) {
        self.name == other.name
    }
}

impl vstd::std_specs::cmp::PartialEqSpecImpl for AttrName {
    open spec fn obeys_eq_spec() -> bool {
        true
    }

    open spec fn eq_spec(&self, other: &AttrName) -> bool {
        self@ == other@
    }
}

/// An attribute of a tag.
#[derive(Debug)]
pub struct Attribute {
    pub name: AttrName,
    pub value: String,
}

/// The contents of an `Attribute`.
#[verifier::ext_equal]
pub struct AttributeView {
    pub name: Seq<char>,
    pub value: Seq<char>,
}

impl View for Attribute {
    type V = AttributeView;

    open spec fn view(&self) -> AttributeView {
        AttributeView { name: self.name@, value: self.value@ }
    }
}

impl Clone for Attribute {
    fn clone(&self) -> (r: Attribute)
        ensures
            r@ == self@,
    {
        Attribute { name: AttrName::new(self.name.name.clone()), value: self.value.clone() }
    }
}

/// The contents of a list of attributes.
pub open spec fn attrs_view(attrs: Seq<Attribute>) -> Seq<AttributeView> {
    attrs.map_values(|a: Attribute| a@)
}

/// Does an attribute of the list have this name?
pub open spec fn has_attr(attrs: Seq<AttributeView>, name: Seq<char>) -> bool {
    exists|i: int| 0 <= i < attrs.len() && (#[trigger] attrs[i]).name == name
}

/// Do the attributes of the list have names that all differ?
pub open spec fn distinct_attrs(attrs: Seq<AttributeView>) -> bool {
    forall|i: int, j: int|
        0 <= i < j < attrs.len() ==> (#[trigger] attrs[i]).name != (#[trigger] attrs[j]).name
}

/// Start tag or end tag?
#[derive(Clone, Copy, PartialEq, Eq, Structural, Debug, Hash)]
pub enum TagKind {
    StartTag,
    EndTag,
}

/// A tag token.
#[derive(Debug)]
pub struct Tag {
    pub kind: TagKind,
    pub name: Atom,
    pub self_closing: bool,
    pub attrs: Vec<Attribute>,
}

/// The contents of a `Tag`.
#[verifier::ext_equal]
pub struct TagView {
    pub kind: TagKind,
    pub name: Seq<char>,
    pub self_closing: bool,
    pub attrs: Seq<AttributeView>,
}

impl View for Tag {
    type V = TagView;

    open spec fn view(&self) -> TagView {
        TagView {
            kind: self.kind,
            name: self.name@,
            self_closing: self.self_closing,
            attrs: attrs_view(self.attrs@),
        }
    }
}

/// What the tokenizer emits.
#[derive(Debug)]
pub enum Token {
    DoctypeToken(Doctype),
    TagToken(Tag),
    CommentToken(String),
    CharacterTokens(String),
    NullCharacterToken,
    EOFToken,
    ParseError(MaybeOwned),
}

/// The contents of a `Token`.
#[verifier::ext_equal]
pub enum TokenView {
    DoctypeToken(DoctypeView),
    TagToken(TagView),
    CommentToken(Seq<char>),
    CharacterTokens(Seq<char>),
    NullCharacterToken,
    EOFToken,
    ParseError(Seq<char>),
}

impl View for Token {
    type V = TokenView;

    open spec fn view(&self) -> TokenView {
        match *self {
            Token::DoctypeToken(d) => TokenView::DoctypeToken(d@),
            Token::TagToken(t) => TokenView::TagToken(t@),
            Token::CommentToken(s) => TokenView::CommentToken(s@),
            Token::CharacterTokens(s) => TokenView::CharacterTokens(s@),
            Token::NullCharacterToken => TokenView::NullCharacterToken,
            Token::EOFToken => TokenView::EOFToken,
            Token::ParseError(e) => TokenView::ParseError(e@),
        }
    }
}

/// One exchange between a tokenizer and its sink.
#[verifier::ext_equal]
pub enum SinkEvent {
    /// The sink was handed this token.
    Token(TokenView),
    /// The sink was asked for a change of state, and gave this answer.
    Asked(Option<State>),
}

/// The destination of the tokens.
///
/// A sink that is verified gives `events` a body, such as a ghost list that it keeps, and
/// is proved to meet the contracts below. Of a sink that is not verified nothing is
/// proved: what the tokenizer promises then rests on trust that the sink takes each
/// token as it comes, and names no state that it may not.
pub trait TokenSink {
    /// Everything that has passed between the tokenizer and this sink, oldest
    /// first.
    open spec fn events(&self) -> Seq<SinkEvent> {
        arbitrary()
    }

    /// Process a token.
    fn process_token(&mut self, token: Token)
        ensures
            final(self).events() == old(self).events().push(SinkEvent::Token(token@)),
    ;

    /// The tokenizer calls this after it has emitted a start tag. The sink may
    /// name the state to go on in. There is no processing of CDATA sections, so
    /// it may not name that state.
    fn query_state_change(&mut self) -> (r: Option<State>)
        ensures
            final(self).events() == old(self).events().push(SinkEvent::Asked(r)),
            r != Some(State::CdataSection),
    ;
}

} // verus!
