//! The states of the tokenizer's abstract machine.

use vstd::prelude::*;

verus! {

/// `head`, then `inner`, then a closing bracket.
fn bracketed(head: &str, inner: &str) -> (r: String)
    ensures
        r@ == head@ + inner@ + ")"@,
{
    let mut s = head.to_string();
    s.append(inner);
    s.append(")");
    s
}

/// How deep inside `<!--` and `<script>` a script text is.
#[derive(Clone, Copy, PartialEq, Eq, Structural, Debug, Hash)]
pub enum ScriptEscapeKind {
    Escaped,
    DoubleEscaped,
}

impl ScriptEscapeKind {
    /// The name of the value, as messages show it.
    pub open spec fn text(self) -> Seq<char> {
        match self {
            ScriptEscapeKind::Escaped => "Escaped"@,
            ScriptEscapeKind::DoubleEscaped => "DoubleEscaped"@,
        }
    }

    /// The name of the value, as messages show it.
    pub fn describe(self) -> (r: String)
        ensures
            r@ == self.text(),
    {
        match self {
            ScriptEscapeKind::Escaped => "Escaped".to_string(),
            ScriptEscapeKind::DoubleEscaped => "DoubleEscaped".to_string(),
        }
    }
}

/// Which identifier of a doctype is meant.
#[derive(Clone, Copy, PartialEq, Eq, Structural, Debug, Hash)]
pub enum DoctypeIdKind {
    Public,
    System,
}

impl DoctypeIdKind {
    /// The name of the value, as messages show it.
    pub open spec fn text(self) -> Seq<char> {
        match self {
            DoctypeIdKind::Public => "Public"@,
            DoctypeIdKind::System => "System"@,
        }
    }

    /// The name of the value, as messages show it.
    pub fn describe(self) -> (r: String)
        ensures
            r@ == self.text(),
    {
        match self {
            DoctypeIdKind::Public => "Public".to_string(),
            DoctypeIdKind::System => "System".to_string(),
        }
    }
}

/// The kinds of text in which tags are not recognised as such.
#[derive(Clone, Copy, PartialEq, Eq, Structural, Debug, Hash)]
pub enum RawKind {
    Rcdata,
    Rawtext,
    ScriptData,
    ScriptDataEscaped(ScriptEscapeKind),
}

impl RawKind {
    /// The name of the value, as messages show it.
    pub open spec fn text(self) -> Seq<char> {
        match self {
            RawKind::Rcdata => "Rcdata"@,
            RawKind::Rawtext => "Rawtext"@,
            RawKind::ScriptData => "ScriptData"@,
            RawKind::ScriptDataEscaped(k) => "ScriptDataEscaped("@ + k.text() + ")"@,
        }
    }

    /// The name of the value, as messages show it.
    pub fn describe(self) -> (r: String)
        ensures
            r@ == self.text(),
    {
        match self {
            RawKind::Rcdata => "Rcdata".to_string(),
            RawKind::Rawtext => "Rawtext".to_string(),
            RawKind::ScriptData => "ScriptData".to_string(),
            RawKind::ScriptDataEscaped(k) => bracketed("ScriptDataEscaped(", k.describe().as_str()),
        }
    }
}

/// How an attribute value is quoted.
#[derive(Clone, Copy, PartialEq, Eq, Structural, Debug, Hash)]
pub enum AttrValueKind {
    Unquoted,
    SingleQuoted,
    DoubleQuoted,
}

impl AttrValueKind {
    /// The name of the value, as messages show it.
    pub open spec fn text(self) -> Seq<char> {
        match self {
            AttrValueKind::Unquoted => "Unquoted"@,
            AttrValueKind::SingleQuoted => "SingleQuoted"@,
            AttrValueKind::DoubleQuoted => "DoubleQuoted"@,
        }
    }

    /// The name of the value, as messages show it.
    pub fn describe(self) -> (r: String)
        ensures
            r@ == self.text(),
    {
        match self {
            AttrValueKind::Unquoted => "Unquoted".to_string(),
            AttrValueKind::SingleQuoted => "SingleQuoted".to_string(),
            AttrValueKind::DoubleQuoted => "DoubleQuoted".to_string(),
        }
    }
}

/// A state of the abstract machine.
#[derive(Clone, Copy, PartialEq, Eq, Structural, Debug, Hash)]
pub enum State {
    Data,
    Plaintext,
    TagOpen,
    EndTagOpen,
    TagName,
    RawData(RawKind),
    RawLessThanSign(RawKind),
    RawEndTagOpen(RawKind),
    RawEndTagName(RawKind),
    ScriptDataEscapeStart(ScriptEscapeKind),
    ScriptDataEscapeStartDash,
    ScriptDataEscapedDash(ScriptEscapeKind),
    ScriptDataEscapedDashDash(ScriptEscapeKind),
    ScriptDataDoubleEscapeEnd,
    BeforeAttributeName,
    AttributeName,
    AfterAttributeName,
    BeforeAttributeValue,
    AttributeValue(AttrValueKind),
    AfterAttributeValueQuoted,
    SelfClosingStartTag,
    BogusComment,
    MarkupDeclarationOpen,
    CommentStart,
    CommentStartDash,
    Comment,
    CommentEndDash,
    CommentEnd,
    CommentEndBang,
    Doctype,
    BeforeDoctypeName,
    DoctypeName,
    AfterDoctypeName,
    AfterDoctypeKeyword(DoctypeIdKind),
    BeforeDoctypeIdentifier(DoctypeIdKind),
    DoctypeIdentifierDoubleQuoted(DoctypeIdKind),
    DoctypeIdentifierSingleQuoted(DoctypeIdKind),
    AfterDoctypeIdentifier(DoctypeIdKind),
    BetweenDoctypePublicAndSystemIdentifiers,
    BogusDoctype,
    CdataSection,
}

impl State {
    /// The name of the value, as messages show it.
    pub open spec fn text(self) -> Seq<char> {
        match self {
            State::Data => "Data"@,
            State::Plaintext => "Plaintext"@,
            State::TagOpen => "TagOpen"@,
            State::EndTagOpen => "EndTagOpen"@,
            State::TagName => "TagName"@,
            State::RawData(k) => "RawData("@ + k.text() + ")"@,
            State::RawLessThanSign(k) => "RawLessThanSign("@ + k.text() + ")"@,
            State::RawEndTagOpen(k) => "RawEndTagOpen("@ + k.text() + ")"@,
            State::RawEndTagName(k) => "RawEndTagName("@ + k.text() + ")"@,
            State::ScriptDataEscapeStart(k) => "ScriptDataEscapeStart("@ + k.text() + ")"@,
            State::ScriptDataEscapeStartDash => "ScriptDataEscapeStartDash"@,
            State::ScriptDataEscapedDash(k) => "ScriptDataEscapedDash("@ + k.text() + ")"@,
            State::ScriptDataEscapedDashDash(k) => "ScriptDataEscapedDashDash("@ + k.text() + ")"@,
            State::ScriptDataDoubleEscapeEnd => "ScriptDataDoubleEscapeEnd"@,
            State::BeforeAttributeName => "BeforeAttributeName"@,
            State::AttributeName => "AttributeName"@,
            State::AfterAttributeName => "AfterAttributeName"@,
            State::BeforeAttributeValue => "BeforeAttributeValue"@,
            State::AttributeValue(k) => "AttributeValue("@ + k.text() + ")"@,
            State::AfterAttributeValueQuoted => "AfterAttributeValueQuoted"@,
            State::SelfClosingStartTag => "SelfClosingStartTag"@,
            State::BogusComment => "BogusComment"@,
            State::MarkupDeclarationOpen => "MarkupDeclarationOpen"@,
            State::CommentStart => "CommentStart"@,
            State::CommentStartDash => "CommentStartDash"@,
            State::Comment => "Comment"@,
            State::CommentEndDash => "CommentEndDash"@,
            State::CommentEnd => "CommentEnd"@,
            State::CommentEndBang => "CommentEndBang"@,
            State::Doctype => "Doctype"@,
            State::BeforeDoctypeName => "BeforeDoctypeName"@,
            State::DoctypeName => "DoctypeName"@,
            State::AfterDoctypeName => "AfterDoctypeName"@,
            State::AfterDoctypeKeyword(k) => "AfterDoctypeKeyword("@ + k.text() + ")"@,
            State::BeforeDoctypeIdentifier(k) => "BeforeDoctypeIdentifier("@ + k.text() + ")"@,
            State::DoctypeIdentifierDoubleQuoted(k) => "DoctypeIdentifierDoubleQuoted("@ + k.text() + ")"@,
            State::DoctypeIdentifierSingleQuoted(k) => "DoctypeIdentifierSingleQuoted("@ + k.text() + ")"@,
            State::AfterDoctypeIdentifier(k) => "AfterDoctypeIdentifier("@ + k.text() + ")"@,
            State::BetweenDoctypePublicAndSystemIdentifiers => "BetweenDoctypePublicAndSystemIdentifiers"@,
            State::BogusDoctype => "BogusDoctype"@,
            State::CdataSection => "CdataSection"@,
        }
    }

    /// The name of the value, as messages show it.
    pub fn describe(self) -> (r: String)
        ensures
            r@ == self.text(),
    {
        match self {
            State::Data => "Data".to_string(),
            State::Plaintext => "Plaintext".to_string(),
            State::TagOpen => "TagOpen".to_string(),
            State::EndTagOpen => "EndTagOpen".to_string(),
            State::TagName => "TagName".to_string(),
            State::RawData(k) => bracketed("RawData(", k.describe().as_str()),
            State::RawLessThanSign(k) => bracketed("RawLessThanSign(", k.describe().as_str()),
            State::RawEndTagOpen(k) => bracketed("RawEndTagOpen(", k.describe().as_str()),
            State::RawEndTagName(k) => bracketed("RawEndTagName(", k.describe().as_str()),
            State::ScriptDataEscapeStart(k) => bracketed("ScriptDataEscapeStart(", k.describe().as_str()),
            State::ScriptDataEscapeStartDash => "ScriptDataEscapeStartDash".to_string(),
            State::ScriptDataEscapedDash(k) => bracketed("ScriptDataEscapedDash(", k.describe().as_str()),
            State::ScriptDataEscapedDashDash(k) => bracketed("ScriptDataEscapedDashDash(", k.describe().as_str()),
            State::ScriptDataDoubleEscapeEnd => "ScriptDataDoubleEscapeEnd".to_string(),
            State::BeforeAttributeName => "BeforeAttributeName".to_string(),
            State::AttributeName => "AttributeName".to_string(),
            State::AfterAttributeName => "AfterAttributeName".to_string(),
            State::BeforeAttributeValue => "BeforeAttributeValue".to_string(),
            State::AttributeValue(k) => bracketed("AttributeValue(", k.describe().as_str()),
            State::AfterAttributeValueQuoted => "AfterAttributeValueQuoted".to_string(),
            State::SelfClosingStartTag => "SelfClosingStartTag".to_string(),
            State::BogusComment => "BogusComment".to_string(),
            State::MarkupDeclarationOpen => "MarkupDeclarationOpen".to_string(),
            State::CommentStart => "CommentStart".to_string(),
            State::CommentStartDash => "CommentStartDash".to_string(),
            State::Comment => "Comment".to_string(),
            State::CommentEndDash => "CommentEndDash".to_string(),
            State::CommentEnd => "CommentEnd".to_string(),
            State::CommentEndBang => "CommentEndBang".to_string(),
            State::Doctype => "Doctype".to_string(),
            State::BeforeDoctypeName => "BeforeDoctypeName".to_string(),
            State::DoctypeName => "DoctypeName".to_string(),
            State::AfterDoctypeName => "AfterDoctypeName".to_string(),
            State::AfterDoctypeKeyword(k) => bracketed("AfterDoctypeKeyword(", k.describe().as_str()),
            State::BeforeDoctypeIdentifier(k) => bracketed("BeforeDoctypeIdentifier(", k.describe().as_str()),
            State::DoctypeIdentifierDoubleQuoted(k) => bracketed("DoctypeIdentifierDoubleQuoted(", k.describe().as_str()),
            State::DoctypeIdentifierSingleQuoted(k) => bracketed("DoctypeIdentifierSingleQuoted(", k.describe().as_str()),
            State::AfterDoctypeIdentifier(k) => bracketed("AfterDoctypeIdentifier(", k.describe().as_str()),
            State::BetweenDoctypePublicAndSystemIdentifiers => "BetweenDoctypePublicAndSystemIdentifiers".to_string(),
            State::BogusDoctype => "BogusDoctype".to_string(),
            State::CdataSection => "CdataSection".to_string(),
        }
    }
}

} // verus!
