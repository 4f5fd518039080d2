//! The rules of the abstract machine: what each character does in each state, and
//! what the end of the input does.

use vstd::prelude::*;
use crate::tokenizer::interface::TagKind;
use crate::tokenizer::machine::Machine;
use crate::tokenizer::states::{AttrValueKind, DoctypeIdKind, RawKind, ScriptEscapeKind, State};
use crate::util::str::{is_letter, lower};

verus! {

/// White space between the parts of a tag. A carriage return cannot occur: it has
/// been read as a line feed.
pub open spec fn gap(c: char) -> bool {
    c == '\t' || c == '\n' || c == '\x0C' || c == ' '
}

/// The state inside text of a raw kind.
pub open spec fn raw(kind: RawKind) -> State {
    State::RawData(kind)
}

/// The state inside escaped script text.
pub open spec fn escaped(kind: ScriptEscapeKind) -> State {
    State::RawData(RawKind::ScriptDataEscaped(kind))
}

/// Text outside of tags.
pub open spec fn on_text(m: Machine, c: char) -> Machine {
    match m.state {
        State::Data => if c == '\0' {
            m.error().emit('\0')
        } else if c == '&' {
            m.consume_char_ref(None)
        } else if c == '<' {
            m.to(State::TagOpen)
        } else {
            m.emit(c)
        },
        State::RawData(RawKind::Rcdata) => if c == '\0' {
            m.error().emit('\u{fffd}')
        } else if c == '&' {
            m.consume_char_ref(None)
        } else if c == '<' {
            m.to(State::RawLessThanSign(RawKind::Rcdata))
        } else {
            m.emit(c)
        },
        State::RawData(RawKind::ScriptDataEscaped(kind)) => if c == '\0' {
            m.error().emit('\u{fffd}')
        } else if c == '-' {
            m.emit('-').to(State::ScriptDataEscapedDash(kind))
        } else if c == '<' {
            match kind {
                ScriptEscapeKind::Escaped => m.to(
                    State::RawLessThanSign(RawKind::ScriptDataEscaped(kind)),
                ),
                ScriptEscapeKind::DoubleEscaped => m.emit('<').to(
                    State::RawLessThanSign(RawKind::ScriptDataEscaped(kind)),
                ),
            }
        } else {
            m.emit(c)
        },
        State::RawData(kind) => if c == '\0' {
            m.error().emit('\u{fffd}')
        } else if c == '<' {
            m.to(State::RawLessThanSign(kind))
        } else {
            m.emit(c)
        },
        _ => if c == '\0' {
            m.error().emit('\u{fffd}')
        } else {
            m.emit(c)
        },
    }
}

/// The beginning of a tag.
pub open spec fn on_tag(m: Machine, c: char, answer: Option<State>) -> Machine {
    match m.state {
        State::TagOpen => if c == '!' {
            m.to(State::MarkupDeclarationOpen)
        } else if c == '/' {
            m.to(State::EndTagOpen)
        } else if c == '?' {
            m.error().clear_comment().push_comment('?').to(State::BogusComment)
        } else if is_letter(c) {
            m.create_tag(TagKind::StartTag, lower(c)).to(State::TagName)
        } else {
            m.error().emit('<').reconsume(State::Data, c)
        },
        State::EndTagOpen => if c == '>' {
            m.error().to(State::Data)
        } else if c == '\0' {
            m.error().clear_comment().push_comment('\u{fffd}').to(State::BogusComment)
        } else if is_letter(c) {
            m.create_tag(TagKind::EndTag, lower(c)).to(State::TagName)
        } else {
            m.error().clear_comment().push_comment(c).to(State::BogusComment)
        },
        _ => if gap(c) {
            m.to(State::BeforeAttributeName)
        } else if c == '/' {
            m.to(State::SelfClosingStartTag)
        } else if c == '>' {
            m.emit_tag(State::Data, answer)
        } else if c == '\0' {
            m.error().push_tag('\u{fffd}')
        } else {
            m.push_tag(lower(c))
        },
    }
}

/// `<` and what may be an end tag, inside raw text.
pub open spec fn on_raw_end(m: Machine, c: char, answer: Option<State>) -> Machine {
    match m.state {
        State::RawLessThanSign(RawKind::ScriptDataEscaped(ScriptEscapeKind::Escaped)) => if c
            == '/' {
            m.clear_temp().to(
                State::RawEndTagOpen(RawKind::ScriptDataEscaped(ScriptEscapeKind::Escaped)),
            )
        } else if is_letter(c) {
            m.clear_temp().push_temp(lower(c)).emit('<').emit(c).to(
                State::ScriptDataEscapeStart(ScriptEscapeKind::DoubleEscaped),
            )
        } else {
            m.emit('<').reconsume(escaped(ScriptEscapeKind::Escaped), c)
        },
        State::RawLessThanSign(RawKind::ScriptDataEscaped(ScriptEscapeKind::DoubleEscaped)) => if c
            == '/' {
            m.clear_temp().emit('/').to(State::ScriptDataDoubleEscapeEnd)
        } else {
            m.reconsume(escaped(ScriptEscapeKind::DoubleEscaped), c)
        },
        State::RawLessThanSign(kind) => if c == '/' {
            m.clear_temp().to(State::RawEndTagOpen(kind))
        } else if c == '!' && kind == RawKind::ScriptData {
            m.emit('<').emit('!').to(State::ScriptDataEscapeStart(ScriptEscapeKind::Escaped))
        } else {
            m.emit('<').reconsume(raw(kind), c)
        },
        State::RawEndTagOpen(kind) => if is_letter(c) {
            m.create_tag(TagKind::EndTag, lower(c)).push_temp(c).to(State::RawEndTagName(kind))
        } else {
            m.emit('<').emit('/').reconsume(raw(kind), c)
        },
        State::RawEndTagName(kind) => if m.appropriate_end_tag() && gap(c) {
            m.to(State::BeforeAttributeName)
        } else if m.appropriate_end_tag() && c == '/' {
            m.to(State::SelfClosingStartTag)
        } else if m.appropriate_end_tag() && c == '>' {
            m.emit_tag(State::Data, answer)
        } else if is_letter(c) {
            m.push_tag(lower(c)).push_temp(c)
        } else {
            m.discard_tag().emit('<').emit('/').emit_temp().reconsume(raw(kind), c)
        },
        _ => m,
    }
}

/// Script text inside `<!--`.
pub open spec fn on_script(m: Machine, c: char) -> Machine {
    match m.state {
        State::ScriptDataEscapeStart(ScriptEscapeKind::DoubleEscaped) => if gap(c) || c == '/' || c
            == '>' {
            m.emit(c).to(
                escaped(
                    if m.temp_buf == "script"@ {
                        ScriptEscapeKind::DoubleEscaped
                    } else {
                        ScriptEscapeKind::Escaped
                    },
                ),
            )
        } else if is_letter(c) {
            m.push_temp(lower(c)).emit(c)
        } else {
            m.reconsume(escaped(ScriptEscapeKind::Escaped), c)
        },
        State::ScriptDataEscapeStart(ScriptEscapeKind::Escaped) => if c == '-' {
            m.emit('-').to(State::ScriptDataEscapeStartDash)
        } else {
            m.reconsume(raw(RawKind::ScriptData), c)
        },
        State::ScriptDataEscapeStartDash => if c == '-' {
            m.emit('-').to(State::ScriptDataEscapedDashDash(ScriptEscapeKind::Escaped))
        } else {
            m.reconsume(raw(RawKind::ScriptData), c)
        },
        State::ScriptDataEscapedDash(kind) => if c == '-' {
            m.emit('-').to(State::ScriptDataEscapedDashDash(kind))
        } else if c == '<' {
            escaped_less_than(m, kind)
        } else if c == '\0' {
            m.error().emit('\u{fffd}').to(escaped(kind))
        } else {
            m.emit(c).to(escaped(kind))
        },
        State::ScriptDataEscapedDashDash(kind) => if c == '-' {
            m.emit('-')
        } else if c == '<' {
            escaped_less_than(m, kind)
        } else if c == '>' {
            m.emit('>').to(raw(RawKind::ScriptData))
        } else if c == '\0' {
            m.error().emit('\u{fffd}').to(escaped(kind))
        } else {
            m.emit(c).to(escaped(kind))
        },
        State::ScriptDataDoubleEscapeEnd => if gap(c) || c == '/' || c == '>' {
            m.emit(c).to(
                escaped(
                    if m.temp_buf == "script"@ {
                        ScriptEscapeKind::Escaped
                    } else {
                        ScriptEscapeKind::DoubleEscaped
                    },
                ),
            )
        } else if is_letter(c) {
            m.push_temp(lower(c)).emit(c)
        } else {
            m.reconsume(escaped(ScriptEscapeKind::DoubleEscaped), c)
        },
        _ => m,
    }
}

/// `<` after a dash in escaped script text.
pub open spec fn escaped_less_than(m: Machine, kind: ScriptEscapeKind) -> Machine {
    let s = State::RawLessThanSign(RawKind::ScriptDataEscaped(kind));
    match kind {
        ScriptEscapeKind::Escaped => m.to(s),
        ScriptEscapeKind::DoubleEscaped => m.emit('<').to(s),
    }
}

/// The error of a character that should not be in an attribute name.
pub open spec fn odd_name_char(m: Machine, c: char) -> Machine {
    if c == '"' || c == '\'' || c == '<' {
        m.error()
    } else {
        m
    }
}

/// Attribute names.
pub open spec fn on_attr_name(m: Machine, c: char, answer: Option<State>) -> Machine {
    match m.state {
        State::BeforeAttributeName => if gap(c) {
            m
        } else if c == '/' {
            m.to(State::SelfClosingStartTag)
        } else if c == '>' {
            m.emit_tag(State::Data, answer)
        } else if c == '\0' {
            m.error().create_attr('\u{fffd}').to(State::AttributeName)
        } else if is_letter(c) {
            m.create_attr(lower(c)).to(State::AttributeName)
        } else if c == '=' {
            m.error().create_attr(c).to(State::AttributeName)
        } else {
            odd_name_char(m, c).create_attr(c).to(State::AttributeName)
        },
        State::AttributeName => if gap(c) {
            m.to(State::AfterAttributeName)
        } else if c == '/' {
            m.to(State::SelfClosingStartTag)
        } else if c == '=' {
            m.to(State::BeforeAttributeValue)
        } else if c == '>' {
            m.emit_tag(State::Data, answer)
        } else if c == '\0' {
            m.error().push_name('\u{fffd}')
        } else if is_letter(c) {
            m.push_name(lower(c))
        } else {
            odd_name_char(m, c).push_name(c)
        },
        _ => if gap(c) {
            m
        } else if c == '/' {
            m.to(State::SelfClosingStartTag)
        } else if c == '=' {
            m.to(State::BeforeAttributeValue)
        } else if c == '>' {
            m.emit_tag(State::Data, answer)
        } else if c == '\0' {
            m.error().create_attr('\u{fffd}').to(State::AttributeName)
        } else if is_letter(c) {
            m.create_attr(lower(c)).to(State::AttributeName)
        } else {
            odd_name_char(m, c).create_attr(c).to(State::AttributeName)
        },
    }
}

/// Attribute values, and the end of a tag.
pub open spec fn on_attr_value(m: Machine, c: char, answer: Option<State>) -> Machine {
    match m.state {
        State::BeforeAttributeValue => if gap(c) {
            m
        } else if c == '"' {
            m.to(State::AttributeValue(AttrValueKind::DoubleQuoted))
        } else if c == '&' {
            m.reconsume(State::AttributeValue(AttrValueKind::Unquoted), c)
        } else if c == '\'' {
            m.to(State::AttributeValue(AttrValueKind::SingleQuoted))
        } else if c == '\0' {
            m.error().push_value('\u{fffd}').to(State::AttributeValue(AttrValueKind::Unquoted))
        } else if c == '>' {
            m.error().emit_tag(State::Data, answer)
        } else if c == '<' || c == '=' || c == '`' {
            m.error().push_value(c).to(State::AttributeValue(AttrValueKind::Unquoted))
        } else {
            m.push_value(c).to(State::AttributeValue(AttrValueKind::Unquoted))
        },
        State::AttributeValue(AttrValueKind::DoubleQuoted) => if c == '"' {
            m.to(State::AfterAttributeValueQuoted)
        } else if c == '&' {
            m.consume_char_ref(Some('"'))
        } else if c == '\0' {
            m.error().push_value('\u{fffd}')
        } else {
            m.push_value(c)
        },
        State::AttributeValue(AttrValueKind::SingleQuoted) => if c == '\'' {
            m.to(State::AfterAttributeValueQuoted)
        } else if c == '&' {
            m.consume_char_ref(Some('\''))
        } else if c == '\0' {
            m.error().push_value('\u{fffd}')
        } else {
            m.push_value(c)
        },
        State::AttributeValue(AttrValueKind::Unquoted) => if gap(c) {
            m.to(State::BeforeAttributeName)
        } else if c == '&' {
            m.consume_char_ref(Some('>'))
        } else if c == '>' {
            m.emit_tag(State::Data, answer)
        } else if c == '\0' {
            m.error().push_value('\u{fffd}')
        } else if c == '"' || c == '\'' || c == '<' || c == '=' || c == '`' {
            m.error().push_value(c)
        } else {
            m.push_value(c)
        },
        State::AfterAttributeValueQuoted => if gap(c) {
            m.to(State::BeforeAttributeName)
        } else if c == '/' {
            m.to(State::SelfClosingStartTag)
        } else if c == '>' {
            m.emit_tag(State::Data, answer)
        } else {
            m.error().reconsume(State::BeforeAttributeName, c)
        },
        _ => if c == '>' {
            m.set_self_closing().emit_tag(State::Data, answer)
        } else {
            m.error().reconsume(State::BeforeAttributeName, c)
        },
    }
}

/// Comments.
pub open spec fn on_comment(m: Machine, c: char) -> Machine {
    match m.state {
        State::CommentStart => if c == '-' {
            m.to(State::CommentStartDash)
        } else if c == '\0' {
            m.error().push_comment('\u{fffd}').to(State::Comment)
        } else if c == '>' {
            m.error().emit_comment().to(State::Data)
        } else {
            m.push_comment(c).to(State::Comment)
        },
        State::CommentStartDash => if c == '-' {
            m.to(State::CommentEnd)
        } else if c == '\0' {
            m.error().append_comment("-\u{fffd}"@).to(State::Comment)
        } else if c == '>' {
            m.error().emit_comment().to(State::Data)
        } else {
            m.push_comment('-').push_comment(c).to(State::Comment)
        },
        State::Comment => if c == '-' {
            m.to(State::CommentEndDash)
        } else if c == '\0' {
            m.error().push_comment('\u{fffd}')
        } else {
            m.push_comment(c)
        },
        State::CommentEndDash => if c == '-' {
            m.to(State::CommentEnd)
        } else if c == '\0' {
            m.error().append_comment("-\u{fffd}"@).to(State::Comment)
        } else {
            m.push_comment('-').push_comment(c).to(State::Comment)
        },
        State::CommentEnd => if c == '>' {
            m.emit_comment().to(State::Data)
        } else if c == '\0' {
            m.error().append_comment("--\u{fffd}"@).to(State::Comment)
        } else if c == '!' {
            m.error().to(State::CommentEndBang)
        } else if c == '-' {
            m.error().push_comment('-')
        } else {
            m.error().append_comment("--"@).push_comment(c).to(State::Comment)
        },
        State::CommentEndBang => if c == '-' {
            m.append_comment("--!"@).to(State::CommentEndDash)
        } else if c == '>' {
            m.emit_comment().to(State::Data)
        } else if c == '\0' {
            m.error().append_comment("--!\u{fffd}"@).to(State::Comment)
        } else {
            m.append_comment("--!"@).push_comment(c).to(State::Comment)
        },
        _ => if c == '>' {
            m.emit_comment().to(State::Data)
        } else if c == '\0' {
            m.push_comment('\u{fffd}')
        } else {
            m.push_comment(c)
        },
    }
}

/// The name of a doctype, and what follows it.
pub open spec fn on_doctype(m: Machine, c: char) -> Machine {
    match m.state {
        State::Doctype => if gap(c) {
            m.to(State::BeforeDoctypeName)
        } else {
            m.error().reconsume(State::BeforeDoctypeName, c)
        },
        State::BeforeDoctypeName => if gap(c) {
            m
        } else if c == '\0' {
            m.error().create_doctype().push_doctype_name('\u{fffd}').to(State::DoctypeName)
        } else if c == '>' {
            m.error().create_doctype().force_quirks().emit_doctype().to(State::Data)
        } else {
            m.create_doctype().push_doctype_name(lower(c)).to(State::DoctypeName)
        },
        State::DoctypeName => if gap(c) {
            m.to(State::AfterDoctypeName)
        } else if c == '>' {
            m.emit_doctype().to(State::Data)
        } else if c == '\0' {
            m.error().push_doctype_name('\u{fffd}')
        } else {
            m.push_doctype_name(lower(c))
        },
        State::AfterDoctypeName => if gap(c) {
            m
        } else if c == '>' {
            m.emit_doctype().to(State::Data)
        } else {
            m.error().force_quirks().to(State::BogusDoctype)
        },
        State::AfterDoctypeKeyword(kind) => if gap(c) {
            m.to(State::BeforeDoctypeIdentifier(kind))
        } else if c == '"' {
            m.error().clear_doctype_id(kind).to(State::DoctypeIdentifierDoubleQuoted(kind))
        } else if c == '\'' {
            m.error().clear_doctype_id(kind).to(State::DoctypeIdentifierSingleQuoted(kind))
        } else if c == '>' {
            m.error().force_quirks().emit_doctype().to(State::Data)
        } else {
            m.error().force_quirks().to(State::BogusDoctype)
        },
        State::BeforeDoctypeIdentifier(kind) => if gap(c) {
            m
        } else if c == '"' {
            m.clear_doctype_id(kind).to(State::DoctypeIdentifierDoubleQuoted(kind))
        } else if c == '\'' {
            m.clear_doctype_id(kind).to(State::DoctypeIdentifierSingleQuoted(kind))
        } else if c == '>' {
            m.error().force_quirks().emit_doctype().to(State::Data)
        } else {
            m.error().force_quirks().to(State::BogusDoctype)
        },
        _ => m,
    }
}

/// The identifiers of a doctype, and what follows them.
pub open spec fn on_doctype_id(m: Machine, c: char) -> Machine {
    match m.state {
        State::DoctypeIdentifierDoubleQuoted(kind) => if c == '"' {
            m.to(State::AfterDoctypeIdentifier(kind))
        } else if c == '\0' {
            m.error().push_doctype_id(kind, '\u{fffd}')
        } else if c == '>' {
            m.error().force_quirks().emit_doctype().to(State::Data)
        } else {
            m.push_doctype_id(kind, c)
        },
        State::DoctypeIdentifierSingleQuoted(kind) => if c == '\'' {
            m.to(State::AfterDoctypeIdentifier(kind))
        } else if c == '\0' {
            m.error().push_doctype_id(kind, '\u{fffd}')
        } else if c == '>' {
            m.error().force_quirks().emit_doctype().to(State::Data)
        } else {
            m.push_doctype_id(kind, c)
        },
        State::AfterDoctypeIdentifier(DoctypeIdKind::Public) => if gap(c) {
            m.to(State::BetweenDoctypePublicAndSystemIdentifiers)
        } else if c == '>' {
            m.emit_doctype().to(State::Data)
        } else if c == '"' {
            m.error().clear_doctype_id(DoctypeIdKind::System).to(
                State::DoctypeIdentifierDoubleQuoted(DoctypeIdKind::System),
            )
        } else if c == '\'' {
            m.error().clear_doctype_id(DoctypeIdKind::System).to(
                State::DoctypeIdentifierSingleQuoted(DoctypeIdKind::System),
            )
        } else {
            m.error().force_quirks().to(State::BogusDoctype)
        },
        State::AfterDoctypeIdentifier(DoctypeIdKind::System) => if gap(c) {
            m
        } else if c == '>' {
            m.emit_doctype().to(State::Data)
        } else {
            m.error().to(State::BogusDoctype)
        },
        State::BetweenDoctypePublicAndSystemIdentifiers => if gap(c) {
            m
        } else if c == '>' {
            m.emit_doctype().to(State::Data)
        } else if c == '"' {
            m.clear_doctype_id(DoctypeIdKind::System).to(
                State::DoctypeIdentifierDoubleQuoted(DoctypeIdKind::System),
            )
        } else if c == '\'' {
            m.clear_doctype_id(DoctypeIdKind::System).to(
                State::DoctypeIdentifierSingleQuoted(DoctypeIdKind::System),
            )
        } else {
            m.error().force_quirks().to(State::BogusDoctype)
        },
        _ => if c == '>' {
            m.emit_doctype().to(State::Data)
        } else {
            m
        },
    }
}

/// The groups in which the rules are written down.
pub enum Group {
    Text,
    Tag,
    RawEnd,
    Script,
    AttrName,
    AttrValue,
    Comment,
    Doctype,
    DoctypeId,
}

/// The group of a state. The two states that look further ahead than one character
/// come under what they do when they find nothing.
pub open spec fn group(s: State) -> Group {
    match s {
        State::Data => Group::Text,
        State::Plaintext => Group::Text,
        State::RawData(_) => Group::Text,
        State::TagOpen => Group::Tag,
        State::EndTagOpen => Group::Tag,
        State::TagName => Group::Tag,
        State::RawLessThanSign(_) => Group::RawEnd,
        State::RawEndTagOpen(_) => Group::RawEnd,
        State::RawEndTagName(_) => Group::RawEnd,
        State::ScriptDataEscapeStart(_) => Group::Script,
        State::ScriptDataEscapeStartDash => Group::Script,
        State::ScriptDataEscapedDash(_) => Group::Script,
        State::ScriptDataEscapedDashDash(_) => Group::Script,
        State::ScriptDataDoubleEscapeEnd => Group::Script,
        State::BeforeAttributeName => Group::AttrName,
        State::AttributeName => Group::AttrName,
        State::AfterAttributeName => Group::AttrName,
        State::BeforeAttributeValue => Group::AttrValue,
        State::AttributeValue(_) => Group::AttrValue,
        State::AfterAttributeValueQuoted => Group::AttrValue,
        State::SelfClosingStartTag => Group::AttrValue,
        State::BogusComment => Group::Comment,
        State::MarkupDeclarationOpen => Group::Comment,
        State::CommentStart => Group::Comment,
        State::CommentStartDash => Group::Comment,
        State::Comment => Group::Comment,
        State::CommentEndDash => Group::Comment,
        State::CommentEnd => Group::Comment,
        State::CommentEndBang => Group::Comment,
        State::Doctype => Group::Doctype,
        State::BeforeDoctypeName => Group::Doctype,
        State::DoctypeName => Group::Doctype,
        State::AfterDoctypeName => Group::Doctype,
        State::AfterDoctypeKeyword(_) => Group::Doctype,
        State::BeforeDoctypeIdentifier(_) => Group::Doctype,
        State::DoctypeIdentifierDoubleQuoted(_) => Group::DoctypeId,
        State::DoctypeIdentifierSingleQuoted(_) => Group::DoctypeId,
        State::AfterDoctypeIdentifier(_) => Group::DoctypeId,
        State::BetweenDoctypePublicAndSystemIdentifiers => Group::DoctypeId,
        State::BogusDoctype => Group::DoctypeId,
        State::CdataSection => Group::Text,
    }
}

/// What the character `c` does. `answer` is what the sink says if it is asked for a
/// change of state.
#[verifier::opaque]
pub open spec fn on_char(m: Machine, c: char, answer: Option<State>) -> Machine {
    match group(m.state) {
        Group::Text => on_text(m, c),
        Group::Tag => on_tag(m, c, answer),
        Group::RawEnd => on_raw_end(m, c, answer),
        Group::Script => on_script(m, c),
        Group::AttrName => on_attr_name(m, c, answer),
        Group::AttrValue => on_attr_value(m, c, answer),
        Group::Comment => on_comment(m, c),
        Group::Doctype => on_doctype(m, c),
        Group::DoctypeId => on_doctype_id(m, c),
    }
}

/// Does a `>` end a tag in this state, whatever tag it is?
pub open spec fn ends_tags(s: State) -> bool {
    match s {
        State::TagName => true,
        State::BeforeAttributeName => true,
        State::AttributeName => true,
        State::AfterAttributeName => true,
        State::BeforeAttributeValue => true,
        State::AttributeValue(AttrValueKind::Unquoted) => true,
        State::AfterAttributeValueQuoted => true,
        State::SelfClosingStartTag => true,
        _ => false,
    }
}

/// May the characters of this state be taken in runs?
pub open spec fn takes_runs(s: State) -> bool {
    match s {
        State::Data => true,
        State::Plaintext => true,
        State::RawData(_) => true,
        State::AttributeValue(_) => true,
        _ => false,
    }
}

/// The characters that end a run: those that do more than stand for themselves,
/// and a carriage return.
pub open spec fn run_stops(s: State) -> Set<char> {
    match s {
        State::Data => set!['\r', '\0', '&', '<'],
        State::RawData(RawKind::Rcdata) => set!['\r', '\0', '&', '<'],
        State::RawData(RawKind::Rawtext) => set!['\r', '\0', '<'],
        State::RawData(RawKind::ScriptData) => set!['\r', '\0', '<'],
        State::RawData(RawKind::ScriptDataEscaped(_)) => set!['\r', '\0', '-', '<'],
        State::AttributeValue(AttrValueKind::DoubleQuoted) => set!['\r', '"', '&', '\0'],
        State::AttributeValue(AttrValueKind::SingleQuoted) => set!['\r', '\'', '&', '\0'],
        State::AttributeValue(AttrValueKind::Unquoted) => set!['\r', '\t', '\n', '\x0C', ' ', '&', '>', '\0'],
        _ => set!['\r', '\0'],
    }
}

/// What a run of characters does, none of which ends a run.
pub open spec fn on_run(m: Machine, s: Seq<char>) -> Machine {
    match m.state {
        State::AttributeValue(_) => m.append_value(s),
        _ => m.emit_run(s),
    }
}

/// What the end of the input does. The second part of the result tells whether
/// there is more to do.
#[verifier::opaque]
pub open spec fn on_eof(m: Machine) -> (Machine, bool) {
    match m.state {
        State::Data => (m.emit_eof(), false),
        State::Plaintext => (m.emit_eof(), false),
        State::RawData(RawKind::ScriptDataEscaped(_)) => (m.error_eof().to(State::Data), true),
        State::RawData(_) => (m.emit_eof(), false),
        State::TagName => (m.error_eof().to(State::Data), true),
        State::BeforeAttributeName => (m.error_eof().to(State::Data), true),
        State::AttributeName => (m.error_eof().to(State::Data), true),
        State::AfterAttributeName => (m.error_eof().to(State::Data), true),
        State::BeforeAttributeValue => (m.error_eof().to(State::Data), true),
        State::AttributeValue(_) => (m.error_eof().to(State::Data), true),
        State::AfterAttributeValueQuoted => (m.error_eof().to(State::Data), true),
        State::SelfClosingStartTag => (m.error_eof().to(State::Data), true),
        State::ScriptDataEscapedDash(_) => (m.error_eof().to(State::Data), true),
        State::ScriptDataEscapedDashDash(_) => (m.error_eof().to(State::Data), true),
        State::TagOpen => (m.error_eof().emit('<').to(State::Data), true),
        State::EndTagOpen => (m.error_eof().emit('<').emit('/').to(State::Data), true),
        State::RawLessThanSign(RawKind::ScriptDataEscaped(ScriptEscapeKind::DoubleEscaped)) => (
            m.to(escaped(ScriptEscapeKind::DoubleEscaped)),
            true,
        ),
        State::RawLessThanSign(kind) => (m.emit('<').to(raw(kind)), true),
        State::RawEndTagOpen(kind) => (m.emit('<').emit('/').to(raw(kind)), true),
        State::RawEndTagName(kind) => (m.emit('<').emit('/').emit_temp().to(raw(kind)), true),
        State::ScriptDataEscapeStart(kind) => (m.to(escaped(kind)), true),
        State::ScriptDataEscapeStartDash => (m.to(raw(RawKind::ScriptData)), true),
        State::ScriptDataDoubleEscapeEnd => (m.to(escaped(ScriptEscapeKind::DoubleEscaped)), true),
        State::CommentStart => (m.error_eof().emit_comment().to(State::Data), true),
        State::CommentStartDash => (m.error_eof().emit_comment().to(State::Data), true),
        State::Comment => (m.error_eof().emit_comment().to(State::Data), true),
        State::CommentEndDash => (m.error_eof().emit_comment().to(State::Data), true),
        State::CommentEnd => (m.error_eof().emit_comment().to(State::Data), true),
        State::CommentEndBang => (m.error_eof().emit_comment().to(State::Data), true),
        State::Doctype => (eof_before_name(m), true),
        State::BeforeDoctypeName => (eof_before_name(m), true),
        State::BogusDoctype => (m.emit_doctype().to(State::Data), true),
        State::BogusComment => (m.emit_comment().to(State::Data), true),
        State::MarkupDeclarationOpen => (m.error().to(State::BogusComment), true),
        State::DoctypeName => (eof_in_doctype(m), true),
        State::AfterDoctypeName => (eof_in_doctype(m), true),
        State::AfterDoctypeKeyword(_) => (eof_in_doctype(m), true),
        State::BeforeDoctypeIdentifier(_) => (eof_in_doctype(m), true),
        State::DoctypeIdentifierDoubleQuoted(_) => (eof_in_doctype(m), true),
        State::DoctypeIdentifierSingleQuoted(_) => (eof_in_doctype(m), true),
        State::AfterDoctypeIdentifier(_) => (eof_in_doctype(m), true),
        State::BetweenDoctypePublicAndSystemIdentifiers => (eof_in_doctype(m), true),
        State::CdataSection => (m, true),
    }
}

/// The end of the input before the name of a doctype.
pub open spec fn eof_before_name(m: Machine) -> Machine {
    m.error_eof().create_doctype().force_quirks().emit_doctype().to(State::Data)
}

/// The end of the input inside a doctype.
pub open spec fn eof_in_doctype(m: Machine) -> Machine {
    m.error_eof().force_quirks().emit_doctype().to(State::Data)
}

} // verus!
