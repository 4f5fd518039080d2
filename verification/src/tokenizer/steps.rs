//! The rules of the tokenizer, carried out: what each character does in each state.

use vstd::prelude::*;
use crate::tokenizer::Tokenizer;
use crate::tokenizer::config::last_answer;
use crate::tokenizer::interface::{TagKind, TokenSink};
use crate::tokenizer::rules::{
    Group, group, on_attr_name, on_attr_value, on_char, on_comment, on_doctype, on_doctype_id,
    on_eof, on_raw_end, on_run, on_script, on_tag, on_text, run_stops,
};
use crate::tokenizer::states::{AttrValueKind, DoctypeIdKind, RawKind, ScriptEscapeKind, State};
use crate::util::smallcharset::SmallCharSet;
use crate::util::str::{lower_ascii, lower_ascii_letter};

verus! {

impl<'sink, Sink: TokenSink> Tokenizer<'sink, Sink> {
    /// Text outside of tags.
    fn on_text(&mut self, c: char)
        requires
            old(self).inv(),
            old(self).config().m.wf(),
            old(self).config().m.exact ==> old(self).config().m.seen == c,
            group(old(self).config().m.state) == Group::Text,
        ensures
            old(self).kept(final(self)),
            final(self).config() == old(self).config().with(
                on_text(old(self).config().m, c),
            ),
            *final(final(self).sink) == *final(old(self).sink),
            final(self).config().m.state != State::CdataSection,
    {
        match self.state() {
            State::Data => match c {
                '\0' => {
                    self.bad_char_error();
                    self.emit_char('\0');
                },
                '&' => self.consume_char_ref(None),
                '<' => self.to(State::TagOpen),
                _ => self.emit_char(c),
            },
            State::RawData(RawKind::Rcdata) => match c {
                '\0' => {
                    self.bad_char_error();
                    self.emit_char('\u{fffd}');
                },
                '&' => self.consume_char_ref(None),
                '<' => self.to(State::RawLessThanSign(RawKind::Rcdata)),
                _ => self.emit_char(c),
            },
            State::RawData(RawKind::ScriptDataEscaped(kind)) => match c {
                '\0' => {
                    self.bad_char_error();
                    self.emit_char('\u{fffd}');
                },
                '-' => {
                    self.emit_char('-');
                    self.to(State::ScriptDataEscapedDash(kind));
                },
                '<' => {
                    if kind == ScriptEscapeKind::DoubleEscaped {
                        self.emit_char('<');
                    }
                    self.to(State::RawLessThanSign(RawKind::ScriptDataEscaped(kind)));
                },
                _ => self.emit_char(c),
            },
            State::RawData(kind) => match c {
                '\0' => {
                    self.bad_char_error();
                    self.emit_char('\u{fffd}');
                },
                '<' => self.to(State::RawLessThanSign(kind)),
                _ => self.emit_char(c),
            },
            _ => match c {
                '\0' => {
                    self.bad_char_error();
                    self.emit_char('\u{fffd}');
                },
                _ => self.emit_char(c),
            },
        }
    }

    /// The beginning of a tag.
    fn on_tag(&mut self, c: char)
        requires
            old(self).inv(),
            old(self).config().m.wf(),
            old(self).config().m.exact ==> old(self).config().m.seen == c,
            group(old(self).config().m.state) == Group::Tag,
        ensures
            old(self).kept(final(self)),
            final(self).config() == old(self).config().with(
                on_tag(
                    old(self).config().m,
                    c,
                    last_answer(final(self).config().m.log),
                ),
            ),
            *final(final(self).sink) == *final(old(self).sink),
            final(self).config().m.state != State::CdataSection,
    {
        match self.state() {
            State::TagOpen => match c {
                '!' => self.to(State::MarkupDeclarationOpen),
                '/' => self.to(State::EndTagOpen),
                '?' => {
                    self.bad_char_error();
                    self.clear_comment();
                    self.push_comment('?');
                    self.to(State::BogusComment);
                },
                _ => match lower_ascii_letter(c) {
                    Some(cl) => {
                        self.create_tag(TagKind::StartTag, cl);
                        self.to(State::TagName);
                    },
                    None => {
                        self.bad_char_error();
                        self.emit_char('<');
                        self.reconsume_in(State::Data, c);
                    },
                },
            },
            State::EndTagOpen => match c {
                '>' => {
                    self.bad_char_error();
                    self.to(State::Data);
                },
                '\0' => {
                    self.bad_char_error();
                    self.clear_comment();
                    self.push_comment('\u{fffd}');
                    self.to(State::BogusComment);
                },
                _ => match lower_ascii_letter(c) {
                    Some(cl) => {
                        self.create_tag(TagKind::EndTag, cl);
                        self.to(State::TagName);
                    },
                    None => {
                        self.bad_char_error();
                        self.clear_comment();
                        self.push_comment(c);
                        self.to(State::BogusComment);
                    },
                },
            },
            _ => match c {
                '\t' | '\n' | '\x0C' | ' ' => self.to(State::BeforeAttributeName),
                '/' => self.to(State::SelfClosingStartTag),
                '>' => self.emit_current_tag(State::Data),
                '\0' => {
                    self.bad_char_error();
                    self.push_tag('\u{fffd}');
                },
                _ => self.push_tag(lower_ascii(c)),
            },
        }
    }

    /// `<` and what may be an end tag, inside raw text.
    fn on_raw_end(&mut self, c: char)
        requires
            old(self).inv(),
            old(self).config().m.wf(),
            old(self).config().m.exact ==> old(self).config().m.seen == c,
            group(old(self).config().m.state) == Group::RawEnd,
        ensures
            old(self).kept(final(self)),
            final(self).config() == old(self).config().with(
                on_raw_end(
                    old(self).config().m,
                    c,
                    last_answer(final(self).config().m.log),
                ),
            ),
            *final(final(self).sink) == *final(old(self).sink),
            final(self).config().m.state != State::CdataSection,
    {
        match self.state() {
            State::RawLessThanSign(RawKind::ScriptDataEscaped(ScriptEscapeKind::Escaped)) => match c {
                '/' => {
                    self.clear_temp_buf();
                    self.to(
                        State::RawEndTagOpen(RawKind::ScriptDataEscaped(ScriptEscapeKind::Escaped)),
                    );
                },
                _ => match lower_ascii_letter(c) {
                    Some(cl) => {
                        self.clear_temp_buf();
                        self.push_temp(cl);
                        self.emit_char('<');
                        self.emit_char(c);
                        self.to(State::ScriptDataEscapeStart(ScriptEscapeKind::DoubleEscaped));
                    },
                    None => {
                        self.emit_char('<');
                        self.reconsume_in(
                            State::RawData(RawKind::ScriptDataEscaped(ScriptEscapeKind::Escaped)),
                            c,
                        );
                    },
                },
            },
            State::RawLessThanSign(RawKind::ScriptDataEscaped(ScriptEscapeKind::DoubleEscaped)) => match c {
                '/' => {
                    self.clear_temp_buf();
                    self.emit_char('/');
                    self.to(State::ScriptDataDoubleEscapeEnd);
                },
                _ => self.reconsume_in(
                    State::RawData(RawKind::ScriptDataEscaped(ScriptEscapeKind::DoubleEscaped)),
                    c,
                ),
            },
            State::RawLessThanSign(kind) => {
                if c == '/' {
                    self.clear_temp_buf();
                    self.to(State::RawEndTagOpen(kind));
                } else if c == '!' && kind == RawKind::ScriptData {
                    self.emit_char('<');
                    self.emit_char('!');
                    self.to(State::ScriptDataEscapeStart(ScriptEscapeKind::Escaped));
                } else {
                    self.emit_char('<');
                    self.reconsume_in(State::RawData(kind), c);
                }
            },
            State::RawEndTagOpen(kind) => match lower_ascii_letter(c) {
                Some(cl) => {
                    self.create_tag(TagKind::EndTag, cl);
                    self.push_temp(c);
                    self.to(State::RawEndTagName(kind));
                },
                None => {
                    self.emit_char('<');
                    self.emit_char('/');
                    self.reconsume_in(State::RawData(kind), c);
                },
            },
            State::RawEndTagName(kind) => self.on_raw_end_name(c, kind),
            _ => {},
        }
    }

    /// The name of what may be an end tag, inside raw text.
    fn on_raw_end_name(&mut self, c: char, kind: RawKind)
        requires
            old(self).inv(),
            old(self).config().m.wf(),
            old(self).config().m.exact ==> old(self).config().m.seen == c,
            old(self).config().m.state == State::RawEndTagName(kind),
        ensures
            old(self).kept(final(self)),
            final(self).config() == old(self).config().with(
                on_raw_end(
                    old(self).config().m,
                    c,
                    last_answer(final(self).config().m.log),
                ),
            ),
            *final(final(self).sink) == *final(old(self).sink),
            final(self).config().m.state != State::CdataSection,
    {
        if self.have_appropriate_end_tag() {
            match c {
                '\t' | '\n' | '\x0C' | ' ' => {
                    self.to(State::BeforeAttributeName);
                    return ;
                },
                '/' => {
                    self.to(State::SelfClosingStartTag);
                    return ;
                },
                '>' => {
                    self.emit_current_tag(State::Data);
                    return ;
                },
                _ => {},
            }
        }
        match lower_ascii_letter(c) {
            Some(cl) => {
                self.push_tag(cl);
                self.push_temp(c);
            },
            None => {
                self.discard_tag();
                self.emit_char('<');
                self.emit_char('/');
                self.emit_temp_buf();
                self.reconsume_in(State::RawData(kind), c);
            },
        }
    }

    /// Script text inside `<!--`.
    #[verifier::spinoff_prover]
    #[verifier::rlimit(40)]
    fn on_script(&mut self, c: char)
        requires
            old(self).inv(),
            old(self).config().m.wf(),
            old(self).config().m.exact ==> old(self).config().m.seen == c,
            group(old(self).config().m.state) == Group::Script,
        ensures
            old(self).kept(final(self)),
            final(self).config() == old(self).config().with(
                on_script(old(self).config().m, c),
            ),
            *final(final(self).sink) == *final(old(self).sink),
            final(self).config().m.state != State::CdataSection,
    {
        match self.state() {
            State::ScriptDataEscapeStart(ScriptEscapeKind::DoubleEscaped) => match c {
                '\t' | '\n' | '\x0C' | ' ' | '/' | '>' => {
                    let esc = if self.temp_buf_is("script") {
                        ScriptEscapeKind::DoubleEscaped
                    } else {
                        ScriptEscapeKind::Escaped
                    };
                    self.emit_char(c);
                    self.to(State::RawData(RawKind::ScriptDataEscaped(esc)));
                },
                _ => match lower_ascii_letter(c) {
                    Some(cl) => {
                        self.push_temp(cl);
                        self.emit_char(c);
                    },
                    None => self.reconsume_in(
                        State::RawData(RawKind::ScriptDataEscaped(ScriptEscapeKind::Escaped)),
                        c,
                    ),
                },
            },
            State::ScriptDataEscapeStart(ScriptEscapeKind::Escaped) => match c {
                '-' => {
                    self.emit_char('-');
                    self.to(State::ScriptDataEscapeStartDash);
                },
                _ => self.reconsume_in(State::RawData(RawKind::ScriptData), c),
            },
            State::ScriptDataEscapeStartDash => match c {
                '-' => {
                    self.emit_char('-');
                    self.to(State::ScriptDataEscapedDashDash(ScriptEscapeKind::Escaped));
                },
                _ => self.reconsume_in(State::RawData(RawKind::ScriptData), c),
            },
            State::ScriptDataEscapedDash(kind) => match c {
                '-' => {
                    self.emit_char('-');
                    self.to(State::ScriptDataEscapedDashDash(kind));
                },
                '<' => {
                    if kind == ScriptEscapeKind::DoubleEscaped {
                        self.emit_char('<');
                    }
                    self.to(State::RawLessThanSign(RawKind::ScriptDataEscaped(kind)));
                },
                '\0' => {
                    self.bad_char_error();
                    self.emit_char('\u{fffd}');
                    self.to(State::RawData(RawKind::ScriptDataEscaped(kind)));
                },
                _ => {
                    self.emit_char(c);
                    self.to(State::RawData(RawKind::ScriptDataEscaped(kind)));
                },
            },
            State::ScriptDataEscapedDashDash(kind) => match c {
                '-' => self.emit_char('-'),
                '<' => {
                    if kind == ScriptEscapeKind::DoubleEscaped {
                        self.emit_char('<');
                    }
                    self.to(State::RawLessThanSign(RawKind::ScriptDataEscaped(kind)));
                },
                '>' => {
                    self.emit_char('>');
                    self.to(State::RawData(RawKind::ScriptData));
                },
                '\0' => {
                    self.bad_char_error();
                    self.emit_char('\u{fffd}');
                    self.to(State::RawData(RawKind::ScriptDataEscaped(kind)));
                },
                _ => {
                    self.emit_char(c);
                    self.to(State::RawData(RawKind::ScriptDataEscaped(kind)));
                },
            },
            State::ScriptDataDoubleEscapeEnd => match c {
                '\t' | '\n' | '\x0C' | ' ' | '/' | '>' => {
                    let esc = if self.temp_buf_is("script") {
                        ScriptEscapeKind::Escaped
                    } else {
                        ScriptEscapeKind::DoubleEscaped
                    };
                    self.emit_char(c);
                    self.to(State::RawData(RawKind::ScriptDataEscaped(esc)));
                },
                _ => match lower_ascii_letter(c) {
                    Some(cl) => {
                        self.push_temp(cl);
                        self.emit_char(c);
                    },
                    None => self.reconsume_in(
                        State::RawData(RawKind::ScriptDataEscaped(ScriptEscapeKind::DoubleEscaped)),
                        c,
                    ),
                },
            },
            _ => {},
        }
    }

    /// Attribute names.
    fn on_attr_name(&mut self, c: char)
        requires
            old(self).inv(),
            old(self).config().m.wf(),
            old(self).config().m.exact ==> old(self).config().m.seen == c,
            group(old(self).config().m.state) == Group::AttrName,
        ensures
            old(self).kept(final(self)),
            final(self).config() == old(self).config().with(
                on_attr_name(
                    old(self).config().m,
                    c,
                    last_answer(final(self).config().m.log),
                ),
            ),
            *final(final(self).sink) == *final(old(self).sink),
            final(self).config().m.state != State::CdataSection,
    {
        match self.state() {
            State::BeforeAttributeName => match c {
                '\t' | '\n' | '\x0C' | ' ' => {},
                '/' => self.to(State::SelfClosingStartTag),
                '>' => self.emit_current_tag(State::Data),
                '\0' => {
                    self.bad_char_error();
                    self.create_attribute('\u{fffd}');
                    self.to(State::AttributeName);
                },
                _ => match lower_ascii_letter(c) {
                    Some(cl) => {
                        self.create_attribute(cl);
                        self.to(State::AttributeName);
                    },
                    None => {
                        if c == '"' || c == '\'' || c == '<' || c == '=' {
                            self.bad_char_error();
                        }
                        self.create_attribute(c);
                        self.to(State::AttributeName);
                    },
                },
            },
            State::AttributeName => match c {
                '\t' | '\n' | '\x0C' | ' ' => self.to(State::AfterAttributeName),
                '/' => self.to(State::SelfClosingStartTag),
                '=' => self.to(State::BeforeAttributeValue),
                '>' => self.emit_current_tag(State::Data),
                '\0' => {
                    self.bad_char_error();
                    self.push_name('\u{fffd}');
                },
                _ => match lower_ascii_letter(c) {
                    Some(cl) => self.push_name(cl),
                    None => {
                        if c == '"' || c == '\'' || c == '<' {
                            self.bad_char_error();
                        }
                        self.push_name(c);
                    },
                },
            },
            _ => match c {
                '\t' | '\n' | '\x0C' | ' ' => {},
                '/' => self.to(State::SelfClosingStartTag),
                '=' => self.to(State::BeforeAttributeValue),
                '>' => self.emit_current_tag(State::Data),
                '\0' => {
                    self.bad_char_error();
                    self.create_attribute('\u{fffd}');
                    self.to(State::AttributeName);
                },
                _ => match lower_ascii_letter(c) {
                    Some(cl) => {
                        self.create_attribute(cl);
                        self.to(State::AttributeName);
                    },
                    None => {
                        if c == '"' || c == '\'' || c == '<' {
                            self.bad_char_error();
                        }
                        self.create_attribute(c);
                        self.to(State::AttributeName);
                    },
                },
            },
        }
    }

    /// Attribute values, and the end of a tag.
    fn on_attr_value(&mut self, c: char)
        requires
            old(self).inv(),
            old(self).config().m.wf(),
            old(self).config().m.exact ==> old(self).config().m.seen == c,
            group(old(self).config().m.state) == Group::AttrValue,
        ensures
            old(self).kept(final(self)),
            final(self).config() == old(self).config().with(
                on_attr_value(
                    old(self).config().m,
                    c,
                    last_answer(final(self).config().m.log),
                ),
            ),
            *final(final(self).sink) == *final(old(self).sink),
            final(self).config().m.state != State::CdataSection,
    {
        match self.state() {
            State::BeforeAttributeValue => match c {
                '\t' | '\n' | '\x0C' | ' ' => {},
                '"' => self.to(State::AttributeValue(AttrValueKind::DoubleQuoted)),
                '&' => self.reconsume_in(State::AttributeValue(AttrValueKind::Unquoted), c),
                '\'' => self.to(State::AttributeValue(AttrValueKind::SingleQuoted)),
                '\0' => {
                    self.bad_char_error();
                    self.push_value('\u{fffd}');
                    self.to(State::AttributeValue(AttrValueKind::Unquoted));
                },
                '>' => {
                    self.bad_char_error();
                    self.emit_current_tag(State::Data);
                },
                _ => {
                    if c == '<' || c == '=' || c == '`' {
                        self.bad_char_error();
                    }
                    self.push_value(c);
                    self.to(State::AttributeValue(AttrValueKind::Unquoted));
                },
            },
            State::AttributeValue(AttrValueKind::DoubleQuoted) => match c {
                '"' => self.to(State::AfterAttributeValueQuoted),
                '&' => self.consume_char_ref(Some('"')),
                '\0' => {
                    self.bad_char_error();
                    self.push_value('\u{fffd}');
                },
                _ => self.push_value(c),
            },
            State::AttributeValue(AttrValueKind::SingleQuoted) => match c {
                '\'' => self.to(State::AfterAttributeValueQuoted),
                '&' => self.consume_char_ref(Some('\'')),
                '\0' => {
                    self.bad_char_error();
                    self.push_value('\u{fffd}');
                },
                _ => self.push_value(c),
            },
            State::AttributeValue(AttrValueKind::Unquoted) => match c {
                '\t' | '\n' | '\x0C' | ' ' => self.to(State::BeforeAttributeName),
                '&' => self.consume_char_ref(Some('>')),
                '>' => self.emit_current_tag(State::Data),
                '\0' => {
                    self.bad_char_error();
                    self.push_value('\u{fffd}');
                },
                _ => {
                    if c == '"' || c == '\'' || c == '<' || c == '=' || c == '`' {
                        self.bad_char_error();
                    }
                    self.push_value(c);
                },
            },
            State::AfterAttributeValueQuoted => match c {
                '\t' | '\n' | '\x0C' | ' ' => self.to(State::BeforeAttributeName),
                '/' => self.to(State::SelfClosingStartTag),
                '>' => self.emit_current_tag(State::Data),
                _ => {
                    self.bad_char_error();
                    self.reconsume_in(State::BeforeAttributeName, c);
                },
            },
            _ => match c {
                '>' => {
                    self.set_self_closing();
                    self.emit_current_tag(State::Data);
                },
                _ => {
                    self.bad_char_error();
                    self.reconsume_in(State::BeforeAttributeName, c);
                },
            },
        }
    }

    /// Comments.
    #[verifier::spinoff_prover]
    #[verifier::rlimit(40)]
    fn on_comment(&mut self, c: char)
        requires
            old(self).inv(),
            old(self).config().m.wf(),
            old(self).config().m.exact ==> old(self).config().m.seen == c,
            group(old(self).config().m.state) == Group::Comment,
        ensures
            old(self).kept(final(self)),
            final(self).config() == old(self).config().with(
                on_comment(old(self).config().m, c),
            ),
            *final(final(self).sink) == *final(old(self).sink),
            final(self).config().m.state != State::CdataSection,
    {
        match self.state() {
            State::CommentStart => match c {
                '-' => self.to(State::CommentStartDash),
                '\0' => {
                    self.bad_char_error();
                    self.push_comment('\u{fffd}');
                    self.to(State::Comment);
                },
                '>' => {
                    self.bad_char_error();
                    self.emit_current_comment();
                    self.to(State::Data);
                },
                _ => {
                    self.push_comment(c);
                    self.to(State::Comment);
                },
            },
            State::CommentStartDash => match c {
                '-' => self.to(State::CommentEnd),
                '\0' => {
                    self.bad_char_error();
                    self.append_comment("-\u{fffd}");
                    self.to(State::Comment);
                },
                '>' => {
                    self.bad_char_error();
                    self.emit_current_comment();
                    self.to(State::Data);
                },
                _ => {
                    self.push_comment('-');
                    self.push_comment(c);
                    self.to(State::Comment);
                },
            },
            State::Comment => match c {
                '-' => self.to(State::CommentEndDash),
                '\0' => {
                    self.bad_char_error();
                    self.push_comment('\u{fffd}');
                },
                _ => self.push_comment(c),
            },
            State::CommentEndDash => match c {
                '-' => self.to(State::CommentEnd),
                '\0' => {
                    self.bad_char_error();
                    self.append_comment("-\u{fffd}");
                    self.to(State::Comment);
                },
                _ => {
                    self.push_comment('-');
                    self.push_comment(c);
                    self.to(State::Comment);
                },
            },
            State::CommentEnd => match c {
                '>' => {
                    self.emit_current_comment();
                    self.to(State::Data);
                },
                '\0' => {
                    self.bad_char_error();
                    self.append_comment("--\u{fffd}");
                    self.to(State::Comment);
                },
                '!' => {
                    self.bad_char_error();
                    self.to(State::CommentEndBang);
                },
                '-' => {
                    self.bad_char_error();
                    self.push_comment('-');
                },
                _ => {
                    self.bad_char_error();
                    self.append_comment("--");
                    self.push_comment(c);
                    self.to(State::Comment);
                },
            },
            State::CommentEndBang => match c {
                '-' => {
                    self.append_comment("--!");
                    self.to(State::CommentEndDash);
                },
                '>' => {
                    self.emit_current_comment();
                    self.to(State::Data);
                },
                '\0' => {
                    self.bad_char_error();
                    self.append_comment("--!\u{fffd}");
                    self.to(State::Comment);
                },
                _ => {
                    self.append_comment("--!");
                    self.push_comment(c);
                    self.to(State::Comment);
                },
            },
            _ => match c {
                '>' => {
                    self.emit_current_comment();
                    self.to(State::Data);
                },
                '\0' => self.push_comment('\u{fffd}'),
                _ => self.push_comment(c),
            },
        }
    }

    /// The name of a doctype, and what follows it.
    #[verifier::spinoff_prover]
    #[verifier::rlimit(40)]
    fn on_doctype(&mut self, c: char)
        requires
            old(self).inv(),
            old(self).config().m.wf(),
            old(self).config().m.exact ==> old(self).config().m.seen == c,
            group(old(self).config().m.state) == Group::Doctype,
        ensures
            old(self).kept(final(self)),
            final(self).config() == old(self).config().with(
                on_doctype(old(self).config().m, c),
            ),
            *final(final(self).sink) == *final(old(self).sink),
            final(self).config().m.state != State::CdataSection,
    {
        match self.state() {
            State::Doctype => match c {
                '\t' | '\n' | '\x0C' | ' ' => self.to(State::BeforeDoctypeName),
                _ => {
                    self.bad_char_error();
                    self.reconsume_in(State::BeforeDoctypeName, c);
                },
            },
            State::BeforeDoctypeName => match c {
                '\t' | '\n' | '\x0C' | ' ' => {},
                '\0' => {
                    self.bad_char_error();
                    self.create_doctype();
                    self.push_doctype_name('\u{fffd}');
                    self.to(State::DoctypeName);
                },
                '>' => {
                    self.bad_char_error();
                    self.create_doctype();
                    self.force_quirks();
                    self.emit_current_doctype();
                    self.to(State::Data);
                },
                _ => {
                    self.create_doctype();
                    self.push_doctype_name(lower_ascii(c));
                    self.to(State::DoctypeName);
                },
            },
            State::DoctypeName => match c {
                '\t' | '\n' | '\x0C' | ' ' => self.to(State::AfterDoctypeName),
                '>' => {
                    self.emit_current_doctype();
                    self.to(State::Data);
                },
                '\0' => {
                    self.bad_char_error();
                    self.push_doctype_name('\u{fffd}');
                },
                _ => self.push_doctype_name(lower_ascii(c)),
            },
            State::AfterDoctypeName => match c {
                '\t' | '\n' | '\x0C' | ' ' => {},
                '>' => {
                    self.emit_current_doctype();
                    self.to(State::Data);
                },
                _ => {
                    self.bad_char_error();
                    self.force_quirks();
                    self.to(State::BogusDoctype);
                },
            },
            _ => self.on_before_doctype_id(c),
        }
    }

    /// Between the keyword of a doctype and its identifier.
    #[verifier::spinoff_prover]
    #[verifier::rlimit(40)]
    fn on_before_doctype_id(&mut self, c: char)
        requires
            old(self).inv(),
            old(self).config().m.state is AfterDoctypeKeyword
                || old(self).config().m.state is BeforeDoctypeIdentifier,
        ensures
            old(self).kept(final(self)),
            final(self).config() == old(self).config().with(
                on_doctype(old(self).config().m, c),
            ),
            *final(final(self).sink) == *final(old(self).sink),
            final(self).config().m.state != State::CdataSection,
    {
        match self.state() {
            State::AfterDoctypeKeyword(kind) => match c {
                '\t' | '\n' | '\x0C' | ' ' => self.to(State::BeforeDoctypeIdentifier(kind)),
                '"' => {
                    self.bad_char_error();
                    self.clear_doctype_id(kind);
                    self.to(State::DoctypeIdentifierDoubleQuoted(kind));
                },
                '\'' => {
                    self.bad_char_error();
                    self.clear_doctype_id(kind);
                    self.to(State::DoctypeIdentifierSingleQuoted(kind));
                },
                '>' => {
                    self.bad_char_error();
                    self.force_quirks();
                    self.emit_current_doctype();
                    self.to(State::Data);
                },
                _ => {
                    self.bad_char_error();
                    self.force_quirks();
                    self.to(State::BogusDoctype);
                },
            },
            State::BeforeDoctypeIdentifier(kind) => match c {
                '\t' | '\n' | '\x0C' | ' ' => {},
                '"' => {
                    self.clear_doctype_id(kind);
                    self.to(State::DoctypeIdentifierDoubleQuoted(kind));
                },
                '\'' => {
                    self.clear_doctype_id(kind);
                    self.to(State::DoctypeIdentifierSingleQuoted(kind));
                },
                '>' => {
                    self.bad_char_error();
                    self.force_quirks();
                    self.emit_current_doctype();
                    self.to(State::Data);
                },
                _ => {
                    self.bad_char_error();
                    self.force_quirks();
                    self.to(State::BogusDoctype);
                },
            },
            _ => {},
        }
    }

    /// The identifiers of a doctype, and what follows them.
    #[verifier::spinoff_prover]
    #[verifier::rlimit(40)]
    fn on_doctype_id(&mut self, c: char)
        requires
            old(self).inv(),
            old(self).config().m.wf(),
            old(self).config().m.exact ==> old(self).config().m.seen == c,
            group(old(self).config().m.state) == Group::DoctypeId,
        ensures
            old(self).kept(final(self)),
            final(self).config() == old(self).config().with(
                on_doctype_id(old(self).config().m, c),
            ),
            *final(final(self).sink) == *final(old(self).sink),
            final(self).config().m.state != State::CdataSection,
    {
        match self.state() {
            State::DoctypeIdentifierDoubleQuoted(kind) => match c {
                '"' => self.to(State::AfterDoctypeIdentifier(kind)),
                '\0' => {
                    self.bad_char_error();
                    self.push_doctype_id(kind, '\u{fffd}');
                },
                '>' => {
                    self.bad_char_error();
                    self.force_quirks();
                    self.emit_current_doctype();
                    self.to(State::Data);
                },
                _ => self.push_doctype_id(kind, c),
            },
            State::DoctypeIdentifierSingleQuoted(kind) => match c {
                '\'' => self.to(State::AfterDoctypeIdentifier(kind)),
                '\0' => {
                    self.bad_char_error();
                    self.push_doctype_id(kind, '\u{fffd}');
                },
                '>' => {
                    self.bad_char_error();
                    self.force_quirks();
                    self.emit_current_doctype();
                    self.to(State::Data);
                },
                _ => self.push_doctype_id(kind, c),
            },
            State::AfterDoctypeIdentifier(DoctypeIdKind::Public) => match c {
                '\t' | '\n' | '\x0C' | ' ' => self.to(
                    State::BetweenDoctypePublicAndSystemIdentifiers,
                ),
                '>' => {
                    self.emit_current_doctype();
                    self.to(State::Data);
                },
                '"' => {
                    self.bad_char_error();
                    self.clear_doctype_id(DoctypeIdKind::System);
                    self.to(State::DoctypeIdentifierDoubleQuoted(DoctypeIdKind::System));
                },
                '\'' => {
                    self.bad_char_error();
                    self.clear_doctype_id(DoctypeIdKind::System);
                    self.to(State::DoctypeIdentifierSingleQuoted(DoctypeIdKind::System));
                },
                _ => {
                    self.bad_char_error();
                    self.force_quirks();
                    self.to(State::BogusDoctype);
                },
            },
            State::AfterDoctypeIdentifier(DoctypeIdKind::System) => match c {
                '\t' | '\n' | '\x0C' | ' ' => {},
                '>' => {
                    self.emit_current_doctype();
                    self.to(State::Data);
                },
                _ => {
                    self.bad_char_error();
                    self.to(State::BogusDoctype);
                },
            },
            State::BetweenDoctypePublicAndSystemIdentifiers => match c {
                '\t' | '\n' | '\x0C' | ' ' => {},
                '>' => {
                    self.emit_current_doctype();
                    self.to(State::Data);
                },
                '"' => {
                    self.clear_doctype_id(DoctypeIdKind::System);
                    self.to(State::DoctypeIdentifierDoubleQuoted(DoctypeIdKind::System));
                },
                '\'' => {
                    self.clear_doctype_id(DoctypeIdKind::System);
                    self.to(State::DoctypeIdentifierSingleQuoted(DoctypeIdKind::System));
                },
                _ => {
                    self.bad_char_error();
                    self.force_quirks();
                    self.to(State::BogusDoctype);
                },
            },
            _ => match c {
                '>' => {
                    self.emit_current_doctype();
                    self.to(State::Data);
                },
                _ => {},
            },
        }
    }

    /// What the character `c` does.
    pub(crate) fn on_char(&mut self, c: char)
        requires
            old(self).inv(),
            old(self).config().m.wf(),
            old(self).config().m.exact ==> old(self).config().m.seen == c,
        ensures
            old(self).kept(final(self)),
            final(self).config() == old(self).config().with(
                on_char(
                    old(self).config().m,
                    c,
                    last_answer(final(self).config().m.log),
                ),
            ),
            *final(final(self).sink) == *final(old(self).sink),
            final(self).config().m.state != State::CdataSection,
    {
        proof {
            reveal(on_char);
        }
        match self.state() {
            State::Data
            | State::Plaintext
            | State::RawData(_) => self.on_text(c),
            State::TagOpen
            | State::EndTagOpen
            | State::TagName => self.on_tag(c),
            State::RawLessThanSign(_)
            | State::RawEndTagOpen(_)
            | State::RawEndTagName(_) => self.on_raw_end(c),
            State::ScriptDataEscapeStart(_)
            | State::ScriptDataEscapeStartDash
            | State::ScriptDataEscapedDash(_)
            | State::ScriptDataEscapedDashDash(_)
            | State::ScriptDataDoubleEscapeEnd => self.on_script(c),
            State::BeforeAttributeName
            | State::AttributeName
            | State::AfterAttributeName => self.on_attr_name(c),
            State::BeforeAttributeValue
            | State::AttributeValue(_)
            | State::AfterAttributeValueQuoted
            | State::SelfClosingStartTag => self.on_attr_value(c),
            State::BogusComment
            | State::MarkupDeclarationOpen
            | State::CommentStart
            | State::CommentStartDash
            | State::Comment
            | State::CommentEndDash
            | State::CommentEnd
            | State::CommentEndBang => self.on_comment(c),
            State::Doctype
            | State::BeforeDoctypeName
            | State::DoctypeName
            | State::AfterDoctypeName
            | State::AfterDoctypeKeyword(_)
            | State::BeforeDoctypeIdentifier(_) => self.on_doctype(c),
            State::DoctypeIdentifierDoubleQuoted(_)
            | State::DoctypeIdentifierSingleQuoted(_)
            | State::AfterDoctypeIdentifier(_)
            | State::BetweenDoctypePublicAndSystemIdentifiers
            | State::BogusDoctype => self.on_doctype_id(c),
            State::CdataSection => {},
        }
    }

    /// What a run of characters does.
    pub(crate) fn on_run(&mut self, b: String)
        requires
            old(self).inv(),
            !b@.contains('\0'),
        ensures
            old(self).kept(final(self)),
            final(self).config() == old(self).config().with(on_run(old(self).config().m, b@)),
            *final(final(self).sink) == *final(old(self).sink),
    {
        match self.state() {
            State::AttributeValue(_) => self.append_value(b),
            _ => self.emit_chars(b),
        }
    }

    /// What the end of the input does. Is there more to do?
    #[verifier::spinoff_prover]
    #[verifier::rlimit(40)]
    pub(crate) fn eof_step(&mut self) -> (r: bool)
        requires
            old(self).inv(),
            old(self).config().m.wf(),
        ensures
            old(self).kept(final(self)),
            final(self).config() == old(self).config().with(on_eof(old(self).config().m).0),
            r == on_eof(old(self).config().m).1,
            *final(final(self).sink) == *final(old(self).sink),
    {
        proof {
            reveal(on_eof);
        }
        match self.state() {
            State::Data
            | State::RawData(RawKind::Rcdata)
            | State::RawData(RawKind::Rawtext)
            | State::RawData(RawKind::ScriptData)
            | State::Plaintext => {
                self.emit_eof();
                return false;
            },
            State::TagName
            | State::RawData(RawKind::ScriptDataEscaped(_))
            | State::BeforeAttributeName
            | State::AttributeName
            | State::AfterAttributeName
            | State::BeforeAttributeValue
            | State::AttributeValue(_)
            | State::AfterAttributeValueQuoted
            | State::SelfClosingStartTag
            | State::ScriptDataEscapedDash(_)
            | State::ScriptDataEscapedDashDash(_) => {
                self.bad_eof_error();
                self.to(State::Data);
            },
            State::TagOpen => {
                self.bad_eof_error();
                self.emit_char('<');
                self.to(State::Data);
            },
            State::EndTagOpen => {
                self.bad_eof_error();
                self.emit_char('<');
                self.emit_char('/');
                self.to(State::Data);
            },
            State::RawLessThanSign(RawKind::ScriptDataEscaped(ScriptEscapeKind::DoubleEscaped)) => {
                self.to(
                    State::RawData(RawKind::ScriptDataEscaped(ScriptEscapeKind::DoubleEscaped)),
                );
            },
            State::RawLessThanSign(kind) => {
                self.emit_char('<');
                self.to(State::RawData(kind));
            },
            State::RawEndTagOpen(kind) => {
                self.emit_char('<');
                self.emit_char('/');
                self.to(State::RawData(kind));
            },
            State::RawEndTagName(kind) => {
                self.emit_char('<');
                self.emit_char('/');
                self.emit_temp_buf();
                self.to(State::RawData(kind));
            },
            State::ScriptDataEscapeStart(kind) => {
                self.to(State::RawData(RawKind::ScriptDataEscaped(kind)));
            },
            State::ScriptDataEscapeStartDash => {
                self.to(State::RawData(RawKind::ScriptData));
            },
            State::ScriptDataDoubleEscapeEnd => {
                self.to(
                    State::RawData(RawKind::ScriptDataEscaped(ScriptEscapeKind::DoubleEscaped)),
                );
            },
            State::CommentStart
            | State::CommentStartDash
            | State::Comment
            | State::CommentEndDash
            | State::CommentEnd
            | State::CommentEndBang => {
                self.bad_eof_error();
                self.emit_current_comment();
                self.to(State::Data);
            },
            State::Doctype | State::BeforeDoctypeName => {
                self.bad_eof_error();
                self.create_doctype();
                self.force_quirks();
                self.emit_current_doctype();
                self.to(State::Data);
            },
            State::DoctypeName
            | State::AfterDoctypeName
            | State::AfterDoctypeKeyword(_)
            | State::BeforeDoctypeIdentifier(_)
            | State::DoctypeIdentifierDoubleQuoted(_)
            | State::DoctypeIdentifierSingleQuoted(_)
            | State::AfterDoctypeIdentifier(_)
            | State::BetweenDoctypePublicAndSystemIdentifiers => {
                self.bad_eof_error();
                self.force_quirks();
                self.emit_current_doctype();
                self.to(State::Data);
            },
            State::BogusDoctype => {
                self.emit_current_doctype();
                self.to(State::Data);
            },
            State::BogusComment => {
                self.emit_current_comment();
                self.to(State::Data);
            },
            State::MarkupDeclarationOpen => {
                self.bad_char_error();
                self.to(State::BogusComment);
            },
            State::CdataSection => {},
        }
        true
    }
}

/// The characters that end a run.
pub(crate) fn run_set(s: State) -> (r: SmallCharSet)
    ensures
        r@ == run_stops(s),
{
    match s {
        State::Data | State::RawData(RawKind::Rcdata) => SmallCharSet::empty().with('\r').with('\0').with('&').with('<'),
        State::RawData(RawKind::Rawtext) | State::RawData(RawKind::ScriptData) => SmallCharSet::empty().with('\r').with('\0').with('<'),
        State::RawData(RawKind::ScriptDataEscaped(_)) => SmallCharSet::empty().with('\r').with('\0').with('-').with('<'),
        State::AttributeValue(AttrValueKind::DoubleQuoted) => SmallCharSet::empty().with('\r').with('"').with('&').with('\0'),
        State::AttributeValue(AttrValueKind::SingleQuoted) => SmallCharSet::empty().with('\r').with('\'').with('&').with('\0'),
        State::AttributeValue(AttrValueKind::Unquoted) => SmallCharSet::empty().with('\r').with('\t').with('\n').with('\x0C').with(' ').with('&').with('>').with('\0'),
        _ => SmallCharSet::empty().with('\r').with('\0'),
    }
}

} // verus!
