//! The abstract machine of the tokenizer: what it remembers, and the elementary
//! actions from which its rules are put together.

use vstd::prelude::*;
use crate::tokenizer::char_ref::{CharRefView, EntityView, new_char_ref};
use crate::tokenizer::interface::{
    AttributeView, DoctypeView, SinkEvent, TagKind, TagView, TokenView, empty_doctype, has_attr,
};
use crate::tokenizer::states::{DoctypeIdKind, RawKind, State};

verus! {

/// What `{:?}` shows of a character. Which characters are shown escaped is decided by
/// tables of `std`, so the text is named here and not spelled out.
pub uninterp spec fn char_debug_text(c: char) -> Seq<char>;

/// `format!("{:?}", c)`. The text is a function of the character alone, and it is
/// given the name `char_debug_text`.
#[verifier::external_body]
pub(crate) fn char_debug(c: char) -> (r: String)
    ensures
        r@ == char_debug_text(c),
{
    format!("{:?}", c)
}

/// Everything that decides what the next character will do, but for the input
/// that is still to be read, and everything that has been sent to the sink.
#[verifier::ext_equal]
pub struct Machine {
    /// Report every error, with the full message?
    pub exact: bool,
    /// The named character references that are known.
    pub entities: Seq<EntityView>,
    /// The state.
    pub state: State,
    /// A character that is to be read once more, before any input.
    pub pending: Option<char>,
    /// The character read last. Only exact error messages show it: without them it
    /// is not kept up, and is U+0000 here.
    pub seen: char,
    /// Was a carriage return just read as a line feed?
    pub ignore_lf: bool,
    /// The character reference that is being read.
    pub char_ref: Option<CharRefView>,
    pub tag_kind: TagKind,
    pub tag_name: Seq<char>,
    pub self_closing: bool,
    pub attrs: Seq<AttributeView>,
    pub attr_name: Seq<char>,
    pub attr_value: Seq<char>,
    pub comment: Seq<char>,
    pub doctype: DoctypeView,
    /// The name of the start tag emitted last.
    pub last_start_tag: Option<Seq<char>>,
    pub temp_buf: Seq<char>,
    /// What has passed between the tokenizer and its sink.
    pub log: Seq<SinkEvent>,
}

/// An optional text with a character added.
pub open spec fn opt_push(s: Option<Seq<char>>, c: char) -> Option<Seq<char>> {
    match s {
        Some(t) => Some(t.push(c)),
        None => Some(seq![c]),
    }
}

impl Machine {
    /// Send a token.
    pub open spec fn token(self, t: TokenView) -> Machine {
        Machine { log: self.log.push(SinkEvent::Token(t)), ..self }
    }

    /// Report a parse error.
    pub open spec fn error_text(self, msg: Seq<char>) -> Machine {
        self.token(TokenView::ParseError(msg))
    }

    /// Report that the character read last does not belong in this state.
    pub open spec fn error(self) -> Machine {
        self.error_text(
            if self.exact {
                "Saw "@ + char_debug_text(self.seen) + " in state "@ + self.state.text()
            } else {
                "Bad character"@
            },
        )
    }

    /// Report that the input ends in this state.
    pub open spec fn error_eof(self) -> Machine {
        self.error_text(
            if self.exact {
                "Saw EOF in state "@ + self.state.text()
            } else {
                "Unexpected EOF"@
            },
        )
    }

    /// Emit one character.
    pub open spec fn emit(self, c: char) -> Machine {
        self.token(
            if c == '\0' {
                TokenView::NullCharacterToken
            } else {
                TokenView::CharacterTokens(seq![c])
            },
        )
    }

    /// Emit several characters, none of which is U+0000.
    pub open spec fn emit_run(self, s: Seq<char>) -> Machine {
        self.token(TokenView::CharacterTokens(s))
    }

    /// Emit what the temporary buffer holds, and empty it.
    pub open spec fn emit_temp(self) -> Machine {
        Machine { temp_buf: Seq::empty(), ..self.emit_run(self.temp_buf) }
    }

    pub open spec fn clear_temp(self) -> Machine {
        Machine { temp_buf: Seq::empty(), ..self }
    }

    pub open spec fn push_temp(self, c: char) -> Machine {
        Machine { temp_buf: self.temp_buf.push(c), ..self }
    }

    /// Emit the comment, and begin an empty one.
    pub open spec fn emit_comment(self) -> Machine {
        Machine { comment: Seq::empty(), ..self.token(TokenView::CommentToken(self.comment)) }
    }

    pub open spec fn clear_comment(self) -> Machine {
        Machine { comment: Seq::empty(), ..self }
    }

    pub open spec fn push_comment(self, c: char) -> Machine {
        Machine { comment: self.comment.push(c), ..self }
    }

    pub open spec fn append_comment(self, s: Seq<char>) -> Machine {
        Machine { comment: self.comment + s, ..self }
    }

    /// Forget the current tag.
    pub open spec fn discard_tag(self) -> Machine {
        Machine { tag_name: Seq::empty(), self_closing: false, attrs: Seq::empty(), ..self }
    }

    /// Begin a tag whose name begins with `c`.
    pub open spec fn create_tag(self, kind: TagKind, c: char) -> Machine {
        Machine { tag_name: seq![c], tag_kind: kind, ..self.discard_tag() }
    }

    pub open spec fn push_tag(self, c: char) -> Machine {
        Machine { tag_name: self.tag_name.push(c), ..self }
    }

    pub open spec fn set_self_closing(self) -> Machine {
        Machine { self_closing: true, ..self }
    }

    /// Would the current tag close the element whose start tag came last?
    pub open spec fn appropriate_end_tag(self) -> bool {
        self.tag_kind == TagKind::EndTag && self.last_start_tag == Some(self.tag_name)
    }

    /// Add the current attribute, if there is one, to the current tag. Of two
    /// attributes with one name the first stays.
    pub open spec fn finish_attr(self) -> Machine {
        if self.attr_name.len() == 0 {
            self
        } else if has_attr(self.attrs, self.attr_name) {
            Machine {
                attr_name: Seq::empty(),
                attr_value: Seq::empty(),
                ..self.error_text("Duplicate attribute"@)
            }
        } else {
            Machine {
                attrs: self.attrs.push(
                    AttributeView { name: self.attr_name, value: self.attr_value },
                ),
                attr_name: Seq::empty(),
                attr_value: Seq::empty(),
                ..self
            }
        }
    }

    /// Begin an attribute whose name begins with `c`.
    pub open spec fn create_attr(self, c: char) -> Machine {
        self.finish_attr().push_name(c)
    }

    pub open spec fn push_name(self, c: char) -> Machine {
        Machine { attr_name: self.attr_name.push(c), ..self }
    }

    pub open spec fn push_value(self, c: char) -> Machine {
        Machine { attr_value: self.attr_value.push(c), ..self }
    }

    pub open spec fn append_value(self, s: Seq<char>) -> Machine {
        Machine { attr_value: self.attr_value + s, ..self }
    }

    pub open spec fn create_doctype(self) -> Machine {
        Machine { doctype: empty_doctype(), ..self }
    }

    pub open spec fn push_doctype_name(self, c: char) -> Machine {
        Machine {
            doctype: DoctypeView { name: opt_push(self.doctype.name, c), ..self.doctype },
            ..self
        }
    }

    pub open spec fn push_doctype_id(self, kind: DoctypeIdKind, c: char) -> Machine {
        match kind {
            DoctypeIdKind::Public => Machine {
                doctype: DoctypeView {
                    public_id: opt_push(self.doctype.public_id, c),
                    ..self.doctype
                },
                ..self
            },
            DoctypeIdKind::System => Machine {
                doctype: DoctypeView {
                    system_id: opt_push(self.doctype.system_id, c),
                    ..self.doctype
                },
                ..self
            },
        }
    }

    pub open spec fn clear_doctype_id(self, kind: DoctypeIdKind) -> Machine {
        match kind {
            DoctypeIdKind::Public => Machine {
                doctype: DoctypeView { public_id: Some(Seq::empty()), ..self.doctype },
                ..self
            },
            DoctypeIdKind::System => Machine {
                doctype: DoctypeView { system_id: Some(Seq::empty()), ..self.doctype },
                ..self
            },
        }
    }

    pub open spec fn force_quirks(self) -> Machine {
        Machine { doctype: DoctypeView { force_quirks: true, ..self.doctype }, ..self }
    }

    /// Emit the doctype, and begin an empty one.
    pub open spec fn emit_doctype(self) -> Machine {
        Machine { doctype: empty_doctype(), ..self.token(TokenView::DoctypeToken(self.doctype)) }
    }

    /// Go on in another state.
    pub open spec fn to(self, s: State) -> Machine {
        Machine { state: s, ..self }
    }

    /// Go on in another state, and read `c` there once more.
    pub open spec fn reconsume(self, s: State, c: char) -> Machine {
        Machine { state: s, pending: Some(c), ..self }
    }

    /// Read a character reference next.
    pub open spec fn consume_char_ref(self, addnl_allowed: Option<char>) -> Machine {
        Machine { char_ref: Some(new_char_ref(addnl_allowed)), ..self }
    }

    /// The errors of the current tag, if it is an end tag.
    pub open spec fn end_tag_errors(self) -> Machine {
        if self.tag_kind != TagKind::EndTag {
            self
        } else {
            let m = if self.attrs.len() > 0 {
                self.error_text("Attributes on an end tag"@)
            } else {
                self
            };
            if self.self_closing {
                m.error_text("Self-closing end tag"@)
            } else {
                m
            }
        }
    }

    /// Ask the sink for a change of state, which it answers with `answer`.
    pub open spec fn ask(self, answer: Option<State>) -> Machine {
        Machine {
            log: self.log.push(SinkEvent::Asked(answer)),
            state: match answer {
                Some(t) => t,
                None => self.state,
            },
            ..self
        }
    }

    /// The current tag.
    pub open spec fn tag(self) -> TagView {
        TagView {
            kind: self.tag_kind,
            name: self.tag_name,
            self_closing: self.self_closing,
            attrs: self.attrs,
        }
    }

    /// Emit the current tag and go on in the state `s`, unless the tag is a start
    /// tag and the sink, asked for a change of state, answers with another one.
    pub open spec fn emit_tag(self, s: State, answer: Option<State>) -> Machine {
        let f = self.to(s).finish_attr();
        let m = Machine {
            tag_name: Seq::empty(),
            attrs: Seq::empty(),
            ..f.end_tag_errors().token(TokenView::TagToken(f.tag()))
        };
        match f.tag_kind {
            TagKind::StartTag => Machine { last_start_tag: Some(f.tag_name), ..m }.ask(answer),
            TagKind::EndTag => m,
        }
    }

    /// Emit the end of the file.
    pub open spec fn emit_eof(self) -> Machine {
        self.token(TokenView::EOFToken)
    }

    /// Take note of a character that was read.
    pub open spec fn saw(self, c: char) -> Machine {
        Machine {
            seen: if self.exact {
                c
            } else {
                '\0'
            },
            ..self
        }
    }

    /// Put a character where a character reference of this state goes.
    pub open spec fn put_char(self, c: char) -> Machine {
        match self.state {
            State::AttributeValue(_) => self.push_value(c),
            _ => self.emit(c),
        }
    }

    /// Put the characters that a reference stands for. When it turned out to be
    /// none, its ampersand stands for itself.
    pub open spec fn put_char_ref(self, chars: Seq<char>) -> Machine {
        if chars.len() == 0 {
            self.put_char('&')
        } else if chars.len() == 1 {
            self.put_char(chars[0])
        } else {
            self.put_char(chars[0]).put_char(chars[1])
        }
    }
}

/// Can a character reference occur in this state?
pub open spec fn takes_char_ref(s: State) -> bool {
    match s {
        State::Data => true,
        State::RawData(RawKind::Rcdata) => true,
        State::AttributeValue(_) => true,
        _ => false,
    }
}

} // verus!
