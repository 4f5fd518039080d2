//! What a tokenizer remembers, and the elementary actions from which its work is put
//! together.

use vstd::prelude::*;
use std::time::Instant;
use crate::tokenizer::buffer_queue::{BufferQueue, SetResult, put_front};
use crate::tokenizer::char_ref::{
    CharRefTokenizer, Entity, begins_known_name, begins_name, entities_view, find_entity,
    lookup_entity,
};
use crate::tokenizer::config::{Config, initial, is_bad_char, last_answer};
use crate::tokenizer::entities::named_entities;
use crate::tokenizer::interface::{
    AttrName, Attribute, AttributeView, Doctype, SinkEvent, Tag, TagKind, Token, TokenSink,
    attrs_view, has_attr,
};
use crate::tokenizer::machine::{Machine, char_debug, char_debug_text};
use crate::tokenizer::profile::{
    Profile, each_state_once, elapsed_ns, longest_first, time_of,
};
use crate::tokenizer::run::visits;
use crate::tokenizer::states::{DoctypeIdKind, State};
use crate::tokenizer::{TokenizerOpts, append_strings, option_push_char};
use crate::util::atom::Atom;
use crate::util::maybe_owned::MaybeOwned;
use crate::util::smallcharset::SmallCharSet;
use crate::util::str::{
    char_str, empty_str, same_text, same_text_ignore_case, take_str, to_chars,
};

verus! {

/// The HTML tokenizer.
pub struct Tokenizer<'sink, Sink: TokenSink> {
    /// Destination for tokens we emit.
    pub sink: &'sink mut Sink,
    /// Everything else that the tokenizer remembers.
    pub inner: Inner,
}

/// What a tokenizer remembers.
pub struct Inner {
    /// Options controlling the behavior of the tokenizer.
    opts: TokenizerOpts,
    /// The abstract machine state.
    state: State,
    /// Input ready to be tokenized.
    input_buffers: BufferQueue,
    /// If Some(n), the abstract machine needs n available characters to continue.
    wait_for: Option<usize>,
    /// Are we at the end of the file, once buffers have been processed completely?
    /// This affects whether we will wait for lookahead or not.
    at_eof: bool,
    /// Tokenizer for character references, if we're tokenizing one at the moment.
    char_ref_tokenizer: Option<Box<CharRefTokenizer>>,
    /// The named character references that are known.
    entities: Vec<Entity>,
    /// Current input character.  Just consumed, may reconsume.
    current_char: char,
    /// Should we reconsume the current input character?
    reconsume: bool,
    /// Did we just consume \r, translating it to \n?  In that case we need to ignore
    /// the next character if it's \n.
    ignore_lf: bool,
    /// Discard a U+FEFF BYTE ORDER MARK if we see one?  Only done at the beginning
    /// of the stream.
    discard_bom: bool,
    /// Current tag kind.
    current_tag_kind: TagKind,
    /// Current tag name.
    current_tag_name: String,
    /// Current tag is self-closing?
    current_tag_self_closing: bool,
    /// Current tag attributes.
    current_tag_attrs: Vec<Attribute>,
    /// Current attribute name.
    current_attr_name: String,
    /// Current attribute value.
    current_attr_value: String,
    /// Current comment.
    current_comment: String,
    /// Current doctype token.
    current_doctype: Doctype,
    /// Last start tag name, for use in checking "appropriate end tag".
    last_start_tag_name: Option<Atom>,
    /// The temporary buffer.
    temp_buf: String,
    /// Record of how many ns we spent in each state, if profiling is enabled.
    state_profile: Profile,
    /// Record of how many ns we spent in the token sink.
    time_in_sink: u64,
}

/// The text of an optional atom.
pub open spec fn opt_atom_text(a: Option<Atom>) -> Option<Seq<char>> {
    match a {
        Some(a) => Some(a@),
        None => None,
    }
}

impl<'sink, Sink: TokenSink> Tokenizer<'sink, Sink> {
    /// The configuration that the fields represent.
    pub closed spec fn config(&self) -> Config {
        Config {
            m: Machine {
                exact: self.inner.opts.exact_errors,
                entities: entities_view(self.inner.entities@),
                state: self.inner.state,
                pending: if self.inner.reconsume {
                    Some(self.inner.current_char)
                } else {
                    None
                },
                seen: if self.inner.opts.exact_errors {
                    self.inner.current_char
                } else {
                    '\0'
                },
                ignore_lf: self.inner.ignore_lf,
                char_ref: match self.inner.char_ref_tokenizer {
                    Some(t) => Some(t@),
                    None => None,
                },
                tag_kind: self.inner.current_tag_kind,
                tag_name: self.inner.current_tag_name@,
                self_closing: self.inner.current_tag_self_closing,
                attrs: attrs_view(self.inner.current_tag_attrs@),
                attr_name: self.inner.current_attr_name@,
                attr_value: self.inner.current_attr_value@,
                comment: self.inner.current_comment@,
                doctype: self.inner.current_doctype@,
                last_start_tag: opt_atom_text(self.inner.last_start_tag_name),
                temp_buf: self.inner.temp_buf@,
                log: (*self.sink).events(),
            },
            input: self.inner.input_buffers@,
            wait_for: match self.inner.wait_for {
                Some(n) => Some(n as nat),
                None => None,
            },
            at_eof: self.inner.at_eof,
            bom: self.inner.discard_bom,
        }
    }

    /// The parts of the state that a configuration does not show are well-formed.
    pub closed spec fn inv(&self) -> bool {
        &&& self.inner.input_buffers.wf()
        &&& self.inner.state_profile.wf()
        &&& self.inner.char_ref_tokenizer matches Some(t) ==> t.wf()
    }

    /// The character that was read last, alone and not in a run.
    pub closed spec fn current(&self) -> char {
        self.inner.current_char
    }

    /// The options.
    pub closed spec fn options(&self) -> TokenizerOpts {
        self.inner.opts
    }

    /// The record of the time spent in each state, and that of the time spent in the
    /// sink.
    pub closed spec fn record(&self) -> (Seq<(State, u64)>, u64) {
        (self.inner.state_profile@, self.inner.time_in_sink)
    }

    /// What every operation keeps, whatever it does to the configuration: the
    /// invariant, the options, and, unless a profile is asked for, the record.
    pub open spec fn upheld(&self, post: &Self) -> bool {
        &&& post.inv()
        &&& post.options() == self.options()
        &&& !self.options().profile ==> post.record() == self.record()
    }

    /// What everything within a step keeps: all that is upheld, and the times of the
    /// states.
    pub open spec fn kept(&self, post: &Self) -> bool {
        &&& self.upheld(post)
        &&& post.record().0 == self.record().0
    }

    /// If a profile is asked for, has the record got a time for each state in which a step
    /// was made on the way from `cfg`, beside those that it had before, and for no other?
    pub open spec fn timed(&self, post: &Self, cfg: Config, answers: Seq<Option<State>>) -> bool {
        self.options().profile ==> forall|s: State| #[trigger]
            time_of(post.record().0, s) is Some <==> time_of(self.record().0, s) is Some || visits(
                cfg,
                answers,
                s,
            )
    }

    /// No state occurs twice in the record.
    pub proof fn law_record_has_each_state_once(&self)
        requires
            self.inv(),
        ensures
            each_state_once(self.record().0),
    {
    }

    /// What has passed between the tokenizer and its sink, as the sink tells it.
    pub open spec fn exchanged(&self) -> Seq<SinkEvent> {
        (*self.sink).events()
    }

    /// The log of the configuration is what has passed between the tokenizer and its sink.
    pub proof fn law_log_is_what_the_sink_saw(&self)
        ensures
            self.config().m.log == self.exchanged(),
    {
    }

    /// Create a new tokenizer which feeds tokens to a particular `TokenSink`. CDATA
    /// sections are not processed: a tokenizer that begins in one cannot be used.
    pub fn new(sink: &'sink mut Sink, opts: TokenizerOpts) -> (r: Tokenizer<'sink, Sink>)
        ensures
            r.inv(),
            r.config() == initial(opts, old(sink).events()),
            (*r.sink).events() == old(sink).events(),
            opts.initial_state != Some(State::CdataSection) ==> r.config().wf(),
            r.options() == (TokenizerOpts { last_start_tag_name: None, ..opts }),
            r.record() == (Seq::<(State, u64)>::empty(), 0u64),
            *final(r.sink) == *final(sink),
    {
        let mut opts = opts;
        let last_start_tag_name = match opts.last_start_tag_name.take() {
            Some(s) => Some(Atom::from_slice(s.as_str())),
            None => None,
        };
        let state = match opts.initial_state {
            Some(s) => s,
            None => State::Data,
        };
        let discard_bom = opts.discard_bom;
        let r = Tokenizer {
            sink,
            inner: Inner {
                opts,
                state,
                input_buffers: BufferQueue::new(),
                wait_for: None,
                at_eof: false,
                char_ref_tokenizer: None,
                entities: named_entities(),
                current_char: '\0',
                reconsume: false,
                ignore_lf: false,
                discard_bom,
                current_tag_kind: TagKind::StartTag,
                current_tag_name: empty_str(),
                current_tag_self_closing: false,
                current_tag_attrs: Vec::new(),
                current_attr_name: empty_str(),
                current_attr_value: empty_str(),
                current_comment: empty_str(),
                current_doctype: Doctype::new(),
                last_start_tag_name,
                temp_buf: empty_str(),
                state_profile: Profile::new(),
                time_in_sink: 0,
            },
        };
        assert(attrs_view(r.inner.current_tag_attrs@) =~= Seq::<AttributeView>::empty());
        r
    }

    /// Add input at the end. A byte order mark is left out if nothing has been fed
    /// before.
    pub(crate) fn push_input(&mut self, input: &str)
        requires
            old(self).inv(),
            input@.len() > 0,
        ensures
            old(self).kept(final(self)),
            final(self).config() == old(self).config().given(input@),
            *final(final(self).sink) == *final(old(self).sink),
    {
        let skip: usize = if self.inner.discard_bom && to_chars(input)[0] == '\u{feff}' {
            1
        } else {
            0
        };
        self.inner.discard_bom = false;
        self.inner.input_buffers.push_back(input, skip);
        assert(input@.skip(0) =~= input@);
        assert(input@.skip(1) =~= input@.drop_first());
    }

    /// No more input will come. If we're waiting for lookahead, we're not gonna get
    /// it.
    pub(crate) fn enter_eof(&mut self)
        requires
            old(self).inv(),
        ensures
            old(self).kept(final(self)),
            final(self).config() == (Config {
                wait_for: None,
                at_eof: true,
                ..old(self).config()
            }),
            *final(final(self).sink) == *final(old(self).sink),
    {
        self.inner.wait_for = None;
        self.inner.at_eof = true;
    }

    /// Is a record of the time kept?
    pub(crate) fn profiling(&self) -> (r: bool)
        ensures
            r == self.options().profile,
    {
        self.inner.opts.profile
    }

    /// The nanoseconds spent in the token sink, modulo 2^64.
    pub fn time_in_sink(&self) -> (r: u64)
        ensures
            r == self.record().1,
    {
        self.inner.time_in_sink
    }

    /// The nanoseconds spent in each state, modulo 2^64, the longest times first. No state
    /// occurs twice.
    pub fn profile_results(&self) -> (r: Vec<(State, u64)>)
        requires
            self.inv(),
        ensures
            each_state_once(r@),
            r@.to_multiset() == self.record().0.to_multiset(),
            longest_first(r@),
    {
        self.inner.state_profile.results()
    }

    /// Take note of time spent in a state.
    pub(crate) fn record_time(&mut self, state: State, dt: u64)
        requires
            old(self).inv(),
            old(self).options().profile,
        ensures
            old(self).upheld(final(self)),
            final(self).config() == old(self).config(),
            final(self).record().1 == old(self).record().1,
            forall|s: State| #[trigger] time_of(final(self).record().0, s) == (if s == state {
                Some(
                    match time_of(old(self).record().0, s) {
                        Some(x) => ((x + dt) % 0x1_0000_0000_0000_0000) as u64,
                        None => dt,
                    },
                )
            } else {
                time_of(old(self).record().0, s)
            }),
            *final(final(self).sink) == *final(old(self).sink),
    {
        self.inner.state_profile.record(state, dt);
    }

    /// The state.
    pub(crate) fn state(&self) -> (r: State)
        ensures
            r == self.config().m.state,
    {
        self.inner.state
    }

    /// Are errors reported exactly?
    pub(crate) fn exact_errors(&self) -> (r: bool)
        ensures
            r == self.config().m.exact,
    {
        self.inner.opts.exact_errors
    }

    /// Is `name` the beginning of the name of a known reference?
    pub(crate) fn begins_known_name(&self, name: &Vec<char>) -> (r: bool)
        ensures
            r == begins_name(self.config().m.entities, name@),
    {
        begins_known_name(&self.inner.entities, name)
    }

    /// The characters of the known reference with the name `name`.
    pub(crate) fn lookup_entity(&self, name: &Vec<char>) -> (r: Option<(char, Option<char>)>)
        ensures
            r == (match find_entity(self.config().m.entities, name@) {
                Some(e) => Some((e.first, e.second)),
                None => None,
            }),
    {
        lookup_entity(&self.inner.entities, name)
    }

    /// Does the temporary buffer hold the text `s`?
    pub(crate) fn temp_buf_is(&self, s: &str) -> (r: bool)
        ensures
            r == (self.config().m.temp_buf == s@),
    {
        same_text(self.inner.temp_buf.as_str(), s)
    }

    /// Hand a token to the sink.
    fn process_token(&mut self, token: Token)
        requires
            old(self).inv(),
        ensures
            old(self).kept(final(self)),
            final(self).config() == old(self).config().with(
                old(self).config().m.token(token@),
            ),
            *final(final(self).sink) == *final(old(self).sink),
            final(self).current() == old(self).current(),
    {
        if self.inner.opts.profile {
            let start = Instant::now();
            self.sink.process_token(token);
            let dt = elapsed_ns(&start);
            self.inner.time_in_sink = self.inner.time_in_sink.wrapping_add(dt);
        } else {
            self.sink.process_token(token);
        }
    }

    /// Report a parse error.
    pub(crate) fn emit_error(&mut self, error: MaybeOwned)
        requires
            old(self).inv(),
        ensures
            old(self).kept(final(self)),
            final(self).config() == old(self).config().with(old(self).config().m.error_text(error@)),
            *final(final(self).sink) == *final(old(self).sink),
            final(self).current() == old(self).current(),
    {
        self.process_token(Token::ParseError(error));
    }

    /// Report that the current character does not belong in the current state.
    pub(crate) fn bad_char_error(&mut self)
        requires
            old(self).inv(),
        ensures
            old(self).kept(final(self)),
            final(self).config() == old(self).config().with(old(self).config().m.error()),
            *final(final(self).sink) == *final(old(self).sink),
    {
        let msg = if self.inner.opts.exact_errors {
            let mut s = "Saw ".to_string();
            s.append(char_debug(self.inner.current_char).as_str());
            s.append(" in state ");
            s.append(self.inner.state.describe().as_str());
            MaybeOwned::Owned(s)
        } else {
            MaybeOwned::Slice("Bad character")
        };
        self.emit_error(msg);
    }

    /// Report that the input ends in the current state.
    pub(crate) fn bad_eof_error(&mut self)
        requires
            old(self).inv(),
        ensures
            old(self).kept(final(self)),
            final(self).config() == old(self).config().with(old(self).config().m.error_eof()),
            *final(final(self).sink) == *final(old(self).sink),
    {
        let msg = if self.inner.opts.exact_errors {
            let mut s = "Saw EOF in state ".to_string();
            s.append(self.inner.state.describe().as_str());
            MaybeOwned::Owned(s)
        } else {
            MaybeOwned::Slice("Unexpected EOF")
        };
        self.emit_error(msg);
    }

    /// Emit one character.
    pub(crate) fn emit_char(&mut self, c: char)
        requires
            old(self).inv(),
        ensures
            old(self).kept(final(self)),
            final(self).config() == old(self).config().with(old(self).config().m.emit(c)),
            *final(final(self).sink) == *final(old(self).sink),
    {
        let token = match c {
            '\0' => Token::NullCharacterToken,
            _ => Token::CharacterTokens(char_str(c)),
        };
        self.process_token(token);
    }

    /// Emit characters. None of them may be U+0000, which has a token of its own.
    pub(crate) fn emit_chars(&mut self, b: String)
        requires
            old(self).inv(),
            !b@.contains('\0'),
        ensures
            old(self).kept(final(self)),
            final(self).config() == old(self).config().with(old(self).config().m.emit_run(b@)),
            *final(final(self).sink) == *final(old(self).sink),
    {
        self.process_token(Token::CharacterTokens(b));
    }

    /// Emit the temporary buffer, and empty it.
    pub(crate) fn emit_temp_buf(&mut self)
        requires
            old(self).inv(),
            !old(self).config().m.temp_buf.contains('\0'),
        ensures
            old(self).kept(final(self)),
            final(self).config() == old(self).config().with(old(self).config().m.emit_temp()),
            *final(final(self).sink) == *final(old(self).sink),
    {
        let buf = take_str(&mut self.inner.temp_buf);
        self.emit_chars(buf);
    }

    /// Empty the temporary buffer.
    pub(crate) fn clear_temp_buf(&mut self)
        requires
            old(self).inv(),
        ensures
            old(self).kept(final(self)),
            final(self).config() == old(self).config().with(old(self).config().m.clear_temp()),
            *final(final(self).sink) == *final(old(self).sink),
    {
        self.inner.temp_buf.clear();
    }

    /// Add to the temporary buffer.
    pub(crate) fn push_temp(&mut self, c: char)
        requires
            old(self).inv(),
        ensures
            old(self).kept(final(self)),
            final(self).config() == old(self).config().with(old(self).config().m.push_temp(c)),
            *final(final(self).sink) == *final(old(self).sink),
    {
        self.inner.temp_buf.push(c);
    }

    /// Emit the current comment, and begin an empty one.
    pub(crate) fn emit_current_comment(&mut self)
        requires
            old(self).inv(),
        ensures
            old(self).kept(final(self)),
            final(self).config() == old(self).config().with(old(self).config().m.emit_comment()),
            *final(final(self).sink) == *final(old(self).sink),
    {
        let comment = take_str(&mut self.inner.current_comment);
        self.process_token(Token::CommentToken(comment));
    }

    /// Empty the current comment.
    pub(crate) fn clear_comment(&mut self)
        requires
            old(self).inv(),
        ensures
            old(self).kept(final(self)),
            final(self).config() == old(self).config().with(old(self).config().m.clear_comment()),
            *final(final(self).sink) == *final(old(self).sink),
    {
        self.inner.current_comment.clear();
    }

    /// Add a character to the current comment.
    pub(crate) fn push_comment(&mut self, c: char)
        requires
            old(self).inv(),
        ensures
            old(self).kept(final(self)),
            final(self).config() == old(self).config().with(old(self).config().m.push_comment(c)),
            *final(final(self).sink) == *final(old(self).sink),
    {
        self.inner.current_comment.push(c);
    }

    /// Add text to the current comment.
    pub(crate) fn append_comment(&mut self, s: &str)
        requires
            old(self).inv(),
        ensures
            old(self).kept(final(self)),
            final(self).config() == old(self).config().with(old(self).config().m.append_comment(s@)),
            *final(final(self).sink) == *final(old(self).sink),
    {
        self.inner.current_comment.append(s);
    }

    /// Forget the current tag.
    pub(crate) fn discard_tag(&mut self)
        requires
            old(self).inv(),
        ensures
            old(self).kept(final(self)),
            final(self).config() == old(self).config().with(old(self).config().m.discard_tag()),
            *final(final(self).sink) == *final(old(self).sink),
    {
        self.inner.current_tag_name = String::new();
        self.inner.current_tag_self_closing = false;
        self.inner.current_tag_attrs = Vec::new();
        assert(attrs_view(self.inner.current_tag_attrs@) =~= Seq::<AttributeView>::empty());
    }

    /// Begin a tag whose name begins with `c`.
    pub(crate) fn create_tag(&mut self, kind: TagKind, c: char)
        requires
            old(self).inv(),
        ensures
            old(self).kept(final(self)),
            final(self).config() == old(self).config().with(old(self).config().m.create_tag(kind, c)),
            *final(final(self).sink) == *final(old(self).sink),
    {
        self.discard_tag();
        self.inner.current_tag_name.push(c);
        self.inner.current_tag_kind = kind;
        assert(self.inner.current_tag_name@ =~= seq![c]);
    }

    /// Add to the name of the current tag.
    pub(crate) fn push_tag(&mut self, c: char)
        requires
            old(self).inv(),
        ensures
            old(self).kept(final(self)),
            final(self).config() == old(self).config().with(old(self).config().m.push_tag(c)),
            *final(final(self).sink) == *final(old(self).sink),
    {
        self.inner.current_tag_name.push(c);
    }

    /// Mark the current tag as self-closing.
    pub(crate) fn set_self_closing(&mut self)
        requires
            old(self).inv(),
        ensures
            old(self).kept(final(self)),
            final(self).config() == old(self).config().with(old(self).config().m.set_self_closing()),
            *final(final(self).sink) == *final(old(self).sink),
    {
        self.inner.current_tag_self_closing = true;
    }

    /// Begin an attribute whose name begins with `c`.
    pub(crate) fn create_attribute(&mut self, c: char)
        requires
            old(self).inv(),
        ensures
            old(self).kept(final(self)),
            final(self).config() == old(self).config().with(old(self).config().m.create_attr(c)),
            *final(final(self).sink) == *final(old(self).sink),
    {
        self.finish_attribute();
        self.inner.current_attr_name.push(c);
    }

    /// Add to the name of the current attribute.
    pub(crate) fn push_name(&mut self, c: char)
        requires
            old(self).inv(),
        ensures
            old(self).kept(final(self)),
            final(self).config() == old(self).config().with(old(self).config().m.push_name(c)),
            *final(final(self).sink) == *final(old(self).sink),
    {
        self.inner.current_attr_name.push(c);
    }

    /// Add a character to the value of the current attribute.
    pub(crate) fn push_value(&mut self, c: char)
        requires
            old(self).inv(),
        ensures
            old(self).kept(final(self)),
            final(self).config() == old(self).config().with(old(self).config().m.push_value(c)),
            *final(final(self).sink) == *final(old(self).sink),
    {
        self.inner.current_attr_value.push(c);
    }

    /// Add text to the value of the current attribute.
    pub(crate) fn append_value(&mut self, s: String)
        requires
            old(self).inv(),
        ensures
            old(self).kept(final(self)),
            final(self).config() == old(self).config().with(old(self).config().m.append_value(s@)),
            *final(final(self).sink) == *final(old(self).sink),
    {
        append_strings(&mut self.inner.current_attr_value, s);
    }

    /// Add the current attribute, if there is one, to the current tag, unless the tag
    /// has one of that name already.
    pub(crate) fn finish_attribute(&mut self)
        requires
            old(self).inv(),
        ensures
            old(self).kept(final(self)),
            final(self).config() == old(self).config().with(old(self).config().m.finish_attr()),
            *final(final(self).sink) == *final(old(self).sink),
    {
        if self.inner.current_attr_name.as_str().is_empty() {
            return ;
        }
        let ghost attrs = attrs_view(self.inner.current_tag_attrs@);
        let ghost name = self.inner.current_attr_name@;
        let mut dup = false;
        let mut i: usize = 0;
        while i < self.inner.current_tag_attrs.len() && !dup
            invariant
                *self == *old(self),
                attrs == attrs_view(self.inner.current_tag_attrs@),
                name == self.inner.current_attr_name@,
                i <= attrs.len(),
                dup ==> has_attr(attrs, name),
                !dup ==> forall|j: int| 0 <= j < i ==> (#[trigger] attrs[j]).name != name,
            decreases attrs.len() - i,
        {
            assert(attrs[i as int] == self.inner.current_tag_attrs@[i as int]@);
            if same_text(
                self.inner.current_tag_attrs[i].name.as_slice(),
                self.inner.current_attr_name.as_str(),
            ) {
                dup = true;
            }
            i += 1;
        }
        if dup {
            self.emit_error(MaybeOwned::Slice("Duplicate attribute"));
            self.inner.current_attr_name.clear();
            self.inner.current_attr_value.clear();
        } else {
            let name = take_str(&mut self.inner.current_attr_name);
            let value = take_str(&mut self.inner.current_attr_value);
            self.inner.current_tag_attrs.push(
                Attribute { name: AttrName::new(Atom::from_slice(name.as_str())), value },
            );
            assert(attrs_view(self.inner.current_tag_attrs@) =~= attrs.push(
                AttributeView { name: name@, value: value@ },
            ));
        }
    }

    /// Begin a doctype.
    pub(crate) fn create_doctype(&mut self)
        requires
            old(self).inv(),
        ensures
            old(self).kept(final(self)),
            final(self).config() == old(self).config().with(old(self).config().m.create_doctype()),
            *final(final(self).sink) == *final(old(self).sink),
    {
        self.inner.current_doctype = Doctype::new();
    }

    /// Add to the name of the current doctype.
    pub(crate) fn push_doctype_name(&mut self, c: char)
        requires
            old(self).inv(),
        ensures
            old(self).kept(final(self)),
            final(self).config() == old(self).config().with(old(self).config().m.push_doctype_name(c)),
            *final(final(self).sink) == *final(old(self).sink),
    {
        option_push_char(&mut self.inner.current_doctype.name, c);
    }

    /// Add to an identifier of the current doctype.
    pub(crate) fn push_doctype_id(&mut self, kind: DoctypeIdKind, c: char)
        requires
            old(self).inv(),
        ensures
            old(self).kept(final(self)),
            final(self).config() == old(self).config().with(old(self).config().m.push_doctype_id(kind, c)),
            *final(final(self).sink) == *final(old(self).sink),
    {
        option_push_char(self.doctype_id(kind), c);
    }

    /// Make an identifier of the current doctype the empty text.
    pub(crate) fn clear_doctype_id(&mut self, kind: DoctypeIdKind)
        requires
            old(self).inv(),
        ensures
            old(self).kept(final(self)),
            final(self).config() == old(self).config().with(old(self).config().m.clear_doctype_id(kind)),
            *final(final(self).sink) == *final(old(self).sink),
    {
        let id = self.doctype_id(kind);
        match id {
            Some(s) => s.clear(),
            None => *id = Some(empty_str()),
        }
    }

    /// Mark the current doctype as calling for quirks mode.
    pub(crate) fn force_quirks(&mut self)
        requires
            old(self).inv(),
        ensures
            old(self).kept(final(self)),
            final(self).config() == old(self).config().with(old(self).config().m.force_quirks()),
            *final(final(self).sink) == *final(old(self).sink),
    {
        self.inner.current_doctype.force_quirks = true;
    }

    /// Emit the current doctype, and begin an empty one.
    pub(crate) fn emit_current_doctype(&mut self)
        requires
            old(self).inv(),
        ensures
            old(self).kept(final(self)),
            final(self).config() == old(self).config().with(old(self).config().m.emit_doctype()),
            *final(final(self).sink) == *final(old(self).sink),
    {
        let mut doctype = Doctype::new();
        std::mem::swap(&mut self.inner.current_doctype, &mut doctype);
        self.process_token(Token::DoctypeToken(doctype));
    }

    /// Read a character reference next. There is an additional character that cannot
    /// begin one if and only if it stands in an attribute value.
    pub(crate) fn consume_char_ref(&mut self, addnl_allowed: Option<char>)
        requires
            old(self).inv(),
        ensures
            old(self).kept(final(self)),
            final(self).config() == old(self).config().with(old(self).config().m.consume_char_ref(addnl_allowed)),
            *final(final(self).sink) == *final(old(self).sink),
    {
        self.inner.char_ref_tokenizer = Some(Box::new(CharRefTokenizer::new(addnl_allowed)));
    }

    /// Go on in another state.
    pub(crate) fn to(&mut self, s: State)
        requires
            old(self).inv(),
        ensures
            old(self).kept(final(self)),
            final(self).config() == old(self).config().with(old(self).config().m.to(s)),
            *final(final(self).sink) == *final(old(self).sink),
    {
        self.inner.state = s;
    }

    /// Go on in another state, and read the current character `c` there once more.
    pub(crate) fn reconsume_in(&mut self, s: State, c: char)
        requires
            old(self).inv(),
            old(self).config().m.exact ==> old(self).config().m.seen == c,
        ensures
            old(self).kept(final(self)),
            final(self).config() == old(self).config().with(old(self).config().m.reconsume(s, c)),
            *final(final(self).sink) == *final(old(self).sink),
    {
        self.inner.current_char = c;
        self.inner.reconsume = true;
        self.inner.state = s;
    }

    /// Report what is wrong with the current tag, if it is an end tag.
    fn end_tag_errors(&mut self)
        requires
            old(self).inv(),
        ensures
            old(self).kept(final(self)),
            final(self).config() == old(self).config().with(
                old(self).config().m.end_tag_errors(),
            ),
            *final(final(self).sink) == *final(old(self).sink),
    {
        if self.inner.current_tag_kind == TagKind::EndTag {
            if !self.inner.current_tag_attrs.is_empty() {
                self.emit_error(MaybeOwned::Slice("Attributes on an end tag"));
            }
            if self.inner.current_tag_self_closing {
                self.emit_error(MaybeOwned::Slice("Self-closing end tag"));
            }
        }
    }

    /// Take the current tag out, as a token. Its name and attributes are empty then.
    fn take_tag(&mut self) -> (r: Tag)
        requires
            old(self).inv(),
        ensures
            old(self).kept(final(self)),
            final(self).config() == old(self).config().with(
                Machine {
                    tag_name: Seq::empty(),
                    attrs: Seq::empty(),
                    ..old(self).config().m
                },
            ),
            *final(final(self).sink) == *final(old(self).sink),
            r@ == old(self).config().m.tag(),
    {
        let name = take_str(&mut self.inner.current_tag_name);
        let mut attrs: Vec<Attribute> = Vec::new();
        std::mem::swap(&mut self.inner.current_tag_attrs, &mut attrs);
        assert(attrs_view(self.inner.current_tag_attrs@) =~= Seq::<AttributeView>::empty());
        Tag {
            kind: self.inner.current_tag_kind,
            name: Atom::from_slice(name.as_str()),
            self_closing: self.inner.current_tag_self_closing,
            attrs,
        }
    }

    /// Ask the sink for a change of state.
    fn ask_sink(&mut self)
        requires
            old(self).inv(),
        ensures
            old(self).kept(final(self)),
            final(self).config() == old(self).config().with(
                old(self).config().m.ask(last_answer(final(self).config().m.log)),
            ),
            *final(final(self).sink) == *final(old(self).sink),
            old(self).config().m.state != State::CdataSection ==> final(self).config().m.state
                != State::CdataSection,
    {
        match self.sink.query_state_change() {
            None => {},
            Some(s) => {
                self.inner.state = s;
            },
        }
    }

    /// Emit the current tag and go on in the state `s`, unless the sink asks for
    /// another one after a start tag.
    #[verifier::spinoff_prover]
    #[verifier::rlimit(40)]
    pub(crate) fn emit_current_tag(&mut self, s: State)
        requires
            old(self).inv(),
        ensures
            old(self).kept(final(self)),
            final(self).config() == old(self).config().with(
                old(self).config().m.emit_tag(s, last_answer(final(self).config().m.log)),
            ),
            *final(final(self).sink) == *final(old(self).sink),
            s != State::CdataSection ==> final(self).config().m.state != State::CdataSection,
    {
        self.to(s);
        self.finish_attribute();
        self.end_tag_errors();
        let tag = self.take_tag();
        match tag.kind {
            TagKind::StartTag => {
                self.inner.last_start_tag_name = Some(tag.name.clone());
                self.process_token(Token::TagToken(tag));
                self.ask_sink();
            },
            TagKind::EndTag => {
                self.process_token(Token::TagToken(tag));
            },
        }
    }

    /// Emit the end of the file.
    pub(crate) fn emit_eof(&mut self)
        requires
            old(self).inv(),
        ensures
            old(self).kept(final(self)),
            final(self).config() == old(self).config().with(old(self).config().m.emit_eof()),
            *final(final(self).sink) == *final(old(self).sink),
    {
        self.process_token(Token::EOFToken);
    }

    /// The identifier of the current doctype that `kind` names.
    fn doctype_id(&mut self, kind: DoctypeIdKind) -> (r: &mut Option<String>)
        ensures
            *r == (match kind {
                DoctypeIdKind::Public => old(self).inner.current_doctype.public_id,
                DoctypeIdKind::System => old(self).inner.current_doctype.system_id,
            }),
            final(self).sink == old(self).sink,
            final(self).inner == (Inner {
                current_doctype: match kind {
                    DoctypeIdKind::Public => Doctype {
                        public_id: *final(r),
                        ..old(self).inner.current_doctype
                    },
                    DoctypeIdKind::System => Doctype {
                        system_id: *final(r),
                        ..old(self).inner.current_doctype
                    },
                },
                ..old(self).inner
            }),
    {
        match kind {
            DoctypeIdKind::Public => &mut self.inner.current_doctype.public_id,
            DoctypeIdKind::System => &mut self.inner.current_doctype.system_id,
        }
    }

    /// Would the current tag close the element whose start tag came last?
    pub(crate) fn have_appropriate_end_tag(&self) -> (r: bool)
        ensures
            r == self.config().m.appropriate_end_tag(),
    {
        match &self.inner.last_start_tag_name {
            Some(last) => self.inner.current_tag_kind == TagKind::EndTag && same_text(
                self.inner.current_tag_name.as_str(),
                last.as_slice(),
            ),
            None => false,
        }
    }

    /// Is `c` a character that is reported when errors are exact?
    fn is_bad(c: char) -> (r: bool)
        ensures
            r == is_bad_char(c),
    {
        let n: u32 = c as u32;
        (0x01 <= n && n <= 0x08) || n == 0x0B || (0x0E <= n && n <= 0x1F) || (0x7F <= n && n
            <= 0x9F) || (0xFDD0 <= n && n <= 0xFDEF) || (n & 0xFFFE) == 0xFFFE
    }

    /// Report `c`, if errors are exact and it is a character that is reported then.
    fn report_bad(&mut self, c: char)
        requires
            old(self).inv(),
        ensures
            old(self).kept(final(self)),
            final(self).config() == old(self).config().with(
                if old(self).config().m.exact && is_bad_char(c) {
                    old(self).config().m.error_text("Bad character "@ + char_debug_text(c))
                } else {
                    old(self).config().m
                },
            ),
            *final(final(self).sink) == *final(old(self).sink),
            final(self).current() == old(self).current(),
    {
        if self.inner.opts.exact_errors && Self::is_bad(c) {
            let mut msg = "Bad character ".to_string();
            msg.append(char_debug(c).as_str());
            self.emit_error(MaybeOwned::Owned(msg));
        }
    }

    /// Get the next input character, which might be the character `c` that we
    /// already consumed from the buffers.
    #[verifier::spinoff_prover]
    #[verifier::rlimit(40)]
    fn get_preprocessed_char(&mut self, c: char) -> (r: Option<char>)
        requires
            old(self).inv(),
            old(self).config().m.pending is None,
        ensures
            old(self).kept(final(self)),
            (r, final(self).config()) == old(self).config().preprocess(c),
            *final(final(self).sink) == *final(old(self).sink),
            final(self).current() == (match r {
                Some(d) => d,
                None => old(self).current(),
            }),
    {
        let mut c = c;
        if self.inner.ignore_lf {
            self.inner.ignore_lf = false;
            if c == '\n' {
                match self.inner.input_buffers.next() {
                    None => {
                        return None;
                    },
                    Some(d) => {
                        c = d;
                    },
                }
            }
        }
        if c == '\r' {
            self.inner.ignore_lf = true;
            c = '\n';
        }
        self.report_bad(c);
        self.inner.current_char = c;
        Some(c)
    }

    /// Get the next input character, if one is available.
    pub(crate) fn get_char(&mut self) -> (r: Option<char>)
        requires
            old(self).inv(),
        ensures
            old(self).kept(final(self)),
            (r, final(self).config()) == old(self).config().read(),
            *final(final(self).sink) == *final(old(self).sink),
            r is Some && final(self).config().m.exact && old(self).config().m.wf()
                ==> final(self).config().m.seen == r->0,
            final(self).current() == (match r {
                Some(d) => d,
                None => old(self).current(),
            }),
    {
        if self.inner.reconsume {
            self.inner.reconsume = false;
            Some(self.inner.current_char)
        } else {
            match self.inner.input_buffers.next() {
                None => None,
                Some(c) => self.get_preprocessed_char(c),
            }
        }
    }

    /// Get the next input character, or a run of input characters outside of `set`.
    ///
    /// In various corner cases this takes the slow path, so that a `FromSet` can hold
    /// a character that is not in the set. The two are to be treated alike.
    pub(crate) fn pop_except_from(&mut self, set: SmallCharSet) -> (r: Option<SetResult>)
        requires
            old(self).inv(),
        ensures
            old(self).kept(final(self)),
            final(self).config() == old(self).config().read_run(set@).1,
            (match r {
                Some(s) => Some(s@),
                None => None,
            }) == old(self).config().read_run(set@).0,
            *final(final(self).sink) == *final(old(self).sink),
            final(self).config().m.exact && old(self).config().m.wf() ==> (r matches Some(
                SetResult::FromSet(c),
            ) ==> final(self).config().m.seen == c),
    {
        if self.inner.opts.exact_errors || self.inner.reconsume || self.inner.ignore_lf {
            return match self.get_char() {
                Some(c) => Some(SetResult::FromSet(c)),
                None => None,
            };
        }
        match self.inner.input_buffers.pop_except_from(set) {
            Some(SetResult::FromSet(c)) => match self.get_preprocessed_char(c) {
                Some(d) => Some(SetResult::FromSet(d)),
                None => None,
            },
            d => d,
        }
    }

    /// If fewer characters are available than `pat` has, return None. Otherwise check
    /// if they agree with it, and consume iff so. With `fold`, the case of letters does
    /// not matter.
    pub(crate) fn lookahead_and_consume(&mut self, n: usize, pat: &str, fold: bool) -> (r: Option<
        bool,
    >)
        requires
            old(self).inv(),
            n == pat@.len(),
        ensures
            old(self).kept(final(self)),
            (r, final(self).config()) == old(self).config().lookahead(pat@, fold),
            *final(final(self).sink) == *final(old(self).sink),
    {
        match self.inner.input_buffers.pop_front(n) {
            None => {
                if self.inner.at_eof {
                    Some(false)
                } else {
                    self.inner.wait_for = Some(n);
                    None
                }
            },
            Some(s) => {
                let same = if fold {
                    same_text_ignore_case(s.as_str(), pat)
                } else {
                    same_text(s.as_str(), pat)
                };
                if same {
                    Some(true)
                } else {
                    self.unconsume(s.as_str());
                    Some(false)
                }
            },
        }
    }

    /// Look at the next input character, without consuming it.
    pub(crate) fn peek(&self) -> (r: Option<char>)
        requires
            self.inv(),
        ensures
            self.config().m.pending matches Some(c) ==> r == Some(c),
            self.config().m.pending is None ==> r == (if self.config().input.len() == 0 {
                None
            } else {
                Some(self.config().input[0][0])
            }),
    {
        if self.inner.reconsume {
            Some(self.inner.current_char)
        } else {
            self.inner.input_buffers.peek()
        }
    }

    /// Consume the next input character, which was just looked at, and which is no line
    /// break.
    pub(crate) fn discard_char(&mut self)
        requires
            old(self).inv(),
            old(self).config().m.pending is None,
            old(self).config().input.len() > 0,
            ({
                let c = old(self).config().input[0][0];
                c != '\n' && c != '\r' && !is_bad_char(c)
            }),
        ensures
            old(self).kept(final(self)),
            final(self).config() == old(self).config().skip_one().with(
                old(self).config().m.ate(old(self).config().input[0][0]),
            ),
            *final(final(self).sink) == *final(old(self).sink),
    {
        let c = self.get_char();
        assert(c is Some);
    }

    /// Stop waiting if there is enough input. Is there?
    pub(crate) fn waited(&mut self) -> (r: bool)
        requires
            old(self).inv(),
        ensures
            old(self).kept(final(self)),
            r == !old(self).config().stuck(),
            r ==> final(self).config() == (Config { wait_for: None, ..old(self).config() }),
            !r ==> final(self).config() == old(self).config(),
            *final(final(self).sink) == *final(old(self).sink),
    {
        match self.inner.wait_for {
            Some(n) => {
                if !self.inner.input_buffers.has(n) {
                    return false;
                }
                self.inner.wait_for = None;
                true
            },
            None => true,
        }
    }

    /// Is a character reference being read?
    pub(crate) fn in_char_ref(&self) -> (r: bool)
        ensures
            r == self.config().m.char_ref is Some,
    {
        self.inner.char_ref_tokenizer.is_some()
    }

    /// Take the character reference out that is being read.
    pub(crate) fn take_char_ref(&mut self) -> (r: Option<Box<CharRefTokenizer>>)
        requires
            old(self).inv(),
        ensures
            old(self).kept(final(self)),
            final(self).config() == old(self).config().with(old(self).config().without_char_ref()),
            *final(final(self).sink) == *final(old(self).sink),
            r is Some <==> old(self).config().m.char_ref is Some,
            r matches Some(t) ==> t.wf() && t@ == old(self).config().m.char_ref->0,
    {
        self.inner.char_ref_tokenizer.take()
    }

    /// Put a character reference back that is not done.
    pub(crate) fn put_char_ref(&mut self, t: Box<CharRefTokenizer>)
        requires
            old(self).inv(),
            t.wf(),
        ensures
            old(self).kept(final(self)),
            final(self).config() == old(self).config().with(
                Machine { char_ref: Some(t@), ..old(self).config().m },
            ),
            *final(final(self).sink) == *final(old(self).sink),
    {
        self.inner.char_ref_tokenizer = Some(t);
    }

    /// Put input back, to be read before anything else.
    pub(crate) fn unconsume(&mut self, buf: &str)
        requires
            old(self).inv(),
        ensures
            old(self).kept(final(self)),
            final(self).config() == (Config {
                input: put_front(old(self).config().input, buf@),
                ..old(self).config()
            }),
            *final(final(self).sink) == *final(old(self).sink),
    {
        self.inner.input_buffers.push_front(buf);
    }
}

} // verus!
