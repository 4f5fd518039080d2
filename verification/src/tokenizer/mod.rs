//! The HTML5 tokenizer.

use vstd::prelude::*;
use std::time::Instant;
use crate::tokenizer::buffer_queue::{SetResult, joined};
use crate::tokenizer::char_ref::{CharRef, Status};
use crate::tokenizer::config::{Config, last_answer};
use crate::tokenizer::interface::opt_text;
use crate::tokenizer::machine::{opt_push, takes_char_ref};
use crate::tokenizer::profile::{elapsed_ns, time_of};
use crate::tokenizer::rules::{ends_tags, takes_runs};
use crate::tokenizer::run::{
    answers_since, lemma_advance, lemma_answers_since, lemma_at_end, lemma_eof_step, lemma_given, lemma_lookahead,
    lemma_read, lemma_read_run, lemma_run_step, lemma_step, log_kept, run, run_eof, visits,
};
use crate::tokenizer::states::{AttrValueKind, DoctypeIdKind, State};
use crate::tokenizer::steps::run_set;
use crate::tokenizer::upkeep::{eof_rank, lemma_asks, lemma_grows_on, lemma_on_char};
use crate::util::str::char_str;

pub use crate::tokenizer::actions::Tokenizer;
pub use crate::tokenizer::interface::{AttrName, Attribute, Doctype, Tag, TagKind, Token, TokenSink};

pub mod actions;
pub mod buffer_queue;
pub mod char_ref;
pub mod chunks;
pub mod comments;
pub mod config;
pub mod doctypes;
pub mod entities;
pub mod interface;
pub mod laws;
pub mod logs;
pub mod machine;
pub mod mistakes;
pub mod names;
pub mod profile;
pub mod quiet;
pub mod raw_text;
pub mod reading;
pub mod references;
pub mod rules;
pub mod run;
pub mod states;
mod steps;
pub mod tags;
pub mod text_lines;
pub mod upkeep;

verus! {

/// Add a character to an optional string. An absent one becomes the character
/// alone.
pub fn option_push_char(opt_str: &mut Option<String>, c: char)
    ensures
        opt_text(*final(opt_str)) == opt_push(opt_text(*old(opt_str)), c),
{
    match opt_str {
        Some(s) => {
            s.push(c);
        },
        None => {
            *opt_str = Some(char_str(c));
        },
    }
}

/// Add `rhs` at the end of `lhs`. Into an empty string it is moved, not copied.
pub fn append_strings(lhs: &mut String, rhs: String)
    ensures
        final(lhs)@ == old(lhs)@ + rhs@,
        old(lhs)@.len() == 0 ==> *final(lhs) == rhs,
{
    if lhs.as_str().is_empty() {
        *lhs = rhs;
        assert(old(lhs)@ + rhs@ =~= rhs@);
    } else {
        lhs.append(rhs.as_str());
    }
}

/// Tokenizer options, with an impl for `Default`.
#[derive(Clone, Debug)]
pub struct TokenizerOpts {
    /// Report all parse errors described in the standard, at some performance
    /// penalty?  Default: false
    pub exact_errors: bool,
    /// Discard a `U+FEFF BYTE ORDER MARK` if we see one at the beginning of the
    /// stream?  Default: true
    pub discard_bom: bool,
    /// Keep a record of how long we spent in each state?  Default: false
    pub profile: bool,
    /// Initial state override.  Only a test runner should use a non-`None` value!
    pub initial_state: Option<State>,
    /// Last start tag.  Only a test runner should use a non-`None` value!
    pub last_start_tag_name: Option<String>,
}

impl Default for TokenizerOpts {
    fn default() -> (r: TokenizerOpts)
        ensures
            !r.exact_errors,
            r.discard_bom,
            !r.profile,
            r.initial_state is None,
            r.last_start_tag_name is None,
    {
        TokenizerOpts {
            exact_errors: false,
            discard_bom: true,
            profile: false,
            initial_state: None,
            last_start_tag_name: None,
        }
    }
}

/// What came of reading on in a state.
enum Outcome {
    /// There is not enough input.
    Stuck,
    /// The machine is still in the middle of its state.
    Again,
    /// The machine has left its state.
    Left,
}

impl<'sink, Sink: TokenSink> Tokenizer<'sink, Sink> {
    /// Was the character `c`, read in the state `state`, one that leaves the machine in
    /// the middle of it?
    fn stayed(&self, state: State, c: char) -> (r: bool)
        ensures
            r == (self.config().m.state == state && self.config().m.char_ref is None && !(c == '>'
                && ends_tags(state))),
    {
        let tag_ended = c == '>' && match state {
            State::TagName
            | State::BeforeAttributeName
            | State::AttributeName
            | State::AfterAttributeName
            | State::BeforeAttributeValue
            | State::AttributeValue(AttrValueKind::Unquoted)
            | State::AfterAttributeValueQuoted
            | State::SelfClosingStartTag => true,
            _ => false,
        };
        self.state() == state && !self.in_char_ref() && !tag_ended
    }

    /// Read one character, and do what it does.
    fn step_char(&mut self) -> (r: Outcome)
        requires
            old(self).inv(),
            old(self).config().wf(),
            old(self).config().m.char_ref is None,
            old(self).config().wait_for is None,
        ensures
            old(self).kept(final(self)),
            (final(self).config(), !(r is Stuck)) == old(self).config().step_char(
                last_answer(final(self).config().m.log),
            ),
            !(r is Stuck) ==> (r is Again <==> old(self).config().stays(final(self).config())),
            *final(final(self).sink) == *final(old(self).sink),
            final(self).config().m.state != State::CdataSection,
    {
        let ghost cfg = self.config();
        let state = self.state();
        proof {
            lemma_read(self.config(), None);
        }
        match self.get_char() {
            None => Outcome::Stuck,
            Some(c) => {
                let ghost mid = self.config();
                self.on_char(c);
                proof {
                    let a = last_answer(self.config().m.log);
                    lemma_read(cfg, a);
                    lemma_on_char(mid.m, c, a, a);
                    lemma_grows_on(cfg.m.log, mid.m.log, self.config().m.log, a);
                    lemma_asks(mid.m, c, a);
                }
                if self.stayed(state, c) {
                    Outcome::Again
                } else {
                    Outcome::Left
                }
            },
        }
    }

    /// Read one character or one run, and do what it does.
    fn step_run(&mut self) -> (r: Outcome)
        requires
            old(self).inv(),
            old(self).config().wf(),
            old(self).config().m.char_ref is None,
            old(self).config().wait_for is None,
            takes_runs(old(self).config().m.state),
        ensures
            old(self).kept(final(self)),
            (final(self).config(), !(r is Stuck)) == old(self).config().step_run(
                last_answer(final(self).config().m.log),
            ),
            !(r is Stuck) ==> (r is Again <==> old(self).config().stays(final(self).config())),
            *final(final(self).sink) == *final(old(self).sink),
            final(self).config().m.state != State::CdataSection,
    {
        let ghost cfg = self.config();
        let state = self.state();
        let set = run_set(state);
        proof {
            lemma_read_run(self.config(), set@, None);
        }
        match self.pop_except_from(set) {
            None => Outcome::Stuck,
            Some(SetResult::FromSet(c)) => {
                let ghost mid = self.config();
                self.on_char(c);
                proof {
                    let a = last_answer(self.config().m.log);
                    lemma_read_run(cfg, set@, a);
                    lemma_on_char(mid.m, c, a, a);
                    lemma_grows_on(cfg.m.log, mid.m.log, self.config().m.log, a);
                    lemma_asks(mid.m, c, a);
                }
                if self.stayed(state, c) {
                    Outcome::Again
                } else {
                    Outcome::Left
                }
            },
            Some(SetResult::NotFromSet(b)) => {
                self.on_run(b);
                Outcome::Again
            },
        }
    }

    /// After the name of a doctype.
    fn step_after_doctype_name(&mut self) -> (r: Outcome)
        requires
            old(self).inv(),
            old(self).config().wf(),
            old(self).config().m.char_ref is None,
            old(self).config().wait_for is None,
            old(self).config().m.state == State::AfterDoctypeName,
        ensures
            old(self).kept(final(self)),
            (final(self).config(), !(r is Stuck)) == old(self).config().step_after_doctype_name(
                last_answer(final(self).config().m.log),
            ),
            !(r is Stuck) ==> (r is Again <==> old(self).config().stays(final(self).config())),
            *final(final(self).sink) == *final(old(self).sink),
            final(self).config().m.state != State::CdataSection,
    {
        proof {
            reveal_strlit("public");
            reveal_strlit("system");
            lemma_lookahead(self.config(), "public"@, true);
        }
        match self.lookahead_and_consume(6, "public", true) {
            None => {
                return Outcome::Left;
            },
            Some(true) => {
                self.to(State::AfterDoctypeKeyword(DoctypeIdKind::Public));
                return Outcome::Left;
            },
            Some(false) => {},
        }
        proof {
            lemma_lookahead(self.config(), "system"@, true);
        }
        match self.lookahead_and_consume(6, "system", true) {
            None => Outcome::Left,
            Some(true) => {
                self.to(State::AfterDoctypeKeyword(DoctypeIdKind::System));
                Outcome::Left
            },
            Some(false) => self.step_char(),
        }
    }

    /// After `<!`.
    fn step_markup_declaration_open(&mut self) -> (r: Outcome)
        requires
            old(self).inv(),
            old(self).config().wf(),
            old(self).config().m.state == State::MarkupDeclarationOpen,
        ensures
            old(self).kept(final(self)),
            (final(self).config(), !(r is Stuck)) == old(self).config().step_markup_declaration_open(),
            !(r is Stuck) ==> (r is Again <==> old(self).config().stays(final(self).config())),
            *final(final(self).sink) == *final(old(self).sink),
            final(self).config().m.state != State::CdataSection,
    {
        proof {
            reveal_strlit("--");
            reveal_strlit("doctype");
            lemma_lookahead(self.config(), "--"@, false);
        }
        match self.lookahead_and_consume(2, "--", false) {
            None => {
                return Outcome::Left;
            },
            Some(true) => {
                self.clear_comment();
                self.to(State::CommentStart);
                return Outcome::Left;
            },
            Some(false) => {},
        }
        proof {
            lemma_lookahead(self.config(), "doctype"@, true);
        }
        match self.lookahead_and_consume(7, "doctype", true) {
            None => {},
            Some(true) => {
                self.to(State::Doctype);
            },
            Some(false) => {
                self.bad_char_error();
                self.to(State::BogusComment);
            },
        }
        Outcome::Left
    }

    /// Put the characters of a reference where they go.
    fn process_char_ref(&mut self, char_ref: CharRef)
        requires
            old(self).inv(),
            takes_char_ref(old(self).config().m.state),
            char_ref.num_chars <= 2,
        ensures
            old(self).kept(final(self)),
            final(self).config() == old(self).config().with(
                old(self).config().m.put_char_ref(char_ref@),
            ),
            *final(final(self).sink) == *final(old(self).sink),
    {
        if char_ref.num_chars == 0 {
            self.put_char('&');
            return ;
        }
        assert(char_ref@[0] == char_ref.chars@[0]);
        self.put_char(char_ref.chars[0]);
        if char_ref.num_chars == 2 {
            assert(char_ref@[1] == char_ref.chars@[1]);
            self.put_char(char_ref.chars[1]);
        }
    }

    /// Put a character where a character reference of this state goes.
    fn put_char(&mut self, c: char)
        requires
            old(self).inv(),
            takes_char_ref(old(self).config().m.state),
        ensures
            old(self).kept(final(self)),
            final(self).config() == old(self).config().with(old(self).config().m.put_char(c)),
            *final(final(self).sink) == *final(old(self).sink),
    {
        match self.state() {
            State::AttributeValue(_) => self.push_value(c),
            _ => self.emit_char(c),
        }
    }

    /// One step inside a character reference.
    fn step_char_ref_tokenizer(&mut self) -> (r: bool)
        requires
            old(self).inv(),
            old(self).config().wf(),
            old(self).config().m.char_ref is Some,
        ensures
            old(self).kept(final(self)),
            (final(self).config(), r) == old(self).config().step_char_ref(),
            *final(final(self).sink) == *final(old(self).sink),
    {
        match self.take_char_ref() {
            None => false,
            Some(mut tok) => {
                let outcome = tok.step(self);
                match outcome {
                    Status::Done => {
                        self.process_char_ref(tok.get_result());
                        true
                    },
                    Status::Stuck => {
                        self.put_char_ref(tok);
                        false
                    },
                    Status::Progress => {
                        self.put_char_ref(tok);
                        true
                    },
                }
            },
        }
    }

    /// Run the state machine for a while. Return true if we should be immediately
    /// re-invoked.
    fn step(&mut self) -> (r: bool)
        requires
            old(self).inv(),
            old(self).config().wf(),
        ensures
            old(self).kept(final(self)),
            (final(self).config(), r) == old(self).config().step(
                last_answer(final(self).config().m.log),
            ),
            *final(final(self).sink) == *final(old(self).sink),
            final(self).config().wf(),
    {
        let ghost cfg0 = self.config();
        loop
            invariant
                old(self).kept(self),
                *final(self.sink) == *final(old(self).sink),
                self.config().wf(),
                cfg0 == old(self).config(),
                forall|a: Option<State>| #[trigger] cfg0.step(a) == self.config().step(a),
            decreases
                    self.config().total(),
                    self.config().in_char_ref(),
                    joined(self.config().input).len(),
                    self.config().rank(),
        {
            let ghost cfg = self.config();
            let outcome = self.advance();
            proof {
                let next = self.config();
                let a = last_answer(next.m.log);
                lemma_advance(cfg, a, a);
                if outcome is Again {
                    assert forall|b: Option<State>| #[trigger] cfg0.step(b) == next.step(b) by {
                        lemma_advance(cfg, a, b);
                    }
                }
            }
            match outcome {
                Outcome::Stuck => {
                    return false;
                },
                Outcome::Again => {},
                Outcome::Left => {
                    return true;
                },
            }
        }
    }

    /// Read on: one character or one run, one look inside a character reference, or one
    /// look ahead.
    fn advance(&mut self) -> (r: Outcome)
        requires
            old(self).inv(),
            old(self).config().wf(),
        ensures
            old(self).kept(final(self)),
            (final(self).config(), !(r is Stuck)) == old(self).config().advance(
                last_answer(final(self).config().m.log),
            ),
            !(r is Stuck) ==> (r is Again <==> old(self).config().stays(final(self).config())),
            *final(final(self).sink) == *final(old(self).sink),
            final(self).config().m.state != State::CdataSection,
    {
        proof {
            reveal(Config::advance);
        }
        if self.in_char_ref() {
            return if self.step_char_ref_tokenizer() {
                Outcome::Left
            } else {
                Outcome::Stuck
            };
        }
        if !self.waited() {
            return Outcome::Stuck;
        }
        match self.state() {
            State::AfterDoctypeName => self.step_after_doctype_name(),
            State::MarkupDeclarationOpen => self.step_markup_declaration_open(),
            State::Data | State::Plaintext | State::RawData(_) | State::AttributeValue(_) => {
                self.step_run()
            },
            _ => self.step_char(),
        }
    }

    /// Run the state machine for as long as we can.
    fn run(&mut self)
        requires
            old(self).inv(),
            old(self).config().wf(),
        ensures
            old(self).upheld(final(self)),
            log_kept(old(self).config().m.log, final(self).config().m.log),
            final(self).config() == run(
                old(self).config(),
                answers_since(old(self).config().m.log, final(self).config().m.log),
            ),
            *final(final(self).sink) == *final(old(self).sink),
            final(self).config().wf(),
            final(self).config().at_eof == old(self).config().at_eof,
            old(self).timed(
                final(self),
                old(self).config(),
                answers_since(old(self).config().m.log, final(self).config().m.log),
            ),
    {
        let ghost cfg0 = self.config();
        let ghost log0 = self.config().m.log;
        let mut going = true;
        let profile = self.profiling();
        let ghost times0 = self.record().0;
        let ghost mut visited: Set<State> = Set::empty();
        proof {
            assert(answers_since(log0, log0) =~= Seq::<Option<State>>::empty());
            assert forall|tail: Seq<Option<State>>| #[trigger] run(
                cfg0,
                answers_since(log0, log0) + tail,
            ) == run(cfg0, tail) by {
                assert(answers_since(log0, log0) + tail =~= tail);
            }
            assert forall|tail: Seq<Option<State>>, s: State| #[trigger] visits(
                cfg0,
                answers_since(log0, log0) + tail,
                s,
            ) == visits(cfg0, tail, s) by {
                assert(answers_since(log0, log0) + tail =~= tail);
            }
        }
        while going
            invariant
                profile == self.options().profile,
                old(self).upheld(self),
                *final(self.sink) == *final(old(self).sink),
                self.config().wf(),
                log0 == cfg0.m.log,
                self.config().at_eof == cfg0.at_eof,
                log_kept(log0, self.config().m.log),
                forall|tail: Seq<Option<State>>| #[trigger] run(
                    cfg0,
                    answers_since(log0, self.config().m.log) + tail,
                ) == (if going {
                    run(self.config(), tail)
                } else {
                    self.config()
                }),
                times0 == old(self).record().0,
                forall|tail: Seq<Option<State>>, s: State| #[trigger] visits(
                    cfg0,
                    answers_since(log0, self.config().m.log) + tail,
                    s,
                ) <==> visited.contains(s) || going && visits(self.config(), tail, s),
                profile ==> forall|s: State| #[trigger] time_of(self.record().0, s) is Some
                    <==> time_of(times0, s) is Some || visited.contains(s),
            decreases
                    going as int,
                    self.config().total(),
                    self.config().in_char_ref(),
                    joined(self.config().input).len(),
                    self.config().rank(),
        {
            let ghost cfg = self.config();
            let state = self.state();
            if profile {
                let old_sink: u64 = self.time_in_sink();
                let start = Instant::now();
                going = self.step();
                let in_sink: u64 = self.time_in_sink().wrapping_sub(old_sink);
                let dt: u64 = elapsed_ns(&start).wrapping_sub(in_sink);
                self.record_time(state, dt);
            } else {
                going = self.step();
            }
            proof {
                let next = self.config();
                let a = last_answer(next.m.log);
                lemma_step(cfg, a, a);
                lemma_run_step(cfg, a, Seq::empty());
                lemma_answers_since(log0, cfg.m.log, next.m.log);
                assert forall|tail: Seq<Option<State>>| #[trigger] run(
                    cfg0,
                    answers_since(log0, next.m.log) + tail,
                ) == (if going {
                    run(next, tail)
                } else {
                    next
                }) by {
                    let new = answers_since(cfg.m.log, next.m.log);
                    assert(answers_since(log0, next.m.log) + tail =~= answers_since(
                        log0,
                        cfg.m.log,
                    ) + (new + tail));
                    lemma_run_step(cfg, a, tail);
                }
                assert forall|tail: Seq<Option<State>>, s: State| #[trigger] visits(
                    cfg0,
                    answers_since(log0, next.m.log) + tail,
                    s,
                ) <==> visited.insert(cfg.m.state).contains(s) || going && visits(next, tail, s) by {
                    let new = answers_since(cfg.m.log, next.m.log);
                    assert(answers_since(log0, next.m.log) + tail =~= answers_since(
                        log0,
                        cfg.m.log,
                    ) + (new + tail));
                    lemma_run_step(cfg, a, tail);
                    assert(visits(cfg, new + tail, s) <==> cfg.m.state == s || going && visits(
                        next,
                        tail,
                        s,
                    ));
                }
                visited = visited.insert(cfg.m.state);
            }
        }
        proof {
            let given = answers_since(log0, self.config().m.log);
            assert(given + Seq::<Option<State>>::empty() =~= given);
        }
    }

    /// Feed an input string into the tokenizer.
    pub fn feed(&mut self, input: String)
        requires
            old(self).inv(),
            old(self).config().wf(),
        ensures
            old(self).upheld(final(self)),
            log_kept(old(self).config().m.log, final(self).config().m.log),
            final(self).config() == old(self).config().fed(
                input@,
                answers_since(old(self).config().m.log, final(self).config().m.log),
            ),
            *final(final(self).sink) == *final(old(self).sink),
            final(self).config().wf(),
            (*final(self).sink).events() == final(self).config().m.log,
            input@.len() == 0 ==> final(self).record() == old(self).record(),
            input@.len() > 0 ==> old(self).timed(
                final(self),
                old(self).config().given(input@),
                answers_since(old(self).config().m.log, final(self).config().m.log),
            ),
    {
        if input.as_str().is_empty() {
            proof {
                self.law_log_is_what_the_sink_saw();
            }
            return ;
        }
        proof {
            lemma_given(self.config(), input@);
        }
        self.push_input(input.as_str());
        self.run();
        proof {
            self.law_log_is_what_the_sink_saw();
        }
    }

    /// Indicate that we have reached the end of the input.
    pub fn end(&mut self)
        requires
            old(self).inv(),
            old(self).config().wf(),
        ensures
            old(self).upheld(final(self)),
            log_kept(old(self).config().m.log, final(self).config().m.log),
            final(self).config() == old(self).config().ended(
                answers_since(old(self).config().m.log, final(self).config().m.log),
            ),
            *final(final(self).sink) == *final(old(self).sink),
            final(self).config().wf(),
            (*final(self).sink).events() == final(self).config().m.log,
            old(self).timed(
                final(self),
                old(self).config().at_end(),
                answers_since(old(self).config().m.log, final(self).config().m.log),
            ),
    {
        let ghost cfg0 = self.config();
        let ghost log0 = cfg0.m.log;
        proof {
            lemma_at_end(cfg0);
        }
        // Handle EOF in the char ref sub-tokenizer, if there is one.
        // Do this first because it might un-consume stuff.
        match self.take_char_ref() {
            None => {},
            Some(mut tok) => {
                tok.end_of_file(self);
                self.process_char_ref(tok.get_result());
            },
        }
        // Process all remaining buffered input.
        self.enter_eof();
        assert(self.config() == cfg0.at_end());
        let ghost log1 = self.config().m.log;
        self.run();
        let ghost cfg2 = self.config();
        let ghost times2 = self.record().0;
        proof {
            lemma_answers_since(log0, log1, cfg2.m.log);
        }
        let mut going = true;
        while going
            invariant
                self.config().wf(),
                self.config().at_eof,
                old(self).upheld(self),
                *final(self.sink) == *final(old(self).sink),
                self.config() == cfg2.with(self.config().m),
                self.record().0 == times2,
                log_kept(log0, self.config().m.log),
                answers_since(log0, self.config().m.log) == answers_since(log0, cfg2.m.log),
                run_eof(cfg2.m) == (if going {
                    run_eof(self.config().m)
                } else {
                    self.config().m
                }),
            decreases going as int, eof_rank(self.config().m.state),
        {
            let ghost m = self.config().m;
            going = self.eof_step();
            proof {
                lemma_eof_step(m);
                lemma_answers_since(log0, m.log, self.config().m.log);
            }
        }
        proof {
            self.law_log_is_what_the_sink_saw();
        }
    }
}

} // verus!
