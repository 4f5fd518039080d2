//! How the input is cut into pieces does not matter.
//!
//! Text can reach the sink in longer or shorter runs, depending on where the input was
//! cut. Apart from that, the pieces leave no trace. To show this, a configuration is
//! looked at with the pieces of its input joined, and with the characters of its
//! output set apart.

use vstd::prelude::*;
use crate::tokenizer::buffer_queue::{
    drop_from_front, joined, lemma_joined_drop, lemma_joined_first, lemma_outside_len, outside_len,
};
use crate::tokenizer::char_ref::{cr_eof, cr_step};
use crate::tokenizer::config::{Config, read_char};
use crate::tokenizer::interface::{SinkEvent, TokenView};
use crate::tokenizer::laws::{lemma_run, may_answer};
use crate::tokenizer::logs::{
    lemma_log_cr_eof, lemma_log_cr_step, lemma_log_on_char, lemma_log_on_eof, lemma_log_on_run,
    lemma_log_put_char_ref, lemma_log_read_char,
};
use crate::tokenizer::machine::Machine;
use crate::tokenizer::rules::{on_char, on_eof, on_run, run_stops, takes_runs};
use crate::tokenizer::run::{
    advances, answers_of, answers_since, first_answer, lemma_advance, lemma_after_look,
    lemma_answers_concat, lemma_answers_since, lemma_at_end, lemma_cr_step, lemma_eof_step, lemma_given, lemma_lookahead,
    lemma_put_char_ref, lemma_step, log_kept, looks, more_answers, run, run_eof,
};
use crate::tokenizer::states::{AttrValueKind, DoctypeIdKind, State};
use crate::tokenizer::upkeep::{
    asked, eof_rank, grows, hands_on, lemma_grows_on, lemma_on_char, lemma_on_run, reads,
};
use crate::util::str::lower_text;

verus! {

/// The event of emitting one character.
pub open spec fn char_event(c: char) -> SinkEvent {
    SinkEvent::Token(TokenView::CharacterTokens(seq![c]))
}

/// An event, with characters that are emitted together set apart.
pub open spec fn flat_event(e: SinkEvent) -> Seq<SinkEvent> {
    match e {
        SinkEvent::Token(TokenView::CharacterTokens(s)) => Seq::new(
            s.len(),
            |i: int| char_event(s[i]),
        ),
        _ => seq![e],
    }
}

/// Events, with characters that are emitted together set apart.
pub open spec fn flat(log: Seq<SinkEvent>) -> Seq<SinkEvent>
    decreases log.len(),
{
    if log.len() == 0 {
        Seq::empty()
    } else {
        flat(log.drop_last()) + flat_event(log.last())
    }
}

/// Setting characters apart in one log after the other.
pub proof fn lemma_flat_concat(x: Seq<SinkEvent>, y: Seq<SinkEvent>)
    ensures
        flat(x + y) == flat(x) + flat(y),
    decreases y.len(),
{
    if y.len() == 0 {
        assert(x + y =~= x);
        assert(flat(x) + flat(y) =~= flat(x));
    } else {
        assert((x + y).drop_last() =~= x + y.drop_last());
        lemma_flat_concat(x, y.drop_last());
        assert(flat(x + y) =~= flat(x) + flat(y));
    }
}

/// Setting characters apart leaves tokens tokens.
proof fn lemma_flat_tokens(log: Seq<SinkEvent>)
    requires
        forall|i: int| 0 <= i < log.len() ==> #[trigger] log[i] is Token,
    ensures
        forall|i: int| 0 <= i < flat(log).len() ==> #[trigger] flat(log)[i] is Token,
    decreases log.len(),
{
    if log.len() > 0 {
        let init = log.drop_last();
        assert forall|i: int| 0 <= i < init.len() implies #[trigger] init[i] is Token by {
            assert(init[i] == log[i]);
        }
        lemma_flat_tokens(init);
        assert forall|i: int| 0 <= i < flat(log).len() implies #[trigger] flat(
            log,
        )[i] is Token by {
            if i < flat(init).len() {
                assert(flat(log)[i] == flat(init)[i]);
            } else {
                assert(flat(log)[i] == flat_event(log.last())[i - flat(init).len()]);
                assert(log.last() is Token);
            }
        }
    }
}

/// Setting characters apart leaves a question at the end of a step where it is.
proof fn lemma_flat_asked(out: Seq<SinkEvent>, new: Seq<SinkEvent>, a: Option<State>)
    requires
        grows(Seq::empty(), new, a),
    ensures
        asked(out, out + flat(new)) == asked(Seq::empty(), new),
{
    if asked(Seq::empty(), new) {
        assert(flat_event(new.last()) == seq![new.last()]);
        assert((out + flat(new)).last() == new.last());
    } else {
        assert forall|i: int| 0 <= i < new.len() implies #[trigger] new[i] is Token by {}
        lemma_flat_tokens(new);
        if flat(new).len() > 0 {
            assert((out + flat(new)).last() == flat(new)[flat(new).len() - 1]);
        }
    }
}

/// Setting characters apart leaves the answers as they are.
pub proof fn lemma_flat_answers(log: Seq<SinkEvent>)
    ensures
        answers_of(flat(log)) == answers_of(log),
    decreases log.len(),
{
    if log.len() > 0 {
        let init = log.drop_last();
        let last = log.last();
        lemma_flat_answers(init);
        lemma_answers_concat(flat(init), flat_event(last));
        assert(answers_of(flat_event(last)) =~= answers_of(seq![last])) by {
            match last {
                SinkEvent::Token(TokenView::CharacterTokens(s)) => {
                    lemma_no_answers(flat_event(last));
                    lemma_no_answers(seq![last]);
                },
                _ => {},
            }
        }
        lemma_answers_concat(init, seq![last]);
        assert(init + seq![last] =~= log);
    }
}

/// Tokens hold no answers.
proof fn lemma_no_answers(log: Seq<SinkEvent>)
    requires
        forall|i: int| 0 <= i < log.len() ==> #[trigger] log[i] is Token,
    ensures
        answers_of(log) == Seq::<Option<State>>::empty(),
    decreases log.len(),
{
    if log.len() > 0 {
        let init = log.drop_last();
        assert forall|i: int| 0 <= i < init.len() implies #[trigger] init[i] is Token by {
            assert(init[i] == log[i]);
        }
        lemma_no_answers(init);
        assert(log.last() is Token);
    }
}

/// A configuration, with the pieces of its input joined, and with the characters of
/// its output set apart.
#[verifier::ext_equal]
pub struct Flat {
    /// The machine, with nothing in its log.
    pub m: Machine,
    /// What has passed between the tokenizer and its sink.
    pub out: Seq<SinkEvent>,
    /// The input that is still to be read.
    pub rest: Seq<char>,
    /// No more input will come.
    pub at_eof: bool,
}

impl Config {
    /// This configuration, with the pieces of its input joined, and with the characters
    /// of its output set apart.
    pub open spec fn flat(self) -> Flat {
        Flat {
            m: self.m.unlogged(),
            out: flat(self.m.log),
            rest: joined(self.input),
            at_eof: self.at_eof,
        }
    }
}

impl Flat {
    pub open spec fn wf(self) -> bool {
        &&& self.m.wf()
        &&& self.m.settled()
        &&& self.m.log.len() == 0
    }

    /// Go on with the machine `m`, whose log holds what is new, and the input `rest`.
    pub open spec fn then_with(self, m: Machine, rest: Seq<char>) -> Flat {
        Flat { m: m.unlogged(), out: self.out + flat(m.log), rest, ..self }
    }

    /// The same, with more input at the end.
    pub open spec fn extended(self, more: Seq<char>) -> Flat {
        Flat { rest: self.rest + more, ..self }
    }

    /// Read a character.
    pub open spec fn read(self) -> (Option<char>, Machine, Seq<char>) {
        let m = self.m;
        let rest = self.rest;
        match m.pending {
            Some(c) => (Some(c), Machine { pending: None, ..m }, rest),
            None => if rest.len() == 0 {
                (None, m, rest)
            } else if m.ignore_lf && rest[0] == '\n' {
                let m = Machine { ignore_lf: false, ..m };
                if rest.len() == 1 {
                    (None, m, Seq::empty())
                } else {
                    let (d, m) = read_char(m, rest[1]);
                    (Some(d), m, rest.skip(2))
                }
            } else {
                let (d, m) = read_char(m, rest[0]);
                (Some(d), m, rest.drop_first())
            },
        }
    }

    /// Read a character, and do what it does.
    pub open spec fn step_char(self, answer: Option<State>) -> (Flat, bool) {
        let (c, m, rest) = self.read();
        match c {
            None => (self.then_with(m, rest), false),
            Some(c) => (self.then_with(on_char(m, c, answer), rest), true),
        }
    }

    /// Does the input begin with `pat`? Nothing if more input is needed to tell.
    pub open spec fn looks_at(self, pat: Seq<char>, fold: bool) -> Option<bool> {
        let n = pat.len() as int;
        if self.rest.len() < n {
            if self.at_eof {
                Some(false)
            } else {
                None
            }
        } else if fold {
            Some(lower_text(self.rest.take(n)) == lower_text(pat))
        } else {
            Some(self.rest.take(n) == pat)
        }
    }

    /// After the name of a doctype.
    pub open spec fn step_after_doctype_name(self, answer: Option<State>) -> (Flat, bool) {
        match self.looks_at("public"@, true) {
            None => (self, false),
            Some(true) => (
                self.then_with(
                    self.m.to(State::AfterDoctypeKeyword(DoctypeIdKind::Public)),
                    self.rest.skip(6),
                ),
                true,
            ),
            Some(false) => match self.looks_at("system"@, true) {
                None => (self, false),
                Some(true) => (
                    self.then_with(
                        self.m.to(State::AfterDoctypeKeyword(DoctypeIdKind::System)),
                        self.rest.skip(6),
                    ),
                    true,
                ),
                Some(false) => self.step_char(answer),
            },
        }
    }

    /// After `<!`.
    pub open spec fn step_markup_declaration_open(self) -> (Flat, bool) {
        match self.looks_at("--"@, false) {
            None => (self, false),
            Some(true) => (
                self.then_with(self.m.clear_comment().to(State::CommentStart), self.rest.skip(2)),
                true,
            ),
            Some(false) => match self.looks_at("doctype"@, true) {
                None => (self, false),
                Some(true) => (
                    self.then_with(self.m.to(State::Doctype), self.rest.skip(7)),
                    true,
                ),
                Some(false) => (
                    self.then_with(self.m.error().to(State::BogusComment), self.rest),
                    true,
                ),
            },
        }
    }

    /// One step inside a character reference.
    pub open spec fn step_char_ref(self) -> (Flat, bool) {
        if self.rest.len() == 0 {
            (self, false)
        } else {
            let m = Machine { char_ref: None, ..self.m };
            let s = cr_step(self.m.char_ref->0, m, self.rest[0]);
            let rest = s.back + (if s.eat {
                self.rest.drop_first()
            } else {
                self.rest
            });
            (
                self.then_with(
                    match s.result {
                        Some(chars) => s.m.put_char_ref(chars),
                        None => Machine { char_ref: Some(s.t), ..s.m },
                    },
                    rest,
                ),
                true,
            )
        }
    }

    /// Is the next character one of a run?
    pub open spec fn in_run(self) -> bool {
        &&& takes_runs(self.m.state)
        &&& !self.m.exact
        &&& self.m.pending is None
        &&& !self.m.ignore_lf
        &&& self.rest.len() > 0
        &&& !run_stops(self.m.state).contains(self.rest[0])
    }

    /// One step, which reads no more than one character of a run. The second part of
    /// the result tells whether another one may follow at once.
    #[verifier::opaque]
    pub open spec fn advance(self, answer: Option<State>) -> (Flat, bool) {
        if self.m.char_ref is Some {
            self.step_char_ref()
        } else if self.m.state == State::AfterDoctypeName {
            self.step_after_doctype_name(answer)
        } else if self.m.state == State::MarkupDeclarationOpen {
            self.step_markup_declaration_open()
        } else if self.in_run() {
            (self.then_with(on_run(self.m, seq![self.rest[0]]), self.rest.drop_first()), true)
        } else {
            self.step_char(answer)
        }
    }

    /// How many characters are still to be read, those included that can be put back.
    pub open spec fn total(self) -> nat {
        self.rest.len() + (if self.m.pending is Some {
            1nat
        } else {
            0nat
        }) + (match self.m.char_ref {
            Some(t) => t.held().len(),
            None => 0,
        })
    }

    /// Is a character reference being read?
    pub open spec fn in_char_ref(self) -> nat {
        if self.m.char_ref is Some {
            1
        } else {
            0
        }
    }

    /// How many steps can follow that read nothing.
    pub open spec fn rank(self) -> nat {
        match self.m.char_ref {
            Some(t) => looks(t.state),
            None => if hands_on(self.m.state) {
                1
            } else {
                0
            },
        }
    }

    /// What holds of a step.
    pub open spec fn leads(self, next: Flat, go: bool, answer: Option<State>) -> bool {
        &&& answer != Some(State::CdataSection) ==> next.wf()
        &&& next.at_eof == self.at_eof
        &&& log_kept(self.out, next.out)
        &&& answers_since(self.out, next.out) == (if asked(self.out, next.out) {
            seq![answer]
        } else {
            Seq::empty()
        })
        &&& !go ==> next.out == self.out
        &&& go ==> decreases_to!(
            self.total(), self.in_char_ref(), self.rest.len(), self.rank()
            => next.total(), next.in_char_ref(), next.rest.len(), next.rank()
        )
    }
}

/// Going on with a machine whose log holds what is new.
proof fn lemma_then_with(f: Flat, m: Machine, rest: Seq<char>, a: Option<State>)
    requires
        f.wf(),
        grows(Seq::empty(), m.log, a),
    ensures
        ({
            let next = f.then_with(m, rest);
            &&& log_kept(f.out, next.out)
            &&& asked(f.out, next.out) == asked(Seq::empty(), m.log)
            &&& answers_since(f.out, next.out) == (if asked(f.out, next.out) {
                seq![a]
            } else {
                Seq::empty()
            })
            &&& m.log.len() == 0 ==> next.out == f.out
        }),
{
    let next = f.then_with(m, rest);
    lemma_flat_asked(f.out, m.log, a);
    crate::tokenizer::run::lemma_answers_step(Seq::empty(), m.log, a);
    lemma_flat_answers(m.log);
    assert(m.log.skip(0) =~= m.log);
    assert(next.out.skip(f.out.len() as int) =~= flat(m.log));
    if m.log.len() == 0 {
        assert(next.out =~= f.out);
    }
}

/// Reading a character.
proof fn lemma_flat_read(f: Flat, a: Option<State>)
    requires
        f.wf(),
        f.m.char_ref is None,
    ensures
        ({
            let (c, m, rest) = f.read();
            &&& m.wf()
            &&& c is None ==> m.settled() && m.log == f.m.log
            &&& m.pending is None
            &&& m.char_ref is None
            &&& m.state == f.m.state
            &&& m.exact == f.m.exact
            &&& grows(Seq::empty(), m.log, a)
            &&& !asked(Seq::empty(), m.log)
            &&& c matches Some(c) ==> reads(m, c) && rest.len() + 1 <= f.total()
            &&& f.m.pending is Some ==> c == f.m.pending && rest == f.rest
            &&& f.m.pending is None && c is Some ==> rest.len() < f.rest.len()
        }),
{
}

/// A step that reads a character.
proof fn lemma_flat_step_char(f: Flat, a: Option<State>, b: Option<State>)
    requires
        f.wf(),
        f.m.char_ref is None,
    ensures
        f.leads(f.step_char(a).0, f.step_char(a).1, a),
        asked(f.out, f.step_char(a).0.out) == asked(f.out, f.step_char(b).0.out),
        !asked(f.out, f.step_char(a).0.out) ==> f.step_char(a) == f.step_char(b),
{
    lemma_flat_read(f, a);
    lemma_flat_read(f, b);
    let (c, m, rest) = f.read();
    let empty = Seq::<SinkEvent>::empty();
    match c {
        None => {
            lemma_then_with(f, m, rest, a);
        },
        Some(c) => {
            let ma = on_char(m, c, a);
            let mb = on_char(m, c, b);
            lemma_on_char(m, c, a, b);
            lemma_on_char(m, c, b, b);
            lemma_grows_on(empty, m.log, ma.log, a);
            lemma_grows_on(empty, m.log, mb.log, b);
            lemma_then_with(f, ma, rest, a);
            lemma_then_with(f, mb, rest, b);
        },
    }
}

/// A step keeps the invariant and leaves less to do if it says that another one may
/// follow. What the sink answers matters only if it is asked.
#[verifier::spinoff_prover]
#[verifier::rlimit(30)]
pub proof fn lemma_flat_step(f: Flat, a: Option<State>, b: Option<State>)
    requires
        f.wf(),
    ensures
        f.leads(f.advance(a).0, f.advance(a).1, a),
        asked(f.out, f.advance(a).0.out) == asked(f.out, f.advance(b).0.out),
        !asked(f.out, f.advance(a).0.out) ==> f.advance(a) == f.advance(b),
{
    reveal(Flat::advance);
    let empty = Seq::<SinkEvent>::empty();
    assert(answers_since(f.out, f.out) =~= Seq::<Option<State>>::empty());
    if f.m.char_ref is Some {
        lemma_flat_step_char_ref(f, a);
    } else if f.m.state == State::AfterDoctypeName {
        reveal_strlit("public");
        reveal_strlit("system");
        lemma_flat_step_char(f, a, b);
        lemma_then_with(
            f,
            f.m.to(State::AfterDoctypeKeyword(DoctypeIdKind::Public)),
            f.rest.skip(6),
            a,
        );
        lemma_then_with(
            f,
            f.m.to(State::AfterDoctypeKeyword(DoctypeIdKind::System)),
            f.rest.skip(6),
            a,
        );
    } else if f.m.state == State::MarkupDeclarationOpen {
        reveal_strlit("--");
        reveal_strlit("doctype");
        lemma_then_with(f, f.m.clear_comment().to(State::CommentStart), f.rest.skip(2), a);
        lemma_then_with(f, f.m.to(State::Doctype), f.rest.skip(7), a);
        lemma_then_with(f, f.m.error().to(State::BogusComment), f.rest, a);
    } else if f.in_run() {
        let s = seq![f.rest[0]];
        assert(!s.contains('\0'));
        lemma_on_run(f.m, s, a);
        lemma_then_with(f, on_run(f.m, s), f.rest.drop_first(), a);
    } else {
        lemma_flat_step_char(f, a, b);
    }
}

/// A step inside a character reference.
pub proof fn lemma_flat_step_char_ref(f: Flat, a: Option<State>)
    requires
        f.wf(),
        f.m.char_ref is Some,
    ensures
        f.leads(f.step_char_ref().0, f.step_char_ref().1, a),
        !asked(f.out, f.step_char_ref().0.out),
{
    assert(answers_since(f.out, f.out) =~= Seq::<Option<State>>::empty());
    if f.rest.len() > 0 {
        let empty = Seq::<SinkEvent>::empty();
        let t = f.m.char_ref->0;
        let m = Machine { char_ref: None, ..f.m };
        let c = f.rest[0];
        let s = cr_step(t, m, c);
        lemma_cr_step(t, m, c, a);
        let rest = s.back + (if s.eat {
            f.rest.drop_first()
        } else {
            f.rest
        });
        assert(m.log =~= empty);
        match s.result {
            Some(chars) => {
                lemma_put_char_ref(s.m, chars, a);
                lemma_grows_on(empty, s.m.log, s.m.put_char_ref(chars).log, a);
                lemma_then_with(f, s.m.put_char_ref(chars), rest, a);
            },
            None => {
                lemma_then_with(f, Machine { char_ref: Some(s.t), ..s.m }, rest, a);
            },
        }
    }
}

/// Step for as long as there is something to do.
pub open spec fn flat_run(f: Flat, answers: Seq<Option<State>>) -> Flat
    decreases f.total(), f.in_char_ref(), f.rest.len(), f.rank(),
    when f.wf()
{
    let a = first_answer(answers);
    let (next, go) = f.advance(a);
    if go {
        proof {
            lemma_flat_step(f, a, a);
        }
        flat_run(
            next,
            if asked(f.out, next.out) {
                more_answers(answers)
            } else {
                answers
            },
        )
    } else {
        next
    }
}

/// A configuration whose machine has grown by what is new leads where its flat form
/// leads.
proof fn lemma_flat_next(cfg: Config, next: Config, m: Machine)
    requires
        next.m == m.logged(cfg.m.log),
        next.at_eof == cfg.at_eof,
    ensures
        next.flat() == cfg.flat().then_with(m, joined(next.input)),
{
    lemma_flat_concat(cfg.m.log, m.log);
}

/// What a character does, with events before those of the log.
proof fn lemma_logged_on_char(m: Machine, log: Seq<SinkEvent>, c: char, a: Option<State>)
    ensures
        on_char(m.logged(log), c, a) == on_char(m, c, a).logged(log),
{
    lemma_log_on_char(m.logged(log), c, a);
    lemma_log_on_char(m, c, a);
    let n = on_char(m.unlogged(), c, a);
    assert(m.logged(log).unlogged() == m.unlogged());
    assert((log + m.log) + n.log =~= log + (m.log + n.log));
}

/// Putting the characters of a reference, with events before those of the log.
proof fn lemma_logged_put_char_ref(m: Machine, log: Seq<SinkEvent>, chars: Seq<char>)
    ensures
        m.logged(log).put_char_ref(chars) == m.put_char_ref(chars).logged(log),
{
    lemma_log_put_char_ref(m.logged(log), chars);
    lemma_log_put_char_ref(m, chars);
    let n = m.unlogged().put_char_ref(chars);
    assert(m.logged(log).unlogged() == m.unlogged());
    assert((log + m.log) + n.log =~= log + (m.log + n.log));
}

/// Reading a character of a configuration, and of its flat form.
proof fn lemma_read_flat(cfg: Config)
    requires
        cfg.wf(),
    ensures
        ({
            let (c, next) = cfg.read();
            let (d, m, rest) = cfg.flat().read();
            &&& c == d
            &&& next.m == m.logged(cfg.m.log)
            &&& joined(next.input) == rest
            &&& next == (Config { m: next.m, input: next.input, ..cfg })
        }),
{
    let log = cfg.m.log;
    assert(log + Seq::<SinkEvent>::empty() =~= log);
    lemma_joined_first(cfg.input);
    if cfg.m.pending is None && cfg.input.len() > 0 {
        let all = joined(cfg.input);
        let input = drop_from_front(cfg.input, 1);
        lemma_joined_first(input);
        if cfg.m.ignore_lf && all[0] == '\n' {
            if input.len() > 0 {
                assert(all.drop_first().drop_first() =~= all.skip(2));
                lemma_log_read_char(Machine { ignore_lf: false, ..cfg.m }, all[1]);
                assert(Machine { ignore_lf: false, ..cfg.m }.unlogged() == (Machine {
                    ignore_lf: false,
                    ..cfg.m.unlogged()
                }));
            } else {
                assert(all.drop_first() =~= Seq::<char>::empty());
            }
        } else {
            lemma_log_read_char(cfg.m, all[0]);
        }
    }
}

/// A step that reads a character.
proof fn lemma_step_char_flat(cfg: Config, a: Option<State>)
    requires
        cfg.wf(),
    ensures
        ({
            let (next, go) = cfg.step_char(a);
            cfg.flat().step_char(a) == (next.flat(), go)
        }),
{
    let (next, go) = cfg.step_char(a);
    let (c, mid) = cfg.read();
    let (d, m, rest) = cfg.flat().read();
    lemma_read_flat(cfg);
    match c {
        None => lemma_flat_next(cfg, next, m),
        Some(c) => {
            lemma_logged_on_char(m, cfg.m.log, c, a);
            lemma_flat_next(cfg, next, on_char(m, c, a));
        },
    }
}

/// A step inside a character reference.
proof fn lemma_step_char_ref_flat(cfg: Config)
    requires
        cfg.wf(),
        cfg.m.char_ref is Some,
    ensures
        ({
            let (next, go) = cfg.step_char_ref();
            cfg.flat().step_char_ref() == (next.flat(), go)
        }),
{
    lemma_joined_first(cfg.input);
    if cfg.input.len() > 0 {
        let (next, go) = cfg.step_char_ref();
        let t = cfg.m.char_ref->0;
        let c = cfg.input[0][0];
        let m = cfg.without_char_ref();
        let s = cr_step(t, m, c);
        let s0 = cr_step(t, m.unlogged(), c);
        lemma_log_cr_step(t, m, c);
        assert(m.unlogged() == (Machine { char_ref: None, ..cfg.flat().m }));
        lemma_after_look(cfg, s);
        match s0.result {
            Some(chars) => {
                lemma_logged_put_char_ref(s0.m, cfg.m.log, chars);
                lemma_flat_next(cfg, next, s0.m.put_char_ref(chars));
            },
            None => {
                lemma_flat_next(cfg, next, Machine { char_ref: Some(s0.t), ..s0.m });
            },
        }
    }
}

/// Looking for a text in a configuration, and in its flat form.
proof fn lemma_lookahead_flat(cfg: Config, pat: Seq<char>, fold: bool)
    requires
        cfg.wf(),
    ensures
        cfg.flat().looks_at(pat, fold) == cfg.lookahead(pat, fold).0,
        cfg.lookahead(pat, fold).0 != Some(true) ==> cfg.lookahead(pat, fold).1.flat()
            == cfg.flat(),
{
    lemma_lookahead(cfg, pat, fold);
}

/// A step after the name of a doctype.
proof fn lemma_step_after_doctype_name_flat(cfg: Config, a: Option<State>)
    requires
        cfg.wf(),
        cfg.wait_for is None,
        cfg.m.state == State::AfterDoctypeName,
    ensures
        ({
            let (next, go) = cfg.step_after_doctype_name(a);
            if next.wait_for is Some {
                next.flat() == cfg.flat() && next.m == cfg.m
            } else {
                cfg.flat().step_after_doctype_name(a) == (next.flat(), go)
            }
        }),
{
    reveal_strlit("public");
    reveal_strlit("system");
    let (next, go) = cfg.step_after_doctype_name(a);
    assert(cfg.m.log + Seq::<SinkEvent>::empty() =~= cfg.m.log);
    lemma_lookahead(cfg, "public"@, true);
    lemma_lookahead_flat(cfg, "public"@, true);
    let (r, mid) = cfg.lookahead("public"@, true);
    if r == Some(true) {
        lemma_flat_next(
            cfg,
            next,
            cfg.flat().m.to(State::AfterDoctypeKeyword(DoctypeIdKind::Public)),
        );
    } else if r == Some(false) {
        lemma_lookahead(mid, "system"@, true);
        lemma_lookahead_flat(mid, "system"@, true);
        let (r, last) = mid.lookahead("system"@, true);
        if r == Some(true) {
            lemma_flat_next(
                cfg,
                next,
                cfg.flat().m.to(State::AfterDoctypeKeyword(DoctypeIdKind::System)),
            );
        } else if r == Some(false) {
            lemma_step_char_flat(last, a);
            lemma_read_flat(last);
        }
    }
}

/// A step after `<!`.
proof fn lemma_step_markup_declaration_open_flat(cfg: Config)
    requires
        cfg.wf(),
        cfg.wait_for is None,
        cfg.m.state == State::MarkupDeclarationOpen,
    ensures
        ({
            let (next, go) = cfg.step_markup_declaration_open();
            if next.wait_for is Some {
                next.flat() == cfg.flat() && next.m == cfg.m
            } else {
                cfg.flat().step_markup_declaration_open() == (next.flat(), go)
            }
        }),
{
    reveal_strlit("--");
    reveal_strlit("doctype");
    let (next, go) = cfg.step_markup_declaration_open();
    assert(cfg.m.log + Seq::<SinkEvent>::empty() =~= cfg.m.log);
    lemma_lookahead(cfg, "--"@, false);
    lemma_lookahead_flat(cfg, "--"@, false);
    let (r, mid) = cfg.lookahead("--"@, false);
    if r == Some(true) {
        lemma_flat_next(cfg, next, cfg.flat().m.clear_comment().to(State::CommentStart));
    } else if r == Some(false) {
        lemma_lookahead(mid, "doctype"@, true);
        lemma_lookahead_flat(mid, "doctype"@, true);
        let (r, last) = mid.lookahead("doctype"@, true);
        if r == Some(true) {
            lemma_flat_next(cfg, next, cfg.flat().m.to(State::Doctype));
        } else if r == Some(false) {
            let m = cfg.flat().m.error().to(State::BogusComment);
            assert(next.m.log =~= m.logged(cfg.m.log).log);
            lemma_flat_next(cfg, next, m);
        }
    }
}

/// A run of characters does what its characters do one by one.
proof fn lemma_run_by_chars(f: Flat, s: Seq<char>, rest: Seq<char>, answers: Seq<Option<State>>)
    requires
        f.wf(),
        f.m.char_ref is None,
        f.m.pending is None,
        takes_runs(f.m.state),
        !f.m.exact,
        !f.m.ignore_lf,
        f.rest == s + rest,
        forall|i: int| 0 <= i < s.len() ==> !run_stops(f.m.state).contains(#[trigger] s[i]),
    ensures
        flat_run(f, answers) == flat_run(f.then_with(on_run(f.m, s), rest), answers),
    decreases s.len(),
{
    let goal = f.then_with(on_run(f.m, s), rest);
    let empty = Seq::<SinkEvent>::empty();
    assert(f.m.log =~= empty);
    if s.len() == 0 {
        assert(f.rest =~= rest);
        assert(f.m.attr_value + s =~= f.m.attr_value);
        lemma_flat_one(TokenView::CharacterTokens(s));
        assert(flat_event(SinkEvent::Token(TokenView::CharacterTokens(s))) =~= empty);
        assert(f.out + empty =~= f.out);
        assert(goal =~= f);
    } else {
        let c = s[0];
        let tail = s.drop_first();
        let a = first_answer(answers);
        let (next, go) = f.advance(a);
        lemma_flat_step(f, None, a);
        assert(f.in_run());
        reveal(Flat::advance);
        assert(next == f.then_with(on_run(f.m, seq![c]), f.rest.drop_first()));
        lemma_on_run(f.m, seq![c], None);
        lemma_then_with(f, on_run(f.m, seq![c]), f.rest.drop_first(), None);
        assert(f.rest.drop_first() =~= tail + rest);
        assert forall|i: int| 0 <= i < tail.len() implies !run_stops(next.m.state).contains(
            #[trigger] tail[i],
        ) by {
            assert(tail[i] == s[i + 1]);
        }
        lemma_run_by_chars(next, tail, rest, answers);
        assert(f.m.attr_value + seq![c] + tail =~= f.m.attr_value + s);
        lemma_flat_one(TokenView::CharacterTokens(s));
        lemma_flat_one(TokenView::CharacterTokens(seq![c]));
        lemma_flat_one(TokenView::CharacterTokens(tail));
        assert(f.out + flat_event(SinkEvent::Token(TokenView::CharacterTokens(seq![c])))
            + flat_event(SinkEvent::Token(TokenView::CharacterTokens(tail))) =~= f.out + flat_event(
            SinkEvent::Token(TokenView::CharacterTokens(s)),
        ));
        assert(f.out + empty + empty =~= f.out + empty);
        assert(next.then_with(on_run(next.m, tail), rest) =~= goal);
    }
}

/// A log of one event.
proof fn lemma_flat_one(t: TokenView)
    ensures
        flat(Seq::<SinkEvent>::empty().push(SinkEvent::Token(t))) == flat_event(
            SinkEvent::Token(t),
        ),
        flat(Seq::<SinkEvent>::empty()) == Seq::<SinkEvent>::empty(),
{
    let e = SinkEvent::Token(t);
    let log = Seq::<SinkEvent>::empty().push(e);
    let empty = Seq::<SinkEvent>::empty();
    assert(log.drop_last() =~= empty);
    assert(log.last() == e);
    assert(flat(empty) == empty);
    assert(empty + flat_event(e) =~= flat_event(e));
}

/// A step of a configuration leads where its flat form leads, in one step, in no step
/// if it only begins to wait, or in several if it reads a run.
#[verifier::spinoff_prover]
#[verifier::rlimit(30)]
proof fn lemma_step_flat(cfg: Config, answers: Seq<Option<State>>)
    requires
        cfg.wf(),
        may_answer(answers),
    ensures
        ({
            let a = first_answer(answers);
            let (next, go) = cfg.advance(a);
            flat_run(cfg.flat(), answers) == (if go {
                flat_run(
                    next.flat(),
                    if asked(cfg.m.log, next.m.log) {
                        more_answers(answers)
                    } else {
                        answers
                    },
                )
            } else {
                next.flat()
            })
        }),
{
    let a = first_answer(answers);
    let (next, go) = cfg.advance(a);
    let f = cfg.flat();
    lemma_advance(cfg, a, a);
    lemma_flat_step(f, a, a);
    lemma_asked_flat(cfg, next, a);
    lemma_joined_first(cfg.input);
    reveal(Config::advance);
    if cfg.m.char_ref is Some {
        reveal(Flat::advance);
        lemma_step_char_ref_flat(cfg);
        assert(f.advance(a) == (next.flat(), go));
    } else if cfg.stuck() {
        reveal(Flat::advance);
        reveal_strlit("public");
        reveal_strlit("--");
        reveal_strlit("doctype");
        assert(f.advance(a) == (next.flat(), go));
    } else {
        let c = Config { wait_for: None, ..cfg };
        assert(c.flat() == f);
        match c.m.state {
            State::AfterDoctypeName => {
                lemma_step_after_doctype_name_flat(c, a);
                reveal(Flat::advance);
                if next.wait_for is None {
                    assert(f.advance(a) == (next.flat(), go));
                }
            },
            State::MarkupDeclarationOpen => {
                lemma_step_markup_declaration_open_flat(c);
                reveal(Flat::advance);
                if next.wait_for is None {
                    assert(f.advance(a) == (next.flat(), go));
                }
            },
            s => if takes_runs(s) {
                lemma_step_run_flat(c, answers);
            } else {
                lemma_step_char_flat(c, a);
                reveal(Flat::advance);
                assert(f.advance(a) == (next.flat(), go));
            },
        }
    }
}

/// Whether the sink is asked in a step shows in the flat form.
proof fn lemma_asked_flat(cfg: Config, next: Config, a: Option<State>)
    requires
        grows(cfg.m.log, next.m.log, a),
    ensures
        asked(cfg.flat().out, next.flat().out) == asked(cfg.m.log, next.m.log),
{
    let l0 = cfg.m.log;
    let l1 = next.m.log;
    let new = l1.skip(l0.len() as int);
    assert(l1 =~= l0 + new);
    lemma_flat_concat(l0, new);
    assert forall|i: int| 0 <= i < new.len() implies match #[trigger] new[i] {
        SinkEvent::Token(t) => crate::tokenizer::upkeep::sound_token(t) && t
            != TokenView::EOFToken,
        SinkEvent::Asked(b) => i == new.len() - 1 && b == a,
    } by {
        assert(new[i] == l1[i + l0.len()]);
    }
    assert(grows(Seq::empty(), new, a));
    lemma_flat_asked(flat(l0), new, a);
    if new.len() > 0 {
        assert(new.last() == l1.last());
    }
}

/// A step that reads a character or a run.
proof fn lemma_step_run_flat(cfg: Config, answers: Seq<Option<State>>)
    requires
        cfg.wf(),
        cfg.m.char_ref is None,
        cfg.wait_for is None,
        takes_runs(cfg.m.state),
        may_answer(answers),
    ensures
        ({
            let a = first_answer(answers);
            let (next, go) = cfg.step_run(a);
            ||| cfg.flat().advance(a) == (next.flat(), go)
            ||| {
                &&& go
                &&& flat_run(cfg.flat(), answers) == flat_run(next.flat(), answers)
                &&& !asked(cfg.m.log, next.m.log)
            }
        }),
{
    let a = first_answer(answers);
    let f = cfg.flat();
    let (next, go) = cfg.step_run(a);
    lemma_joined_first(cfg.input);
    lemma_step_char_flat(cfg, a);
    reveal(Flat::advance);
    if cfg.m.exact || cfg.m.pending is Some || cfg.m.ignore_lf || cfg.input.len() == 0 {
        assert(cfg.flat().advance(a) == (next.flat(), go));
    } else {
        let set = run_stops(cfg.m.state);
        let n = outside_len(cfg.input[0], set);
        lemma_outside_len(cfg.input[0], set);
        if n == 0 {
            assert(cfg.flat().advance(a) == (next.flat(), go));
        } else {
            let s = cfg.input[0].take(n as int);
            lemma_joined_drop(cfg.input, n as int);
            let all = joined(cfg.input);
            assert(all =~= s + all.skip(n as int));
            assert forall|i: int| 0 <= i < s.len() implies !set.contains(#[trigger] s[i]) by {
                assert(s[i] == cfg.input[0][i]);
            }
            lemma_run_by_chars(f, s, all.skip(n as int), answers);
            lemma_log_on_run(cfg.m, s);
            lemma_flat_next(cfg, next, on_run(cfg.m.unlogged(), s));
            lemma_on_run(cfg.m, s, a);
        }
    }
}

/// The flat form of where a configuration runs to is where its flat form runs to.
pub proof fn lemma_run_flat(cfg: Config, answers: Seq<Option<State>>)
    requires
        cfg.wf(),
        may_answer(answers),
    ensures
        run(cfg, answers).flat() == flat_run(cfg.flat(), answers),
{
    lemma_run_advances(cfg, answers);
    lemma_advances_flat(cfg, answers);
}

/// Running leads where reading on leads, whatever the state.
proof fn lemma_run_advances(cfg: Config, answers: Seq<Option<State>>)
    requires
        cfg.wf(),
        may_answer(answers),
    ensures
        run(cfg, answers) == advances(cfg, answers),
    decreases cfg.total(), cfg.in_char_ref(), joined(cfg.input).len(), cfg.rank(),
{
    let a = first_answer(answers);
    let (next, go) = cfg.advance(a);
    lemma_advance(cfg, a, a);
    lemma_may_answer(answers);
    if go {
        if cfg.stays(next) {
            lemma_step(next, a, a);
            lemma_grows_on(cfg.m.log, next.m.log, next.step(a).0.m.log, a);
            lemma_run_advances(next, answers);
        } else if asked(cfg.m.log, next.m.log) {
            lemma_run_advances(next, more_answers(answers));
        } else {
            lemma_run_advances(next, answers);
        }
    }
}

/// The same, of reading on.
proof fn lemma_advances_flat(cfg: Config, answers: Seq<Option<State>>)
    requires
        cfg.wf(),
        may_answer(answers),
    ensures
        advances(cfg, answers).flat() == flat_run(cfg.flat(), answers),
    decreases cfg.total(), cfg.in_char_ref(), joined(cfg.input).len(), cfg.rank(),
{
    let a = first_answer(answers);
    let (next, go) = cfg.advance(a);
    lemma_advance(cfg, a, a);
    lemma_step_flat(cfg, answers);
    if go {
        let rest = if asked(cfg.m.log, next.m.log) {
            more_answers(answers)
        } else {
            answers
        };
        lemma_may_answer(answers);
        lemma_advances_flat(next, rest);
    }
}

/// What may be answered later.
pub proof fn lemma_may_answer(answers: Seq<Option<State>>)
    requires
        may_answer(answers),
    ensures
        may_answer(more_answers(answers)),
        first_answer(answers) != Some(State::CdataSection),
{
    let rest = more_answers(answers);
    assert forall|i: int| 0 <= i < rest.len() implies #[trigger] rest[i] != Some(
        State::CdataSection,
    ) by {
        if answers.len() > 0 {
            assert(rest[i] == answers[i + 1]);
        }
    }
}

/// A step that goes on does the same with more input at the end.
#[verifier::spinoff_prover]
#[verifier::rlimit(30)]
proof fn lemma_step_extended(f: Flat, more: Seq<char>, a: Option<State>)
    requires
        f.wf(),
        !f.at_eof,
        f.advance(a).1,
    ensures
        f.extended(more).advance(a) == (f.advance(a).0.extended(more), true),
{
    reveal(Flat::advance);
    let g = f.extended(more);
    let next = f.advance(a).0;
    if f.rest.len() > 0 {
        assert(g.rest[0] == f.rest[0]);
        assert(g.rest.drop_first() =~= f.rest.drop_first() + more);
    }
    if f.m.char_ref is Some {
        let m = Machine { char_ref: None, ..f.m };
        let s = cr_step(f.m.char_ref->0, m, f.rest[0]);
        assert(s.back + (f.rest.drop_first() + more) =~= (s.back + f.rest.drop_first()) + more);
        assert(s.back + (f.rest + more) =~= (s.back + f.rest) + more);
    } else if f.m.state == State::AfterDoctypeName {
        reveal_strlit("public");
        reveal_strlit("system");
        assert(f.rest.len() >= 6);
        assert(g.rest.take(6) =~= f.rest.take(6));
        assert(g.rest.skip(6) =~= f.rest.skip(6) + more);
        lemma_read_extended(f, more);
    } else if f.m.state == State::MarkupDeclarationOpen {
        reveal_strlit("--");
        reveal_strlit("doctype");
        assert(g.rest.take(2) =~= f.rest.take(2));
        assert(g.rest.skip(2) =~= f.rest.skip(2) + more);
        if f.rest.len() >= 7 {
            assert(g.rest.take(7) =~= f.rest.take(7));
            assert(g.rest.skip(7) =~= f.rest.skip(7) + more);
        }
    } else if !f.in_run() {
        lemma_read_extended(f, more);
    }
}

/// A character that can be read is the same with more input at the end.
proof fn lemma_read_extended(f: Flat, more: Seq<char>)
    requires
        f.read().0 is Some,
    ensures
        ({
            let (c, m, rest) = f.read();
            f.extended(more).read() == (c, m, rest + more)
        }),
{
    let g = f.extended(more);
    if f.m.pending is None {
        assert(g.rest[0] == f.rest[0]);
        assert(g.rest.drop_first() =~= f.rest.drop_first() + more);
        if f.rest.len() > 1 {
            assert(g.rest[1] == f.rest[1]);
            assert(g.rest.skip(2) =~= f.rest.skip(2) + more);
        }
    }
}

/// Where a step does not go on, nothing is lost: with more input at the end, running
/// from before the step and running from after it leads to the same.
#[verifier::spinoff_prover]
#[verifier::rlimit(30)]
proof fn lemma_stop_extended(
    f: Flat,
    more: Seq<char>,
    a: Option<State>,
    answers: Seq<Option<State>>,
)
    requires
        f.wf(),
        !f.at_eof,
        a != Some(State::CdataSection),
        !f.advance(a).1,
    ensures
        flat_run(f.extended(more), answers) == flat_run(f.advance(a).0.extended(more), answers),
{
    let next = f.advance(a).0;
    lemma_flat_step(f, a, a);
    if next != f {
        reveal(Flat::advance);
        reveal_strlit("public");
        reveal_strlit("--");
        let b = first_answer(answers);
        let x = f.extended(more);
        let y = next.extended(more);
        let m = Machine { ignore_lf: false, ..f.m };
        let empty = Seq::<SinkEvent>::empty();
        assert(f.m.log =~= empty);
        assert(flat(empty) =~= empty);
        assert(f.out + empty =~= f.out);
        if f.m.pending is Some || f.rest.len() != 1 || !f.m.ignore_lf || f.rest[0] != '\n' {
            assert(next =~= f);
        }
        assert(next =~= (Flat { m, rest: Seq::empty(), ..f }));
        if more.len() == 0 {
            assert(x =~= f);
            assert(y =~= next);
            assert(next.advance(b) == (next, false));
            assert(f.advance(b) == (next, false));
        } else {
            let c = more[0];
            assert(y.rest =~= more);
            assert(x.rest[1] == c);
            assert(x.rest.skip(2) =~= more.drop_first());
            assert(x.advance(b) == x.step_char(b));
            if y.in_run() {
                law_characters_do_the_same_in_runs(m, c, b);
                assert(read_char(m, c) == (c, m));
            }
            assert(x.advance(b) == y.advance(b));
        }
    }
}

/// A character that does not end a run does the same alone and in a run, outside of
/// attribute values without quotes. There, characters that look like a mistake are
/// reported only if they are read alone.
pub proof fn law_characters_do_the_same_in_runs(m: Machine, c: char, a: Option<State>)
    requires
        takes_runs(m.state),
        m.state != State::AttributeValue(AttrValueKind::Unquoted),
        !run_stops(m.state).contains(c),
    ensures
        on_char(m, c, a) == on_run(m, seq![c]),
{
    reveal(on_char);
    assert(m.attr_value.push(c) =~= m.attr_value + seq![c]);
}

/// Running over some input, and then, with more of it, running on, leads to the same
/// as running over all of it.
proof fn lemma_run_extended(
    f: Flat,
    more: Seq<char>,
    a: Seq<Option<State>>,
    b: Seq<Option<State>>,
)
    requires
        f.wf(),
        !f.at_eof,
        may_answer(a),
        may_answer(b),
        answers_since(f.out, flat_run(f, a).out) == a,
    ensures
        flat_run(f.extended(more), a + b) == flat_run(flat_run(f, a).extended(more), b),
        log_kept(f.out, flat_run(f, a).out),
    decreases f.total(), f.in_char_ref(), f.rest.len(), f.rank(),
{
    let x = first_answer(a);
    let (next, go) = f.advance(x);
    lemma_flat_step(f, x, x);
    lemma_may_answer(a);
    let end = flat_run(f, a);
    if go {
        let rest = if asked(f.out, next.out) {
            more_answers(a)
        } else {
            a
        };
        lemma_flat_run_log(next, rest);
        lemma_answers_since(f.out, next.out, end.out);
        let given = answers_since(f.out, next.out);
        if asked(f.out, next.out) {
            assert(given == seq![x]);
            assert(a.len() > 0);
            assert(a.drop_first() =~= answers_since(next.out, end.out));
            assert((a + b).drop_first() =~= a.drop_first() + b);
        } else {
            assert(a =~= answers_since(next.out, end.out));
        }
        lemma_run_extended(next, more, rest, b);
        lemma_step_extended(f, more, x);
        let g = f.extended(more);
        let y = first_answer(a + b);
        lemma_flat_step(g, x, y);
        assert(g.advance(y) == (next.extended(more), true));
    } else {
        assert(a =~= Seq::<Option<State>>::empty());
        assert(a + b =~= b);
        lemma_stop_extended(f, more, x, b);
    }
}

/// Running only adds to the output.
proof fn lemma_flat_run_log(f: Flat, answers: Seq<Option<State>>)
    requires
        f.wf(),
        may_answer(answers),
    ensures
        flat_run(f, answers).wf(),
        log_kept(f.out, flat_run(f, answers).out),
    decreases f.total(), f.in_char_ref(), f.rest.len(), f.rank(),
{
    let a = first_answer(answers);
    let (next, go) = f.advance(a);
    lemma_flat_step(f, a, a);
    lemma_may_answer(answers);
    if go {
        let rest = if asked(f.out, next.out) {
            more_answers(answers)
        } else {
            answers
        };
        lemma_flat_run_log(next, rest);
        lemma_answers_since(f.out, next.out, flat_run(next, rest).out);
    }
}

impl Flat {
    /// What the end of the input does to a character reference that is being read.
    pub open spec fn at_end(self) -> Flat {
        let f = match self.m.char_ref {
            Some(t) => {
                let s = cr_eof(t, Machine { char_ref: None, ..self.m });
                self.then_with(s.m.put_char_ref(s.result->0), s.back + self.rest)
            },
            None => self,
        };
        Flat { at_eof: true, ..f }
    }

    /// What the end of the input does.
    pub open spec fn ended(self, answers: Seq<Option<State>>) -> Flat {
        let f = flat_run(self.at_end(), answers);
        f.then_with(run_eof(f.m), f.rest)
    }
}

/// The flat form of what the end of the input does to a character reference.
pub proof fn lemma_at_end_flat(cfg: Config)
    requires
        cfg.wf(),
    ensures
        cfg.at_end().flat() == cfg.flat().at_end(),
{
    if let Some(t) = cfg.m.char_ref {
        let m = cfg.without_char_ref();
        let s = cr_eof(t, m);
        let s0 = cr_eof(t, m.unlogged());
        lemma_at_end(cfg);
        lemma_log_cr_eof(t, m);
        assert(m.unlogged() == (Machine { char_ref: None, ..cfg.flat().m }));
        crate::tokenizer::run::lemma_cr_eof(t, m, None);
        lemma_after_look(cfg, s);
        let chars = s0.result->0;
        lemma_logged_put_char_ref(s0.m, cfg.m.log, chars);
        let next = Config { at_eof: cfg.at_eof, ..cfg.at_end() };
        lemma_flat_next(cfg, next, s0.m.put_char_ref(chars));
    }
}

/// What the end of the input adds to a log does not depend on the log.
proof fn lemma_run_eof_logged(m: Machine, log: Seq<SinkEvent>)
    requires
        m.wf(),
        m.settled(),
    ensures
        run_eof(m.logged(log)) == run_eof(m).logged(log),
    decreases eof_rank(m.state),
{
    let (next, go) = on_eof(m);
    lemma_eof_step(m);
    lemma_log_on_eof(m);
    lemma_log_on_eof(m.logged(log));
    assert(m.logged(log).unlogged() == m.unlogged());
    let n = on_eof(m.unlogged()).0;
    assert((log + m.log) + n.log =~= log + (m.log + n.log));
    assert(on_eof(m.logged(log)) == (next.logged(log), go));
    if go {
        lemma_run_eof_logged(next, log);
    }
}

/// The flat form of what the end of the input does.
pub proof fn lemma_ended_flat(cfg: Config, answers: Seq<Option<State>>)
    requires
        cfg.wf(),
        may_answer(answers),
    ensures
        cfg.ended(answers).flat() == cfg.flat().ended(answers),
{
    lemma_at_end(cfg);
    lemma_at_end_flat(cfg);
    lemma_run_flat(cfg.at_end(), answers);
    lemma_run(cfg.at_end(), answers);
    let mid = run(cfg.at_end(), answers);
    let m = mid.m.unlogged();
    lemma_run_eof_logged(m, mid.m.log);
    assert(m.logged(mid.m.log).log =~= mid.m.log);
    assert(m.logged(mid.m.log) == mid.m);
    lemma_flat_next(mid, cfg.ended(answers), run_eof(m));
}

/// Feeding `s` and then `t` has the same effect as feeding both at once, given that
/// the sink answers the same. All that the cut can change is into how many runs
/// characters are split that are emitted one after the other.
pub proof fn law_cuts_do_not_matter(
    cfg: Config,
    s: Seq<char>,
    t: Seq<char>,
    a: Seq<Option<State>>,
    b: Seq<Option<State>>,
)
    requires
        cfg.wf(),
        !cfg.at_eof,
        may_answer(a),
        may_answer(b),
        answers_since(cfg.m.log, cfg.fed(s, a).m.log) == a,
    ensures
        cfg.fed(s, a).fed(t, b).flat() == cfg.fed(s + t, a + b).flat(),
{
    if s.len() == 0 {
        assert(cfg.m.log.skip(cfg.m.log.len() as int) =~= Seq::<SinkEvent>::empty());
        assert(a =~= Seq::<Option<State>>::empty());
        assert(a + b =~= b);
        assert(s + t =~= t);
    } else {
        let start = cfg.given(s);
        lemma_given(cfg, s);
        lemma_run(start, a);
        lemma_run_flat(start, a);
        let mid = cfg.fed(s, a);
        lemma_may_answer_both(a, b);
        lemma_given(cfg, s + t);
        lemma_run_flat(cfg.given(s + t), a + b);
        let f = start.flat();
        assert(cfg.given(s + t).flat() == f.extended(t)) by {
            assert((s + t)[0] == s[0]);
            assert((s + t).drop_first() =~= s.drop_first() + t);
            let all = joined(cfg.input);
            assert(all + (s + t) =~= all + s + t);
            assert(all + (s.drop_first() + t) =~= all + s.drop_first() + t);
        }
        lemma_flat_since(start.m.log, mid.m.log);
        lemma_run_extended(f, t, a, b);
        if t.len() == 0 {
            assert(mid.flat().extended(t) =~= mid.flat());
            assert(f.extended(t) =~= f);
            lemma_rerun(f, a, b);
        } else {
            lemma_given(mid, t);
            lemma_run_flat(mid.given(t), b);
            assert(mid.given(t).flat() == mid.flat().extended(t));
        }
    }
}

/// After a run nothing is left to do.
proof fn lemma_rerun(f: Flat, a: Seq<Option<State>>, b: Seq<Option<State>>)
    requires
        f.wf(),
        !f.at_eof,
        may_answer(a),
        may_answer(b),
    ensures
        flat_run(flat_run(f, a), b) == flat_run(f, a),
    decreases f.total(), f.in_char_ref(), f.rest.len(), f.rank(),
{
    let x = first_answer(a);
    let (next, go) = f.advance(x);
    lemma_flat_step(f, x, x);
    lemma_may_answer(a);
    if go {
        lemma_rerun(
            next,
            if asked(f.out, next.out) {
                more_answers(a)
            } else {
                a
            },
            b,
        );
    } else {
        let y = first_answer(b);
        reveal(Flat::advance);
        reveal_strlit("public");
        reveal_strlit("--");
        let empty = Seq::<SinkEvent>::empty();
        assert(f.m.log =~= empty);
        assert(next.m.log =~= empty);
        assert(flat(empty) =~= empty);
        assert(f.out + empty =~= f.out);
        assert(next.out + empty =~= next.out);
        lemma_flat_step(f, x, y);
        assert(next.advance(y) == (next, false));
    }
}

/// The end of the input has the same effect after input that was cut in different
/// places: configurations that differ in nothing but that end alike.
pub proof fn law_cuts_do_not_matter_at_the_end(
    c: Config,
    d: Config,
    answers: Seq<Option<State>>,
)
    requires
        c.wf(),
        d.wf(),
        c.flat() == d.flat(),
        may_answer(answers),
    ensures
        c.ended(answers).flat() == d.ended(answers).flat(),
{
    lemma_ended_flat(c, answers);
    lemma_ended_flat(d, answers);
}

/// A piece of input, with the answers that the sink gives while it is tokenized.
pub struct Piece {
    pub text: Seq<char>,
    pub answers: Seq<Option<State>>,
}

/// All the text of the pieces.
pub open spec fn all_text(pieces: Seq<Piece>) -> Seq<char>
    decreases pieces.len(),
{
    if pieces.len() == 0 {
        Seq::empty()
    } else {
        all_text(pieces.drop_last()) + pieces.last().text
    }
}

/// All the answers of the pieces.
pub open spec fn all_answers(pieces: Seq<Piece>) -> Seq<Option<State>>
    decreases pieces.len(),
{
    if pieces.len() == 0 {
        Seq::empty()
    } else {
        all_answers(pieces.drop_last()) + pieces.last().answers
    }
}

impl Config {
    /// What feeding the pieces does, one after the other.
    pub open spec fn fed_all(self, pieces: Seq<Piece>) -> Config
        decreases pieces.len(),
    {
        if pieces.len() == 0 {
            self
        } else {
            self.fed_all(pieces.drop_last()).fed(pieces.last().text, pieces.last().answers)
        }
    }

    /// Do the pieces come with the answers that the sink is asked for, and no more?
    pub open spec fn answered(self, pieces: Seq<Piece>) -> bool
        decreases pieces.len(),
    {
        pieces.len() > 0 ==> {
            let mid = self.fed_all(pieces.drop_last());
            let next = self.fed_all(pieces);
            &&& self.answered(pieces.drop_last())
            &&& may_answer(pieces.last().answers)
            &&& answers_since(mid.m.log, next.m.log) == pieces.last().answers
        }
    }
}

/// Feeding has the same effect on configurations that differ in nothing but cuts.
proof fn lemma_fed_alike(c: Config, d: Config, s: Seq<char>, answers: Seq<Option<State>>)
    requires
        c.wf(),
        d.wf(),
        c.bom == d.bom,
        c.flat() == d.flat(),
        may_answer(answers),
    ensures
        c.fed(s, answers).flat() == d.fed(s, answers).flat(),
{
    if s.len() > 0 {
        lemma_given(c, s);
        lemma_given(d, s);
        lemma_run_flat(c.given(s), answers);
        lemma_run_flat(d.given(s), answers);
    }
}

/// What feeding pieces keeps.
proof fn lemma_fed_all(cfg: Config, pieces: Seq<Piece>)
    requires
        cfg.wf(),
        cfg.answered(pieces),
    ensures
        cfg.fed_all(pieces).wf(),
        cfg.fed_all(pieces).at_eof == cfg.at_eof,
        cfg.fed_all(pieces).bom == (cfg.bom && all_text(pieces).len() == 0),
        all_text(pieces).len() == 0 ==> cfg.fed_all(pieces) == cfg && all_answers(pieces)
            == Seq::<Option<State>>::empty(),
        log_kept(cfg.m.log, cfg.fed_all(pieces).m.log),
        answers_since(cfg.m.log, cfg.fed_all(pieces).m.log) == all_answers(pieces),
        may_answer(all_answers(pieces)),
    decreases pieces.len(),
{
    if pieces.len() == 0 {
        assert(cfg.m.log.skip(cfg.m.log.len() as int) =~= Seq::<SinkEvent>::empty());
    } else {
        let init = pieces.drop_last();
        let mid = cfg.fed_all(init);
        let s = pieces.last().text;
        let a = pieces.last().answers;
        lemma_fed_all(cfg, init);
        if s.len() > 0 {
            lemma_given(mid, s);
            lemma_run(mid.given(s), a);
        } else {
            assert(mid.m.log.skip(mid.m.log.len() as int) =~= Seq::<SinkEvent>::empty());
            assert(all_answers(init) + a =~= all_answers(init));
        }
        lemma_answers_since(cfg.m.log, mid.m.log, cfg.fed_all(pieces).m.log);
        lemma_may_answer_both(all_answers(init), a);
    }
}

/// Answers that may be given one after the other.
proof fn lemma_may_answer_both(a: Seq<Option<State>>, b: Seq<Option<State>>)
    requires
        may_answer(a),
        may_answer(b),
    ensures
        may_answer(a + b),
{
    assert forall|i: int| 0 <= i < (a + b).len() implies #[trigger] (a + b)[i] != Some(
        State::CdataSection,
    ) by {
        if i < a.len() {
            assert((a + b)[i] == a[i]);
        } else {
            assert((a + b)[i] == b[i - a.len()]);
        }
    }
}

/// However the input is cut into pieces, feeding them has the same effect as feeding
/// all of it at once, given that the sink answers the same. All that the cuts can change
/// is into how many runs characters are split that are emitted one after the other.
pub proof fn law_any_cuts_do_not_matter(cfg: Config, pieces: Seq<Piece>)
    requires
        cfg.wf(),
        !cfg.at_eof,
        cfg.answered(pieces),
    ensures
        cfg.fed_all(pieces).flat() == cfg.fed(all_text(pieces), all_answers(pieces)).flat(),
    decreases pieces.len(),
{
    if pieces.len() > 0 {
        let init = pieces.drop_last();
        let text = all_text(init);
        let answers = all_answers(init);
        let s = pieces.last().text;
        let a = pieces.last().answers;
        let mid = cfg.fed_all(init);
        let one = cfg.fed(text, answers);
        lemma_fed_all(cfg, init);
        law_any_cuts_do_not_matter(cfg, init);
        if text.len() > 0 {
            lemma_given(cfg, text);
            lemma_run(cfg.given(text), answers);
        }
        lemma_fed_alike(mid, one, s, a);
        assert(answers_since(cfg.m.log, one.m.log) == answers) by {
            lemma_flat_since(cfg.m.log, mid.m.log);
            lemma_flat_since(cfg.m.log, one.m.log);
        }
        law_cuts_do_not_matter(cfg, text, s, answers, a);
    }
}

/// The answers given since the log was `pre` show in the flat form.
proof fn lemma_flat_since(pre: Seq<SinkEvent>, post: Seq<SinkEvent>)
    requires
        log_kept(pre, post),
    ensures
        answers_since(flat(pre), flat(post)) == answers_since(pre, post),
{
    let new = post.skip(pre.len() as int);
    assert(post =~= pre + new);
    lemma_flat_concat(pre, new);
    lemma_flat_answers(new);
    assert(flat(post).skip(flat(pre).len() as int) =~= flat(new));
}

} // verus!
