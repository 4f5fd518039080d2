//! Reading markup character by character.
//!
//! What follows says of whole pieces of markup which tokens they become. To show such a
//! thing, a piece is read one character at a time, in the flat form of a configuration.

use vstd::prelude::*;
use crate::tokenizer::buffer_queue::joined;
use crate::tokenizer::chunks::{
    Flat, char_event, flat, flat_event, flat_run, law_characters_do_the_same_in_runs,
    lemma_flat_step, lemma_may_answer, lemma_run_flat,
};
use crate::tokenizer::config::{Config, initial, read_char};
use crate::tokenizer::interface::{SinkEvent, TokenView};
use crate::tokenizer::laws::may_answer;
use crate::tokenizer::machine::Machine;
use crate::tokenizer::rules::on_char;
use crate::tokenizer::run::{first_answer, lemma_given, more_answers};
use crate::tokenizer::states::{AttrValueKind, State};
use crate::tokenizer::upkeep::asked;
use crate::tokenizer::TokenizerOpts;

verus! {

/// The report of a character that does not belong where it stands.
pub open spec fn bad_char() -> SinkEvent {
    SinkEvent::Token(TokenView::ParseError("Bad character"@))
}

/// The event of emitting one character. U+0000 has a token of its own.
pub open spec fn said(c: char) -> SinkEvent {
    if c == '\0' {
        SinkEvent::Token(TokenView::NullCharacterToken)
    } else {
        char_event(c)
    }
}

/// The events of emitting characters.
pub open spec fn said_all(s: Seq<char>) -> Seq<SinkEvent> {
    s.map_values(|c: char| said(c))
}

impl Machine {
    /// Is the machine between two characters, with nothing begun but what its state says,
    /// and without exact errors?
    pub open spec fn between(self) -> bool {
        &&& !self.exact
        &&& self.pending is None
        &&& self.char_ref is None
        &&& !self.ignore_lf
    }

    /// Is the machine between two pieces of markup? No attribute has been begun then.
    pub open spec fn idle(self) -> bool {
        &&& self.between()
        &&& self.attr_name.len() == 0
        &&& self.attr_value.len() == 0
    }
}

impl Config {
    /// Has everything been read that was fed, and is the machine between two pieces of
    /// markup?
    pub open spec fn idle(self) -> bool {
        &&& self.wf()
        &&& self.input.len() == 0
        &&& self.m.idle()
    }
}

impl Flat {
    /// The same, with the machine `m`, and with `rest` still to be read.
    pub open spec fn now(self, m: Machine, rest: Seq<char>) -> Flat {
        Flat { m, rest, ..self }
    }

    /// The same, with events added.
    pub open spec fn told(self, new: Seq<SinkEvent>) -> Flat {
        Flat { out: self.out + new, ..self }
    }
}

/// Setting characters apart in a log with an event added.
pub broadcast proof fn lemma_flat_push(log: Seq<SinkEvent>, e: SinkEvent)
    ensures
        #[trigger] flat(log.push(e)) == flat(log) + flat_event(e),
{
    assert(log.push(e).drop_last() =~= log);
}

/// A log without events.
pub broadcast proof fn lemma_flat_none(log: Seq<SinkEvent>)
    requires
        log.len() == 0,
    ensures
        #[trigger] flat(log) == Seq::<SinkEvent>::empty(),
{
}

/// One character is set apart already.
pub broadcast proof fn lemma_flat_char(c: char)
    ensures
        #[trigger] flat_event(SinkEvent::Token(TokenView::CharacterTokens(seq![c]))) == seq![
            char_event(c),
        ],
{
    assert(flat_event(SinkEvent::Token(TokenView::CharacterTokens(seq![c]))) =~= seq![
        char_event(c),
    ]);
}

pub broadcast group group_flat {
    lemma_flat_push,
    lemma_flat_none,
    lemma_flat_char,
}

/// May the next character be read by itself? After `<!`, and after the name of a doctype,
/// the input is looked at further ahead. In an attribute value without quotes, characters
/// that look like a mistake are reported only if they are not read in a run.
pub open spec fn reads_one(s: State, c: char) -> bool {
    &&& s != State::AfterDoctypeName
    &&& s != State::MarkupDeclarationOpen
    &&& s == State::AttributeValue(AttrValueKind::Unquoted) ==> c != '"' && c != '\'' && c != '<'
        && c != '=' && c != '`'
}

/// Reading the next character does what the rule for it says.
pub proof fn lemma_read_one(f: Flat, answers: Seq<Option<State>>)
    requires
        f.wf(),
        f.m.between(),
        f.rest.len() > 0,
        f.rest[0] != '\r',
        reads_one(f.m.state, f.rest[0]),
        may_answer(answers),
    ensures
        ({
            let a = first_answer(answers);
            let m = on_char(f.m, f.rest[0], a);
            let g = f.then_with(m, f.rest.drop_first());
            &&& g.wf()
            &&& flat_run(f, answers) == flat_run(
                g,
                if asked(f.out, g.out) {
                    more_answers(answers)
                } else {
                    answers
                },
            )
        }),
{
    let a = first_answer(answers);
    let c = f.rest[0];
    let m = on_char(f.m, c, a);
    let g = f.then_with(m, f.rest.drop_first());
    lemma_may_answer(answers);
    lemma_flat_step(f, a, a);
    assert(f.advance(a) == (g, true)) by {
        reveal(Flat::advance);
        assert(read_char(f.m, c) == (c, f.m));
        if f.in_run() {
            if f.m.state == State::AttributeValue(AttrValueKind::Unquoted) {
                reveal(on_char);
                assert(f.m.attr_value.push(c) =~= f.m.attr_value + seq![c]);
            } else {
                law_characters_do_the_same_in_runs(f.m, c, a);
            }
        }
    }
}

/// The same, where the sink is not asked.
pub proof fn lemma_read_on(f: Flat, answers: Seq<Option<State>>)
    requires
        f.wf(),
        f.m.between(),
        f.rest.len() > 0,
        f.rest[0] != '\r',
        reads_one(f.m.state, f.rest[0]),
        may_answer(answers),
        !asked(f.m.log, on_char(f.m, f.rest[0], first_answer(answers)).log),
    ensures
        ({
            let m = on_char(f.m, f.rest[0], first_answer(answers));
            let g = f.then_with(m, f.rest.drop_first());
            &&& g.wf()
            &&& flat_run(f, answers) == flat_run(g, answers)
        }),
{
    let a = first_answer(answers);
    let m = on_char(f.m, f.rest[0], a);
    let g = f.then_with(m, f.rest.drop_first());
    lemma_read_one(f, answers);
    lemma_flat_step(f, a, a);
    if asked(f.out, g.out) {
        crate::tokenizer::logs::lemma_log_on_char(f.m, f.rest[0], a);
        crate::tokenizer::upkeep::lemma_on_char(f.m, f.rest[0], a, a);
        lemma_not_asked(f.out, m.log);
    }
}

/// Reading a character that emits nothing.
#[verifier::spinoff_prover]
#[verifier::rlimit(30)]
pub proof fn lemma_silent(f: Flat, m: Machine, c: char, rest: Seq<char>, answers: Seq<Option<State>>)
    requires
        f.now(f.m, seq![c] + rest).wf(),
        f.m.between(),
        c != '\r',
        reads_one(f.m.state, c),
        on_char(f.m, c, first_answer(answers)) == m,
        m.log == f.m.log,
        may_answer(answers),
    ensures
        f.now(m, rest).wf(),
        flat_run(f.now(f.m, seq![c] + rest), answers) == flat_run(f.now(m, rest), answers),
{
    broadcast use group_flat;

    let g = f.now(f.m, seq![c] + rest);
    assert(g.rest.drop_first() =~= rest);
    assert(f.m.log =~= Seq::<SinkEvent>::empty());
    assert(f.out + Seq::<SinkEvent>::empty() =~= f.out);
    lemma_read_on(g, answers);
    assert(g.then_with(m, rest) =~= f.now(m, rest));
}

/// Where the sink is not asked, it is not asked in the flat form.
proof fn lemma_not_asked(out: Seq<SinkEvent>, new: Seq<SinkEvent>)
    requires
        new.len() > 0 ==> !(new.last() is Asked),
        forall|i: int| 0 <= i < new.len() - 1 ==> #[trigger] new[i] is Token,
    ensures
        !asked(out, out + flat(new)),
    decreases new.len(),
{
    if new.len() > 0 {
        let init = new.drop_last();
        let last = flat_event(new.last());
        assert(forall|i: int| 0 <= i < last.len() ==> #[trigger] last[i] is Token);
        if last.len() > 0 {
            assert((out + flat(new)).last() == last[last.len() - 1]);
        } else {
            assert(flat(new) =~= flat(init));
            if init.len() > 0 {
                assert(new[init.len() - 1] is Token);
            }
            assert forall|i: int| 0 <= i < init.len() - 1 implies #[trigger] init[i] is Token by {
                assert(init[i] == new[i]);
            }
            lemma_not_asked(out, init);
        }
    }
}

/// A new tokenizer is between two pieces of markup, in the state and after the start tag that
/// it was made for: outside of tags, and after none, if nothing was asked for.
pub proof fn law_a_new_tokenizer_is_idle(opts: TokenizerOpts, log: Seq<SinkEvent>)
    requires
        !opts.exact_errors,
        opts.initial_state matches Some(s) ==> s != State::CdataSection,
    ensures
        ({
            let cfg = initial(opts, log);
            &&& cfg.idle()
            &&& !cfg.at_eof
            &&& cfg.bom <==> opts.discard_bom
            &&& opts.initial_state matches Some(s) ==> cfg.m.state == s
            &&& opts.initial_state is None ==> cfg.m.state == State::Data
            &&& opts.last_start_tag_name matches Some(t) ==> cfg.m.last_start_tag == Some(t@)
            &&& opts.last_start_tag_name is None ==> cfg.m.last_start_tag is None
            &&& cfg.m.comment.len() == 0
            &&& cfg.m.log == log
        }),
{
}

/// Feeding text to an idle configuration begins like this.
pub proof fn lemma_begin(cfg: Config, text: Seq<char>, answers: Seq<Option<State>>)
    requires
        cfg.idle(),
        text.len() > 0,
        cfg.bom ==> text[0] != '\u{feff}',
        may_answer(answers),
    ensures
        cfg.fed(text, answers).flat() == flat_run(cfg.flat().now(cfg.flat().m, text), answers),
        cfg.flat().now(cfg.flat().m, text).wf(),
        cfg.flat().rest.len() == 0,
        cfg.flat().m.idle(),
{
    lemma_given(cfg, text);
    lemma_run_flat(cfg.given(text), answers);
    assert(joined(cfg.input) =~= Seq::<char>::empty());
    assert(joined(cfg.input) + text =~= text);
    assert(cfg.given(text).flat() == cfg.flat().now(cfg.flat().m, text));
}

/// Where everything has been read, nothing more happens.
pub proof fn lemma_stop(f: Flat, answers: Seq<Option<State>>)
    requires
        f.wf(),
        f.m.pending is None,
        f.rest.len() == 0,
        !f.at_eof || (f.m.state != State::AfterDoctypeName && f.m.state
            != State::MarkupDeclarationOpen),
    ensures
        flat_run(f, answers) == f,
{
    broadcast use group_flat;

    reveal(Flat::advance);
    reveal_strlit("public");
    reveal_strlit("--");
    assert(f.out + Seq::<SinkEvent>::empty() =~= f.out);
    assert(f.m.log =~= Seq::<SinkEvent>::empty());
    assert(f.advance(first_answer(answers)) == (f, false));
}

} // verus!
