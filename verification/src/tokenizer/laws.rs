//! What holds of the tokenizer as a whole.

use vstd::prelude::*;
use crate::tokenizer::buffer_queue::{joined, lemma_joined_first};
use crate::tokenizer::config::Config;
use crate::tokenizer::interface::{SinkEvent, TokenView};
use crate::tokenizer::machine::Machine;
use crate::tokenizer::rules::{on_eof, run_stops, takes_runs};
use crate::tokenizer::run::{
    first_answer, lemma_advance, lemma_at_end, lemma_eof_step, lemma_given, lemma_lookahead,
    lemma_step, log_kept, more_answers, run, run_eof,
};
use crate::tokenizer::states::State;
use crate::tokenizer::upkeep::{asked, eof_rank, lemma_on_eof, sound_token};

verus! {

/// Are these answers that a sink may give?
pub open spec fn may_answer(answers: Seq<Option<State>>) -> bool {
    forall|i: int| 0 <= i < answers.len() ==> #[trigger] answers[i] != Some(State::CdataSection)
}

/// The token that ends a stream.
pub open spec fn eof_event() -> SinkEvent {
    SinkEvent::Token(TokenView::EOFToken)
}

/// Are the events of `post` from the position `from` on sound, and is the end of the
/// file not among them?
pub open spec fn sound_from(post: Seq<SinkEvent>, from: int) -> bool {
    forall|i: int|
        from <= i < post.len() ==> match #[trigger] post[i] {
            SinkEvent::Token(t) => sound_token(t) && t != TokenView::EOFToken,
            SinkEvent::Asked(_) => true,
        }
}

/// Running keeps the invariant, and sends sound tokens.
pub proof fn lemma_run(cfg: Config, answers: Seq<Option<State>>)
    requires
        cfg.wf(),
        may_answer(answers),
    ensures
        run(cfg, answers).wf(),
        run(cfg, answers).at_eof == cfg.at_eof,
        run(cfg, answers).bom == cfg.bom,
        log_kept(cfg.m.log, run(cfg, answers).m.log),
        sound_from(run(cfg, answers).m.log, cfg.m.log.len() as int),
    decreases cfg.total(), cfg.in_char_ref(), joined(cfg.input).len(), cfg.rank(),
{
    let a = first_answer(answers);
    let (next, go) = cfg.step(a);
    lemma_step(cfg, a, a);
    if go {
        let rest = if asked(cfg.m.log, next.m.log) {
            more_answers(answers)
        } else {
            answers
        };
        assert(may_answer(rest)) by {
            assert forall|i: int| 0 <= i < rest.len() implies #[trigger] rest[i] != Some(
                State::CdataSection,
            ) by {
                if asked(cfg.m.log, next.m.log) {
                    assert(rest[i] == answers[i + 1]);
                }
            }
        }
        lemma_run(next, rest);
        let post = run(next, rest).m.log;
        assert forall|i: int| cfg.m.log.len() <= i < post.len() implies match #[trigger] post[i] {
            SinkEvent::Token(t) => sound_token(t) && t != TokenView::EOFToken,
            SinkEvent::Asked(_) => true,
        } by {
            if i < next.m.log.len() {
                assert(post[i] == next.m.log[i]);
            }
        }
        assert forall|i: int| 0 <= i < cfg.m.log.len() implies #[trigger] post[i]
            == cfg.m.log[i] by {
            assert(post[i] == next.m.log[i]);
        }
    }
}

/// The end of the input keeps the invariant, and sends sound tokens, the last of which
/// is the end of the file.
proof fn lemma_run_eof(m: Machine)
    requires
        m.wf(),
        m.settled(),
    ensures
        run_eof(m).wf(),
        log_kept(m.log, run_eof(m).log),
        run_eof(m).log.len() > m.log.len(),
        run_eof(m).log.last() == eof_event(),
        sound_from(run_eof(m).log.drop_last(), m.log.len() as int),
    decreases eof_rank(m.state),
{
    let (next, go) = on_eof(m);
    lemma_on_eof(m, None);
    lemma_eof_step(m);
    if go {
        lemma_run_eof(next);
        let post = run_eof(next).log;
        let init = post.drop_last();
        assert forall|i: int| m.log.len() <= i < init.len() implies match #[trigger] init[i] {
            SinkEvent::Token(t) => sound_token(t) && t != TokenView::EOFToken,
            SinkEvent::Asked(_) => true,
        } by {
            if i < next.log.len() {
                assert(init[i] == post[i] && post[i] == next.log[i]);
            }
        }
        assert forall|i: int| 0 <= i < m.log.len() implies #[trigger] post[i] == m.log[i] by {
            assert(post[i] == next.log[i]);
        }
    }
}

/// Feeding input only adds to what the sink has seen, and what it adds is sound: no
/// U+0000 among characters, and no two attributes of a tag with one name. The end of
/// the file is not emitted.
pub proof fn law_fed_tokens_are_sound(cfg: Config, s: Seq<char>, answers: Seq<Option<State>>)
    requires
        cfg.wf(),
        may_answer(answers),
    ensures
        cfg.fed(s, answers).wf(),
        log_kept(cfg.m.log, cfg.fed(s, answers).m.log),
        sound_from(cfg.fed(s, answers).m.log, cfg.m.log.len() as int),
{
    if s.len() > 0 {
        lemma_given(cfg, s);
        lemma_run(cfg.given(s), answers);
    }
}

/// The end of the input only adds to what the sink has seen, and what it adds is
/// sound. The last token that it adds is the end of the file, and no other one is.
pub proof fn law_end_emits_one_eof(cfg: Config, answers: Seq<Option<State>>)
    requires
        cfg.wf(),
        may_answer(answers),
    ensures
        log_kept(cfg.m.log, cfg.ended(answers).m.log),
        cfg.ended(answers).m.log.len() > cfg.m.log.len(),
        cfg.ended(answers).m.log.last() == eof_event(),
        sound_from(cfg.ended(answers).m.log.drop_last(), cfg.m.log.len() as int),
{
    lemma_at_end(cfg);
    lemma_run(cfg.at_end(), answers);
    let mid = run(cfg.at_end(), answers);
    lemma_run_eof(mid.m);
    let l0 = cfg.m.log;
    let l1 = cfg.at_end().m.log;
    let l2 = mid.m.log;
    let post = cfg.ended(answers).m.log;
    let init = post.drop_last();
    assert forall|i: int| l0.len() <= i < init.len() implies match #[trigger] init[i] {
        SinkEvent::Token(t) => sound_token(t) && t != TokenView::EOFToken,
        SinkEvent::Asked(_) => true,
    } by {
        if i < l2.len() {
            assert(init[i] == post[i] && post[i] == l2[i]);
            if i < l1.len() {
                assert(l2[i] == l1[i]);
            }
        }
    }
    assert forall|i: int| 0 <= i < l0.len() implies #[trigger] post[i] == l0[i] by {
        assert(post[i] == l2[i] && l2[i] == l1[i]);
    }
}

/// Where nothing can be read, nothing can be read again.
proof fn lemma_nothing_read(cfg: Config)
    requires
        cfg.wf(),
        cfg.read().0 is None,
    ensures
        cfg.read().1.read() == (None::<char>, cfg.read().1),
        cfg.read().1.input.len() == 0,
        cfg.read().1 == (Config { m: cfg.read().1.m, input: cfg.read().1.input, ..cfg }),
        cfg.read().1.m == (Machine { ignore_lf: cfg.read().1.m.ignore_lf, ..cfg.m }),
{
    lemma_joined_first(cfg.input);
}

/// Where nothing can be read, neither alone nor in a run, the same holds again.
proof fn lemma_nothing_read_in_run(cfg: Config, set: Set<char>)
    requires
        cfg.wf(),
        cfg.read_run(set).0 is None,
    ensures
        ({
            let next = cfg.read_run(set).1;
            &&& next.read_run(set).0 is None
            &&& next.read_run(set).1 == next
            &&& next == (Config { m: next.m, input: next.input, ..cfg })
            &&& next.m == (Machine { ignore_lf: next.m.ignore_lf, ..cfg.m })
        }),
{
    if cfg.read().0 is None {
        lemma_nothing_read(cfg);
    }
}

/// Where reading on does not go on, it does nothing when it is tried again.
#[verifier::spinoff_prover]
#[verifier::rlimit(40)]
proof fn lemma_no_advance(cfg: Config, a: Option<State>, b: Option<State>)
    requires
        cfg.wf(),
        !cfg.advance(a).1,
    ensures
        cfg.advance(a).0.wf(),
        cfg.advance(a).0.advance(b) == (cfg.advance(a).0, false),
{
    let next = cfg.advance(a).0;
    lemma_advance(cfg, a, a);
    reveal(Config::advance);
    if cfg.m.char_ref is Some || cfg.stuck() {
    } else {
        let c = Config { wait_for: None, ..cfg };
        match c.m.state {
            State::AfterDoctypeName => {
                reveal_strlit("public");
                reveal_strlit("system");
                lemma_lookahead(c, "public"@, true);
                let (r, d) = c.lookahead("public"@, true);
                lemma_lookahead(d, "system"@, true);
                let (r, e) = d.lookahead("system"@, true);
                lemma_nothing_read(e);
                lemma_joined_first(e.input);
                lemma_joined_first(next.input);
            },
            State::MarkupDeclarationOpen => {},
            s => if takes_runs(s) {
                lemma_nothing_read_in_run(c, run_stops(s));
            } else {
                lemma_nothing_read(c);
            },
        }
    }
}

/// After a step that says that no other one may follow, another one does nothing: the
/// tokenizer needs more input.
pub proof fn law_nothing_is_left_to_do(cfg: Config, a: Option<State>, b: Option<State>)
    requires
        cfg.wf(),
        !cfg.step(a).1,
    ensures
        cfg.step(a).0.step(b) == (cfg.step(a).0, false),
    decreases cfg.total(), cfg.in_char_ref(), joined(cfg.input).len(), cfg.rank(),
{
    let (next, go) = cfg.advance(a);
    lemma_advance(cfg, a, a);
    if go {
        law_nothing_is_left_to_do(next, a, b);
    } else {
        lemma_no_advance(cfg, a, b);
    }
}

/// Feeding nothing does nothing.
pub proof fn law_feeding_nothing_does_nothing(cfg: Config, answers: Seq<Option<State>>)
    ensures
        cfg.fed(Seq::empty(), answers) == cfg,
{
}

/// A byte order mark at the beginning of the stream has no effect, if the option to
/// discard it is on: with it, what follows is tokenized as without it.
pub proof fn law_bom_is_discarded(cfg: Config, s: Seq<char>, answers: Seq<Option<State>>)
    requires
        cfg.bom,
        s.len() > 0,
        s[0] != '\u{feff}',
    ensures
        cfg.fed(seq!['\u{feff}'] + s, answers) == cfg.fed(s, answers),
{
    assert((seq!['\u{feff}'] + s).drop_first() =~= s);
}

/// Once something has been fed, no byte order mark is discarded: whatever is fed goes
/// to the machine as it stands.
pub proof fn law_bom_only_at_the_beginning(
    cfg: Config,
    s: Seq<char>,
    t: Seq<char>,
    a: Seq<Option<State>>,
    b: Seq<Option<State>>,
)
    requires
        cfg.wf(),
        s.len() > 0,
        t.len() > 0,
        may_answer(a),
    ensures
        ({
            let mid = cfg.fed(s, a);
            mid.fed(t, b) == run(
                Config { input: crate::tokenizer::buffer_queue::put_back(mid.input, t), ..mid },
                b,
            )
        }),
{
    lemma_given(cfg, s);
    lemma_run(cfg.given(s), a);
}

} // verus!
