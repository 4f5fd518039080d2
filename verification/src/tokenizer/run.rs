//! Running the tokenizer: the steps from one configuration to the next, taken for as
//! long as there is something to do.

use vstd::prelude::*;
use crate::tokenizer::buffer_queue::{
    SetResultView, drop_chars, drop_from_front, joined, lemma_joined_drop, lemma_joined_drop_chars,
    lemma_joined_first, lemma_joined_put_back, lemma_joined_put_front, lemma_outside_len, no_empty,
    outside_len,
};
use crate::tokenizer::char_ref::{CharRefState, CharRefStep, CharRefView, cr_eof, cr_step};
use crate::tokenizer::config::Config;
use crate::tokenizer::interface::SinkEvent;
use crate::tokenizer::machine::Machine;
use crate::tokenizer::rules::{on_char, on_eof, run_stops, takes_runs};
use crate::tokenizer::states::State;
use crate::tokenizer::upkeep::{
    asked, eof_rank, grows, hands_on, lemma_grows_on, lemma_on_char, lemma_on_eof, lemma_on_run,
    reads,
};

verus! {

/// How many looks at the input can follow that take nothing.
pub open spec fn looks(s: CharRefState) -> nat {
    match s {
        CharRefState::Begin => 4,
        CharRefState::Octothorpe => 3,
        CharRefState::Numeric => 2,
        CharRefState::Named => 2,
        CharRefState::NumericSemicolon => 1,
        CharRefState::BogusName => 1,
    }
}

impl Config {
    /// How many characters are still to be read, those included that can be put back.
    pub open spec fn total(self) -> nat {
        joined(self.input).len() + (if self.m.pending is Some {
            1nat
        } else {
            0nat
        }) + (match self.m.char_ref {
            Some(t) => t.held().len(),
            None => 0,
        })
    }

    /// Is a character reference being read?
    pub open spec fn in_char_ref(self) -> nat {
        if self.m.char_ref is Some {
            1
        } else {
            0
        }
    }

    /// How many steps can follow that read nothing.
    pub open spec fn rank(self) -> nat {
        match self.m.char_ref {
            Some(t) => looks(t.state),
            None => (if hands_on(self.m.state) {
                2nat
            } else {
                0nat
            }) + (if self.stuck() {
                0nat
            } else {
                1nat
            }),
        }
    }

    /// Is there less to do after a step to `next`?
    pub open spec fn nearer(self, next: Config) -> bool {
        decreases_to!(
            self.total(), self.in_char_ref(), joined(self.input).len(), self.rank()
            => next.total(), next.in_char_ref(), joined(next.input).len(), next.rank()
        )
    }
}

/// What one look at the input does to a character reference: it keeps the invariant,
/// at most two characters come out, and no character of the input gets lost but those
/// that belong to the reference.
#[verifier::spinoff_prover]
#[verifier::rlimit(50)]
pub proof fn lemma_cr_step(t: CharRefView, m: Machine, c: char, a: Option<State>)
    requires
        t.wf(),
        m.wf(),
        m.settled(),
        m.pending is None,
        m.char_ref is None,
    ensures
        ({
            let s = cr_step(t, m, c);
            let eaten = if s.eat {
                1int
            } else {
                0
            };
            &&& s.m.wf()
            &&& s.m.settled()
            &&& s.m.pending is None
            &&& s.m.char_ref is None
            &&& s.m.state == m.state
            &&& s.m.exact == m.exact
            &&& s.m.entities == m.entities
            &&& grows(m.log, s.m.log, a)
            &&& !asked(m.log, s.m.log)
            &&& s.result matches Some(chars) ==> chars.len() <= 2 && s.back.len() <= t.held().len()
            &&& s.result is None ==> {
                &&& s.t.wf()
                &&& s.t.addnl_allowed == t.addnl_allowed
                &&& s.back.len() == 0
                &&& s.t.held().len() <= t.held().len() + eaten
                &&& !s.eat ==> s.t.held().len() == t.held().len() && looks(s.t.state) < looks(t.state)
            }
        }),
{
}

/// Reading a character.
pub proof fn lemma_read(cfg: Config, a: Option<State>)
    requires
        cfg.wf(),
        cfg.m.char_ref is None,
        cfg.wait_for is None,
    ensures
        ({
            let (c, next) = cfg.read();
            &&& next.m.wf()
            &&& no_empty(next.input)
            &&& c is None ==> next.m.settled()
            &&& next.m.pending is None
            &&& next.m.char_ref is None
            &&& next == (Config { m: next.m, input: next.input, ..cfg })
            &&& next.m.state == cfg.m.state
            &&& next.m.exact == cfg.m.exact
            &&& next.m.entities == cfg.m.entities
            &&& grows(cfg.m.log, next.m.log, a)
            &&& !asked(cfg.m.log, next.m.log)
            &&& c matches Some(c) ==> reads(next.m, c) && next.total() < cfg.total()
            &&& cfg.m.pending is Some ==> c == cfg.m.pending && next.input == cfg.input
            &&& cfg.m.pending is None && c is Some ==> joined(next.input).len() < joined(
                cfg.input,
            ).len()
        }),
{
    lemma_joined_first(cfg.input);
    if cfg.input.len() > 0 {
        lemma_joined_first(cfg.skip_one().input);
    }
}

/// Reading a character or a run.
pub proof fn lemma_read_run(cfg: Config, set: Set<char>, a: Option<State>)
    requires
        cfg.wf(),
        cfg.m.char_ref is None,
        cfg.wait_for is None,
        set.contains('\0'),
    ensures
        ({
            let (r, next) = cfg.read_run(set);
            &&& next.m.wf()
            &&& no_empty(next.input)
            &&& r is None ==> next.m.settled()
            &&& next.m.pending is None
            &&& next.m.char_ref is None
            &&& next == (Config { m: next.m, input: next.input, ..cfg })
            &&& next.m.state == cfg.m.state
            &&& next.m.exact == cfg.m.exact
            &&& next.m.entities == cfg.m.entities
            &&& grows(cfg.m.log, next.m.log, a)
            &&& !asked(cfg.m.log, next.m.log)
            &&& r matches Some(SetResultView::FromSet(c)) ==> reads(next.m, c) && next.total()
                < cfg.total() && (cfg.m.pending is Some ==> next.input == cfg.input) && (
            cfg.m.pending is None ==> joined(next.input).len() < joined(cfg.input).len())
            &&& r matches Some(SetResultView::NotFromSet(s)) ==> next.m == cfg.m && !s.contains(
                '\0',
            ) && next.total() < cfg.total()
        }),
{
    lemma_read(cfg, a);
    if !(cfg.m.exact || cfg.m.pending is Some || cfg.m.ignore_lf) && cfg.input.len() > 0 {
        let n = outside_len(cfg.input[0], set);
        lemma_outside_len(cfg.input[0], set);
        lemma_joined_drop(cfg.input, n as int);
    }
}

/// Looking for a text in the input.
pub proof fn lemma_lookahead(cfg: Config, pat: Seq<char>, fold: bool)
    requires
        cfg.wf(),
    ensures
        ({
            let (r, next) = cfg.lookahead(pat, fold);
            &&& no_empty(next.input)
            &&& next.m == cfg.m
            &&& next.at_eof == cfg.at_eof
            &&& next.bom == cfg.bom
            &&& r is None ==> next.input == cfg.input && next.wait_for == Some(pat.len())
                && next.stuck() && !cfg.at_eof
            &&& r is Some ==> next.wait_for == cfg.wait_for
            &&& r == Some(true) ==> joined(next.input) == joined(cfg.input).skip(pat.len() as int)
                && pat.len() <= joined(cfg.input).len()
            &&& r == Some(false) ==> joined(next.input) == joined(cfg.input)
            &&& r == Some(false) && !fold && !cfg.at_eof ==> joined(cfg.input).len() >= pat.len()
                && joined(cfg.input).take(pat.len() as int) != pat
        }),
{
    let n = pat.len();
    let all = joined(cfg.input);
    if all.len() >= n {
        lemma_joined_drop_chars(cfg.input, n);
        lemma_joined_put_front(drop_chars(cfg.input, n), all.take(n as int));
        assert(all.take(n as int) + all.skip(n as int) =~= all);
    }
}

/// What holds of the configurations before and after a step.
pub open spec fn leads(cfg: Config, next: Config, go: bool, answer: Option<State>) -> bool {
    &&& answer != Some(State::CdataSection) ==> next.m.state != State::CdataSection
    &&& next.m.state != State::CdataSection ==> next.wf()
    &&& no_empty(next.input)
    &&& grows(cfg.m.log, next.m.log, answer)
    &&& next.m.exact == cfg.m.exact
    &&& next.m.entities == cfg.m.entities
    &&& next.at_eof == cfg.at_eof
    &&& next.bom == cfg.bom
    &&& go ==> cfg.nearer(next)
}

/// A step that reads one character.
proof fn lemma_step_char(cfg: Config, a: Option<State>, b: Option<State>)
    requires
        cfg.wf(),
        cfg.m.char_ref is None,
        cfg.wait_for is None,
    ensures
        leads(cfg, cfg.step_char(a).0, cfg.step_char(a).1, a),
        asked(cfg.m.log, cfg.step_char(a).0.m.log) == asked(cfg.m.log, cfg.step_char(b).0.m.log),
        !asked(cfg.m.log, cfg.step_char(a).0.m.log) ==> cfg.step_char(a) == cfg.step_char(b),
{
    lemma_read(cfg, a);
    lemma_read(cfg, b);
    let (c, mid) = cfg.read();
    if let Some(c) = c {
        lemma_on_char(mid.m, c, a, b);
        lemma_grows_on(cfg.m.log, mid.m.log, on_char(mid.m, c, a).log, a);
        lemma_on_char(mid.m, c, b, b);
        lemma_grows_on(cfg.m.log, mid.m.log, on_char(mid.m, c, b).log, b);
    }
}

/// A step that reads a character or a run.
proof fn lemma_step_run(cfg: Config, a: Option<State>, b: Option<State>)
    requires
        cfg.wf(),
        cfg.m.char_ref is None,
        cfg.wait_for is None,
        takes_runs(cfg.m.state),
    ensures
        leads(cfg, cfg.step_run(a).0, cfg.step_run(a).1, a),
        asked(cfg.m.log, cfg.step_run(a).0.m.log) == asked(cfg.m.log, cfg.step_run(b).0.m.log),
        !asked(cfg.m.log, cfg.step_run(a).0.m.log) ==> cfg.step_run(a) == cfg.step_run(b),
{
    let set = run_stops(cfg.m.state);
    lemma_read_run(cfg, set, a);
    lemma_read_run(cfg, set, b);
    let (r, mid) = cfg.read_run(set);
    match r {
        None => {},
        Some(SetResultView::FromSet(c)) => {
            lemma_on_char(mid.m, c, a, b);
            lemma_grows_on(cfg.m.log, mid.m.log, on_char(mid.m, c, a).log, a);
            lemma_on_char(mid.m, c, b, b);
            lemma_grows_on(cfg.m.log, mid.m.log, on_char(mid.m, c, b).log, b);
        },
        Some(SetResultView::NotFromSet(s)) => {
            lemma_on_run(mid.m, s, a);
        },
    }
}

/// A step after the name of a doctype.
proof fn lemma_step_after_doctype_name(cfg: Config, a: Option<State>, b: Option<State>)
    requires
        cfg.wf(),
        cfg.m.char_ref is None,
        cfg.wait_for is None,
        cfg.m.state == State::AfterDoctypeName,
    ensures
        ({
            let sa = cfg.step_after_doctype_name(a);
            let sb = cfg.step_after_doctype_name(b);
            &&& leads(cfg, sa.0, sa.1, a)
            &&& asked(cfg.m.log, sa.0.m.log) == asked(cfg.m.log, sb.0.m.log)
            &&& !asked(cfg.m.log, sa.0.m.log) ==> sa == sb
        }),
{
    reveal_strlit("public");
    reveal_strlit("system");
    lemma_lookahead(cfg, "public"@, true);
    let (r, mid) = cfg.lookahead("public"@, true);
    if r == Some(false) {
        lemma_lookahead(mid, "system"@, true);
        let (r, mid) = mid.lookahead("system"@, true);
        if r == Some(false) {
            lemma_step_char(mid, a, b);
        }
    }
}

/// A step after `<!`.
proof fn lemma_step_markup_declaration_open(cfg: Config, a: Option<State>)
    requires
        cfg.wf(),
        cfg.m.char_ref is None,
        cfg.wait_for is None,
        cfg.m.state == State::MarkupDeclarationOpen,
    ensures
        ({
            let s = cfg.step_markup_declaration_open();
            &&& leads(cfg, s.0, s.1, a)
            &&& !asked(cfg.m.log, s.0.m.log)
        }),
{
    reveal_strlit("--");
    reveal_strlit("doctype");
    lemma_lookahead(cfg, "--"@, false);
    let (r, mid) = cfg.lookahead("--"@, false);
    if r == Some(false) {
        lemma_lookahead(mid, "doctype"@, true);
    }
}

/// A step inside a character reference.
proof fn lemma_step_char_ref(cfg: Config, a: Option<State>)
    requires
        cfg.wf(),
        cfg.m.char_ref is Some,
    ensures
        ({
            let s = cfg.step_char_ref();
            &&& leads(cfg, s.0, s.1, a)
            &&& !asked(cfg.m.log, s.0.m.log)
        }),
{
    if cfg.input.len() > 0 {
        let t = cfg.m.char_ref->0;
        let c = cfg.input[0][0];
        let m = cfg.without_char_ref();
        let s = cr_step(t, m, c);
        lemma_cr_step(t, m, c, a);
        lemma_after_look(cfg, s);
        if let Some(chars) = s.result {
            lemma_put_char_ref(s.m, chars, a);
            lemma_grows_on(m.log, s.m.log, s.m.put_char_ref(chars).log, a);
        }
    }
}

/// What a look at the input does to the input.
pub proof fn lemma_after_look(cfg: Config, s: CharRefStep)
    requires
        no_empty(cfg.input),
        s.eat ==> cfg.input.len() > 0,
    ensures
        no_empty(cfg.after_look(s).input),
        joined(cfg.after_look(s).input) == s.back + (if s.eat {
            joined(cfg.input).drop_first()
        } else {
            joined(cfg.input)
        }),
        s.eat ==> joined(cfg.input).len() > 0,
{
    lemma_joined_first(cfg.input);
    lemma_joined_put_front(cfg.input, s.back);
    if s.eat {
        lemma_joined_put_front(drop_from_front(cfg.input, 1), s.back);
    }
}

/// Putting the characters of a reference keeps the invariant.
pub proof fn lemma_put_char_ref(m: Machine, chars: Seq<char>, a: Option<State>)
    requires
        m.wf(),
        m.settled(),
        m.pending is None,
        m.char_ref is None,
    ensures
        ({
            let m2 = m.put_char_ref(chars);
            &&& m2.wf()
            &&& m2.settled()
            &&& m2.pending is None
            &&& m2.char_ref is None
            &&& m2.state == m.state
            &&& m2.exact == m.exact
            &&& m2.entities == m.entities
            &&& grows(m.log, m2.log, a)
            &&& !asked(m.log, m2.log)
        }),
{
}

/// Reading on keeps the invariant, lets the log grow, and leaves less to do if it says
/// that there may be more. What the sink answers matters only if it is asked.
pub proof fn lemma_advance(cfg: Config, a: Option<State>, b: Option<State>)
    requires
        cfg.wf(),
    ensures
        leads(cfg, cfg.advance(a).0, cfg.advance(a).1, a),
        asked(cfg.m.log, cfg.advance(a).0.m.log) == asked(cfg.m.log, cfg.advance(b).0.m.log),
        !asked(cfg.m.log, cfg.advance(a).0.m.log) ==> cfg.advance(a) == cfg.advance(b),
{
    reveal(Config::advance);
    if cfg.m.char_ref is Some {
        lemma_step_char_ref(cfg, a);
    } else if !cfg.stuck() {
        let c = Config { wait_for: None, ..cfg };
        match c.m.state {
            State::AfterDoctypeName => lemma_step_after_doctype_name(c, a, b),
            State::MarkupDeclarationOpen => lemma_step_markup_declaration_open(c, a),
            s => if takes_runs(s) {
                lemma_step_run(c, a, b);
            } else {
                lemma_step_char(c, a, b);
            },
        }
    }
}

impl Config {
    /// Does reading on to `next` leave the machine in the middle of its state? It leaves
    /// it by a change of state, by asking the sink for one, by a character reference, or
    /// by waiting for more input.
    pub open spec fn stays(self, next: Config) -> bool {
        &&& self.m.char_ref is None
        &&& next.m.char_ref is None
        &&& next.wait_for is None
        &&& next.m.state == self.m.state
        &&& !asked(self.m.log, next.m.log)
    }

    /// One step: read on for as long as the machine stays in its state. The second part
    /// of the result tells whether another one may follow at once; if not, the input is
    /// used up. `answer` is what the sink says if it is asked for a change of state.
    pub open spec fn step(self, answer: Option<State>) -> (Config, bool)
        decreases self.total(), self.in_char_ref(), joined(self.input).len(), self.rank(),
        when self.wf()
    {
        let (next, go) = self.advance(answer);
        if go && self.stays(next) {
            proof {
                lemma_advance(self, answer, answer);
            }
            next.step(answer)
        } else {
            (next, go)
        }
    }
}

/// A step keeps the invariant, lets the log grow, and leaves less to do if it says
/// that another one may follow. What the sink answers matters only if it is asked.
pub proof fn lemma_step(cfg: Config, a: Option<State>, b: Option<State>)
    requires
        cfg.wf(),
    ensures
        leads(cfg, cfg.step(a).0, cfg.step(a).1, a),
        asked(cfg.m.log, cfg.step(a).0.m.log) == asked(cfg.m.log, cfg.step(b).0.m.log),
        !asked(cfg.m.log, cfg.step(a).0.m.log) ==> cfg.step(a) == cfg.step(b),
    decreases cfg.total(), cfg.in_char_ref(), joined(cfg.input).len(), cfg.rank(),
{
    let (next, go) = cfg.advance(a);
    lemma_advance(cfg, a, b);
    lemma_advance(cfg, b, a);
    if go && cfg.stays(next) {
        lemma_step(next, a, b);
        lemma_step(next, b, a);
        lemma_grows_on(cfg.m.log, next.m.log, next.step(a).0.m.log, a);
        lemma_grows_on(cfg.m.log, next.m.log, next.step(b).0.m.log, b);
    }
}

/// The first of the answers that are still to be given. A sink that gives none
/// leaves the state as it is.
pub open spec fn first_answer(answers: Seq<Option<State>>) -> Option<State> {
    if answers.len() > 0 {
        answers[0]
    } else {
        None
    }
}

/// The answers after the first.
pub open spec fn more_answers(answers: Seq<Option<State>>) -> Seq<Option<State>> {
    if answers.len() > 0 {
        answers.drop_first()
    } else {
        answers
    }
}

/// Step for as long as there is something to do. The sink gives its answers in the
/// order of `answers`.
pub open spec fn run(cfg: Config, answers: Seq<Option<State>>) -> Config
    decreases cfg.total(), cfg.in_char_ref(), joined(cfg.input).len(), cfg.rank(),
    when cfg.wf()
{
    let a = first_answer(answers);
    let (next, go) = cfg.step(a);
    if go {
        proof {
            lemma_step(cfg, a, a);
        }
        run(
            next,
            if asked(cfg.m.log, next.m.log) {
                more_answers(answers)
            } else {
                answers
            },
        )
    } else {
        next
    }
}

/// Read on for as long as there is something to do, whatever the state. The sink gives
/// its answers in the order of `answers`.
pub open spec fn advances(cfg: Config, answers: Seq<Option<State>>) -> Config
    decreases cfg.total(), cfg.in_char_ref(), joined(cfg.input).len(), cfg.rank(),
    when cfg.wf()
{
    let a = first_answer(answers);
    let (next, go) = cfg.advance(a);
    if go {
        proof {
            lemma_advance(cfg, a, a);
        }
        advances(
            next,
            if asked(cfg.m.log, next.m.log) {
                more_answers(answers)
            } else {
                answers
            },
        )
    } else {
        next
    }
}

/// Is a step made in the state `s` on the way of `run`?
pub open spec fn visits(cfg: Config, answers: Seq<Option<State>>, s: State) -> bool
    decreases cfg.total(), cfg.in_char_ref(), joined(cfg.input).len(), cfg.rank(),
    when cfg.wf()
{
    let a = first_answer(answers);
    let (next, go) = cfg.step(a);
    if cfg.m.state == s {
        true
    } else if go {
        proof {
            lemma_step(cfg, a, a);
        }
        visits(
            next,
            if asked(cfg.m.log, next.m.log) {
                more_answers(answers)
            } else {
                answers
            },
            s,
        )
    } else {
        false
    }
}

/// The answers that the sink gave, in order.
pub open spec fn answers_of(log: Seq<SinkEvent>) -> Seq<Option<State>>
    decreases log.len(),
{
    if log.len() == 0 {
        Seq::empty()
    } else {
        let init = answers_of(log.drop_last());
        match log.last() {
            SinkEvent::Asked(a) => init.push(a),
            _ => init,
        }
    }
}

/// The answers that the sink gave since the log was `pre`.
pub open spec fn answers_since(pre: Seq<SinkEvent>, post: Seq<SinkEvent>) -> Seq<Option<State>> {
    answers_of(post.skip(pre.len() as int))
}

/// Are the events of `pre` those that `post` begins with?
pub open spec fn log_kept(pre: Seq<SinkEvent>, post: Seq<SinkEvent>) -> bool {
    &&& pre.len() <= post.len()
    &&& forall|i: int| 0 <= i < pre.len() ==> #[trigger] post[i] == pre[i]
}

/// Answers that are given one after the other.
pub proof fn lemma_answers_concat(x: Seq<SinkEvent>, y: Seq<SinkEvent>)
    ensures
        answers_of(x + y) == answers_of(x) + answers_of(y),
    decreases y.len(),
{
    if y.len() == 0 {
        assert(x + y =~= x);
        assert(answers_of(x) + answers_of(y) =~= answers_of(x));
    } else {
        assert((x + y).drop_last() =~= x + y.drop_last());
        lemma_answers_concat(x, y.drop_last());
        assert(answers_of(x + y) =~= answers_of(x) + answers_of(y));
    }
}

/// The answers given on the way from `l0` over `l1` to `l2`.
pub proof fn lemma_answers_since(l0: Seq<SinkEvent>, l1: Seq<SinkEvent>, l2: Seq<SinkEvent>)
    requires
        log_kept(l0, l1),
        log_kept(l1, l2),
    ensures
        log_kept(l0, l2),
        answers_since(l0, l2) == answers_since(l0, l1) + answers_since(l1, l2),
{
    assert(l2.skip(l0.len() as int) =~= l1.skip(l0.len() as int) + l2.skip(l1.len() as int));
    lemma_answers_concat(l1.skip(l0.len() as int), l2.skip(l1.len() as int));
}

/// The answers given in one step.
pub proof fn lemma_answers_step(pre: Seq<SinkEvent>, post: Seq<SinkEvent>, a: Option<State>)
    requires
        grows(pre, post, a),
    ensures
        log_kept(pre, post),
        answers_since(pre, post) == (if asked(pre, post) {
            seq![a]
        } else {
            Seq::empty()
        }),
    decreases post.len() - pre.len(),
{
    let new = post.skip(pre.len() as int);
    if post.len() > pre.len() {
        let mid = post.drop_last();
        assert(new.drop_last() =~= mid.skip(pre.len() as int));
        assert(grows(pre, mid, a));
        lemma_answers_step(pre, mid, a);
        assert(!asked(pre, mid)) by {
            if asked(pre, mid) {
                assert(mid.last() == post[mid.len() - 1]);
            }
        }
        assert(answers_of(new) =~= (if asked(pre, post) {
            seq![a]
        } else {
            Seq::empty()
        }));
    }
}

/// Running goes on from where a step leads, and needs the answers that come after
/// those given in the step. The states that come after it are visited.
pub proof fn lemma_run_step(cfg: Config, a: Option<State>, tail: Seq<Option<State>>)
    requires
        cfg.wf(),
        cfg.step(a).0.m.state != State::CdataSection,
    ensures
        ({
            let (next, go) = cfg.step(a);
            &&& log_kept(cfg.m.log, next.m.log)
            &&& run(cfg, answers_since(cfg.m.log, next.m.log) + tail) == (if go {
                run(next, tail)
            } else {
                next
            })
            &&& forall|s: State| #[trigger]
                visits(cfg, answers_since(cfg.m.log, next.m.log) + tail, s) <==> cfg.m.state == s
                    || go && visits(next, tail, s)
        }),
{
    let (next, go) = cfg.step(a);
    lemma_step(cfg, a, a);
    lemma_answers_step(cfg.m.log, next.m.log, a);
    let given = answers_since(cfg.m.log, next.m.log) + tail;
    lemma_step(cfg, a, first_answer(given));
    if asked(cfg.m.log, next.m.log) {
        assert(given[0] == a);
        assert(more_answers(given) =~= tail);
    } else {
        assert(given =~= tail);
    }
}

/// What the end of the input does, for as long as there is something to do.
pub open spec fn run_eof(m: Machine) -> Machine
    decreases eof_rank(m.state),
    when m.wf() && m.settled()
{
    let (next, go) = on_eof(m);
    if go {
        proof {
            lemma_on_eof(m, None);
        }
        run_eof(next)
    } else {
        next
    }
}

impl Config {
    /// What feeding the input `s` does. A byte order mark is discarded at the
    /// beginning of the stream, and nowhere else. The sink answers with `answers`.
    pub open spec fn fed(self, s: Seq<char>, answers: Seq<Option<State>>) -> Config {
        if s.len() == 0 {
            self
        } else {
            run(self.given(s), answers)
        }
    }

    /// The configuration in which the remaining input is run when no more will come:
    /// a character reference has been brought to its end, and nothing is waited for.
    pub open spec fn at_end(self) -> Config {
        let cfg = match self.m.char_ref {
            Some(t) => self.apply_char_ref(cr_eof(t, self.without_char_ref())),
            None => self,
        };
        Config { wait_for: None, at_eof: true, ..cfg }
    }

    /// What the end of the input does. The sink answers with `answers`.
    pub open spec fn ended(self, answers: Seq<Option<State>>) -> Config {
        let cfg = run(self.at_end(), answers);
        cfg.with(run_eof(cfg.m))
    }
}

/// What the end of the input does to a character reference: it is brought to its end.
#[verifier::spinoff_prover]
#[verifier::rlimit(50)]
pub proof fn lemma_cr_eof(t: CharRefView, m: Machine, a: Option<State>)
    requires
        t.wf(),
        m.wf(),
        m.settled(),
        m.pending is None,
        m.char_ref is None,
    ensures
        ({
            let s = cr_eof(t, m);
            &&& s.m.wf()
            &&& s.m.settled()
            &&& s.m.pending is None
            &&& s.m.char_ref is None
            &&& s.m.state == m.state
            &&& grows(m.log, s.m.log, a)
            &&& !asked(m.log, s.m.log)
            &&& !s.eat
            &&& s.result matches Some(chars) && chars.len() <= 2
        }),
{
}

/// The configuration in which the remaining input is run is well-formed, and the sink
/// has not been asked on the way to it.
pub proof fn lemma_at_end(cfg: Config)
    requires
        cfg.wf(),
    ensures
        cfg.at_end().wf(),
        cfg.at_end().m.char_ref is None,
        cfg.m.char_ref matches Some(t) ==> cr_eof(t, cfg.without_char_ref()).result matches Some(
            chars,
        ) && chars.len() <= 2,
        log_kept(cfg.m.log, cfg.at_end().m.log),
        answers_since(cfg.m.log, cfg.at_end().m.log) == Seq::<Option<State>>::empty(),
{
    let m = cfg.without_char_ref();
    let log = cfg.at_end().m.log;
    if let Some(t) = cfg.m.char_ref {
        let s = cr_eof(t, m);
        lemma_cr_eof(t, m, None);
        lemma_after_look(cfg, s);
        lemma_put_char_ref(s.m, s.result->0, None);
        lemma_grows_on(m.log, s.m.log, log, None);
    }
    lemma_answers_step(cfg.m.log, log, None);
}

/// What the end of the input does keeps the invariant, and the sink is not asked.
pub proof fn lemma_eof_step(m: Machine)
    requires
        m.wf(),
        m.settled(),
    ensures
        ({
            let (next, go) = on_eof(m);
            &&& next.wf()
            &&& next.settled()
            &&& log_kept(m.log, next.log)
            &&& answers_since(m.log, next.log) == Seq::<Option<State>>::empty()
            &&& go ==> eof_rank(next.state) < eof_rank(m.state)
        }),
{
    let (next, go) = on_eof(m);
    lemma_on_eof(m, None);
    if go {
        lemma_answers_step(m.log, next.log, None);
    } else {
        let new = next.log.skip(m.log.len() as int);
        assert(new.len() == 1 && new.last() is Token);
        assert(answers_of(new.drop_last()) == Seq::<Option<State>>::empty());
    }
}

/// Giving input keeps the invariant.
pub proof fn lemma_given(cfg: Config, s: Seq<char>)
    requires
        cfg.wf(),
        s.len() > 0,
    ensures
        cfg.given(s).wf(),
        joined(cfg.given(s).input) == joined(cfg.input) + (if cfg.bom && s[0] == '\u{feff}' {
            s.drop_first()
        } else {
            s
        }),
{
    let text = if cfg.bom && s[0] == '\u{feff}' {
        s.drop_first()
    } else {
        s
    };
    lemma_joined_put_back(cfg.input, text);
    let all = joined(cfg.input);
    if all.len() >= 2 {
        assert((all + text).take(2) =~= all.take(2));
    }
}

} // verus!
