//! Reporting errors exactly changes nothing but the errors.
//!
//! To show this, configurations are looked at with the errors left out of their output,
//! and without what only the messages depend on.

use vstd::prelude::*;
use crate::tokenizer::char_ref::{CharRefView, cr_eof, cr_step};
use crate::tokenizer::chunks::{
    Flat, flat, flat_event, flat_run, lemma_at_end_flat, lemma_ended_flat, lemma_flat_step,
    lemma_may_answer, lemma_run_flat,
};
use crate::tokenizer::TokenizerOpts;
use crate::tokenizer::config::{Config, initial, read_char};
use crate::tokenizer::interface::SinkEvent;
use crate::tokenizer::laws::may_answer;
use crate::tokenizer::logs::{lemma_log_on_char, lemma_log_on_eof};
use crate::tokenizer::machine::Machine;
use crate::tokenizer::rules::{
    Group, group, on_attr_name, on_attr_value, on_char, on_comment, on_doctype, on_doctype_id,
    on_eof, on_raw_end, on_run, on_script, on_tag, on_text, run_stops, takes_runs,
};
use crate::tokenizer::run::{
    answers_of, answers_since, first_answer, lemma_at_end, lemma_eof_step,
    lemma_given, log_kept, more_answers, run_eof,
};
use crate::tokenizer::states::{DoctypeIdKind, State};
use crate::tokenizer::upkeep::{asked, eof_rank};

verus! {

/// Is this the report of an error?
pub open spec fn is_error(e: SinkEvent) -> bool {
    e matches SinkEvent::Token(t) && t is ParseError
}

/// Events, with the errors left out.
pub open spec fn without_errors(log: Seq<SinkEvent>) -> Seq<SinkEvent>
    decreases log.len(),
{
    if log.len() == 0 {
        Seq::empty()
    } else {
        let init = without_errors(log.drop_last());
        if is_error(log.last()) {
            init
        } else {
            init.push(log.last())
        }
    }
}

/// Leaving errors out of a log with an event added.
pub broadcast proof fn lemma_without_push(log: Seq<SinkEvent>, e: SinkEvent)
    ensures
        #[trigger] without_errors(log.push(e)) == (if is_error(e) {
            without_errors(log)
        } else {
            without_errors(log).push(e)
        }),
{
    assert(log.push(e).drop_last() =~= log);
}

/// Leaving errors out of one log after the other.
pub proof fn lemma_without_concat(x: Seq<SinkEvent>, y: Seq<SinkEvent>)
    ensures
        without_errors(x + y) == without_errors(x) + without_errors(y),
    decreases y.len(),
{
    if y.len() == 0 {
        assert(x + y =~= x);
        assert(without_errors(x) + without_errors(y) =~= without_errors(x));
    } else {
        assert((x + y).drop_last() =~= x + y.drop_last());
        lemma_without_concat(x, y.drop_last());
        assert(without_errors(x + y) =~= without_errors(x) + without_errors(y));
    }
}

/// Leaving errors out leaves the answers as they are.
pub proof fn lemma_without_answers(log: Seq<SinkEvent>)
    ensures
        answers_of(without_errors(log)) == answers_of(log),
    decreases log.len(),
{
    if log.len() > 0 {
        let init = log.drop_last();
        lemma_without_answers(init);
        if !is_error(log.last()) {
            let w = without_errors(init).push(log.last());
            assert(w.drop_last() =~= without_errors(init));
        }
    }
}

/// Setting characters apart and leaving errors out can be done in either order.
proof fn lemma_without_flat(log: Seq<SinkEvent>)
    ensures
        without_errors(flat(log)) == flat(without_errors(log)),
    decreases log.len(),
{
    if log.len() > 0 {
        let init = log.drop_last();
        let last = log.last();
        lemma_without_flat(init);
        lemma_without_concat(flat(init), flat_event(last));
        if is_error(last) {
            assert(flat_event(last) =~= Seq::<SinkEvent>::empty().push(last));
            lemma_without_push(Seq::empty(), last);
            assert(without_errors(flat_event(last)) =~= Seq::<SinkEvent>::empty());
            assert(flat(without_errors(init)) + Seq::<SinkEvent>::empty() =~= flat(
                without_errors(init),
            ));
        } else {
            lemma_no_errors(flat_event(last));
            let w = without_errors(init).push(last);
            assert(w.drop_last() =~= without_errors(init));
        }
    }
}

/// Where there are no errors, none are left out.
proof fn lemma_no_errors(log: Seq<SinkEvent>)
    requires
        forall|i: int| 0 <= i < log.len() ==> !is_error(#[trigger] log[i]),
    ensures
        without_errors(log) == log,
    decreases log.len(),
{
    if log.len() > 0 {
        let init = log.drop_last();
        assert forall|i: int| 0 <= i < init.len() implies !is_error(#[trigger] init[i]) by {
            assert(init[i] == log[i]);
        }
        lemma_no_errors(init);
        assert(init.push(log.last()) =~= log);
    }
}

/// Leaving errors out twice is no more than leaving them out once.
proof fn lemma_without_twice(log: Seq<SinkEvent>)
    ensures
        without_errors(without_errors(log)) == without_errors(log),
    decreases log.len(),
{
    broadcast use lemma_without_push;

    if log.len() > 0 {
        lemma_without_twice(log.drop_last());
    }
}

impl Machine {
    /// This machine, without errors in its log, and without what only the messages
    /// depend on.
    pub open spec fn quiet(self) -> Machine {
        Machine { exact: false, seen: '\0', log: without_errors(self.log), ..self }
    }
}

#[verifier::spinoff_prover]
#[verifier::rlimit(50)]
proof fn lemma_quiet_on_text(m: Machine, c: char, a: Option<State>)
    requires
        m.log == Seq::<SinkEvent>::empty(),
        group(m.state) == Group::Text,
    ensures
        on_text(m, c).quiet() == on_text(m.quiet(), c).quiet(),
{
    broadcast use lemma_without_push;

}

#[verifier::spinoff_prover]
#[verifier::rlimit(50)]
proof fn lemma_quiet_on_tag(m: Machine, c: char, a: Option<State>)
    requires
        m.log == Seq::<SinkEvent>::empty(),
        group(m.state) == Group::Tag,
    ensures
        on_tag(m, c, a).quiet() == on_tag(m.quiet(), c, a).quiet(),
{
    broadcast use lemma_without_push;

}

#[verifier::spinoff_prover]
#[verifier::rlimit(50)]
proof fn lemma_quiet_on_raw_end(m: Machine, c: char, a: Option<State>)
    requires
        m.log == Seq::<SinkEvent>::empty(),
        group(m.state) == Group::RawEnd,
    ensures
        on_raw_end(m, c, a).quiet() == on_raw_end(m.quiet(), c, a).quiet(),
{
    broadcast use lemma_without_push;

}

#[verifier::spinoff_prover]
#[verifier::rlimit(50)]
proof fn lemma_quiet_on_script(m: Machine, c: char, a: Option<State>)
    requires
        m.log == Seq::<SinkEvent>::empty(),
        group(m.state) == Group::Script,
    ensures
        on_script(m, c).quiet() == on_script(m.quiet(), c).quiet(),
{
    broadcast use lemma_without_push;

}

#[verifier::spinoff_prover]
#[verifier::rlimit(50)]
proof fn lemma_quiet_on_attr_name(m: Machine, c: char, a: Option<State>)
    requires
        m.log == Seq::<SinkEvent>::empty(),
        group(m.state) == Group::AttrName,
    ensures
        on_attr_name(m, c, a).quiet() == on_attr_name(m.quiet(), c, a).quiet(),
{
    broadcast use lemma_without_push;

}

#[verifier::spinoff_prover]
#[verifier::rlimit(50)]
proof fn lemma_quiet_on_attr_value(m: Machine, c: char, a: Option<State>)
    requires
        m.log == Seq::<SinkEvent>::empty(),
        group(m.state) == Group::AttrValue,
    ensures
        on_attr_value(m, c, a).quiet() == on_attr_value(m.quiet(), c, a).quiet(),
{
    broadcast use lemma_without_push;

}

#[verifier::spinoff_prover]
#[verifier::rlimit(50)]
proof fn lemma_quiet_on_comment(m: Machine, c: char, a: Option<State>)
    requires
        m.log == Seq::<SinkEvent>::empty(),
        group(m.state) == Group::Comment,
    ensures
        on_comment(m, c).quiet() == on_comment(m.quiet(), c).quiet(),
{
    broadcast use lemma_without_push;

}

#[verifier::spinoff_prover]
#[verifier::rlimit(50)]
proof fn lemma_quiet_on_doctype(m: Machine, c: char, a: Option<State>)
    requires
        m.log == Seq::<SinkEvent>::empty(),
        group(m.state) == Group::Doctype,
    ensures
        on_doctype(m, c).quiet() == on_doctype(m.quiet(), c).quiet(),
{
    broadcast use lemma_without_push;

}

#[verifier::spinoff_prover]
#[verifier::rlimit(50)]
proof fn lemma_quiet_on_doctype_id(m: Machine, c: char, a: Option<State>)
    requires
        m.log == Seq::<SinkEvent>::empty(),
        group(m.state) == Group::DoctypeId,
    ensures
        on_doctype_id(m, c).quiet() == on_doctype_id(m.quiet(), c).quiet(),
{
    broadcast use lemma_without_push;

}

/// What a character does, apart from errors.
proof fn lemma_quiet_on_char(m: Machine, c: char, a: Option<State>)
    requires
        m.log == Seq::<SinkEvent>::empty(),
    ensures
        on_char(m, c, a).quiet() == on_char(m.quiet(), c, a).quiet(),
{
    reveal(on_char);
    match group(m.state) {
        Group::Text => lemma_quiet_on_text(m, c, a),
        Group::Tag => lemma_quiet_on_tag(m, c, a),
        Group::RawEnd => lemma_quiet_on_raw_end(m, c, a),
        Group::Script => lemma_quiet_on_script(m, c, a),
        Group::AttrName => lemma_quiet_on_attr_name(m, c, a),
        Group::AttrValue => lemma_quiet_on_attr_value(m, c, a),
        Group::Comment => lemma_quiet_on_comment(m, c, a),
        Group::Doctype => lemma_quiet_on_doctype(m, c, a),
        Group::DoctypeId => lemma_quiet_on_doctype_id(m, c, a),
    }
}

/// What the end of the input does, apart from errors.
#[verifier::spinoff_prover]
#[verifier::rlimit(50)]
proof fn lemma_quiet_on_eof(m: Machine)
    requires
        m.log == Seq::<SinkEvent>::empty(),
    ensures
        on_eof(m).0.quiet() == on_eof(m.quiet()).0.quiet(),
        on_eof(m).1 == on_eof(m.quiet()).1,
{
    broadcast use lemma_without_push;

    reveal(on_eof);
}

/// What a look at the input does, apart from errors.
#[verifier::spinoff_prover]
#[verifier::rlimit(50)]
proof fn lemma_quiet_cr_step(t: CharRefView, m: Machine, c: char)
    requires
        m.log == Seq::<SinkEvent>::empty(),
    ensures
        ({
            let x = cr_step(t, m, c);
            let y = cr_step(t, m.quiet(), c);
            &&& x.m.quiet() == y.m.quiet()
            &&& x.t == y.t
            &&& x.eat == y.eat
            &&& x.back == y.back
            &&& x.result == y.result
        }),
{
    broadcast use lemma_without_push;

}

/// What the end of the input does inside a character reference, apart from errors.
#[verifier::spinoff_prover]
#[verifier::rlimit(50)]
proof fn lemma_quiet_cr_eof(t: CharRefView, m: Machine)
    requires
        m.log == Seq::<SinkEvent>::empty(),
    ensures
        ({
            let x = cr_eof(t, m);
            let y = cr_eof(t, m.quiet());
            &&& x.m.quiet() == y.m.quiet()
            &&& x.back == y.back
            &&& x.result == y.result
        }),
{
    broadcast use lemma_without_push;

}

/// Putting the characters of a reference reports no errors.
proof fn lemma_quiet_put_char_ref(m: Machine, chars: Seq<char>)
    ensures
        m.put_char_ref(chars).quiet() == m.quiet().put_char_ref(chars),
{
    broadcast use lemma_without_push;

}

/// What a character does, apart from errors, to machines that differ in nothing else.
proof fn lemma_quiet_alike(m: Machine, n: Machine, c: char, a: Option<State>)
    requires
        m.quiet() == n.quiet(),
    ensures
        on_char(m, c, a).quiet() == on_char(n, c, a).quiet(),
{
    let u = m.unlogged();
    let v = n.unlogged();
    lemma_log_on_char(m, c, a);
    lemma_log_on_char(n, c, a);
    lemma_quiet_on_char(u, c, a);
    lemma_quiet_on_char(v, c, a);
    assert(u.quiet() == v.quiet());
    lemma_without_concat(m.log, on_char(u, c, a).log);
    lemma_without_concat(n.log, on_char(v, c, a).log);
}

/// A character that does not end a run stands for itself, apart from errors.
proof fn lemma_quiet_plain_char(m: Machine, c: char, a: Option<State>)
    requires
        m.log == Seq::<SinkEvent>::empty(),
        takes_runs(m.state),
        !run_stops(m.state).contains(c),
    ensures
        on_char(m, c, a).quiet() == on_run(m, seq![c]).quiet(),
{
    broadcast use lemma_without_push;

    reveal(on_char);
    assert(m.attr_value.push(c) =~= m.attr_value + seq![c]);
}

impl Flat {
    /// The same, without errors in the output, and without what only the messages
    /// depend on.
    pub open spec fn quiet(self) -> Flat {
        Flat { m: self.m.quiet(), out: without_errors(self.out), ..self }
    }
}

/// Going on with machines that differ in nothing but errors.
proof fn lemma_quiet_then(f: Flat, g: Flat, m: Machine, n: Machine, rest: Seq<char>)
    requires
        f.quiet() == g.quiet(),
        m.quiet() == n.quiet(),
    ensures
        f.then_with(m, rest).quiet() == g.then_with(n, rest).quiet(),
{
    lemma_without_concat(f.out, flat(m.log));
    lemma_without_concat(g.out, flat(n.log));
    lemma_without_flat(m.log);
    lemma_without_flat(n.log);
    assert(m.unlogged().quiet() == n.unlogged().quiet());
}

/// Reading a character, apart from errors.
proof fn lemma_quiet_read(f: Flat)
    requires
        f.wf(),
    ensures
        ({
            let (c, m, rest) = f.read();
            let (d, n, left) = f.quiet().read();
            &&& c == d
            &&& m.quiet() == n.quiet()
            &&& rest == left
        }),
{
    broadcast use lemma_without_push;

    assert(f.m.log =~= Seq::<SinkEvent>::empty());
}

/// A step that reads a character, apart from errors.
proof fn lemma_quiet_step_char(f: Flat, a: Option<State>)
    requires
        f.wf(),
    ensures
        f.step_char(a).0.quiet() == f.quiet().step_char(a).0.quiet(),
        f.step_char(a).1 == f.quiet().step_char(a).1,
{
    let g = f.quiet();
    lemma_without_twice(f.out);
    lemma_without_twice(f.m.log);
    lemma_quiet_read(f);
    let (c, m, rest) = f.read();
    let (d, n, left) = g.read();
    match c {
        None => lemma_quiet_then(f, g, m, n, rest),
        Some(c) => {
            lemma_quiet_alike(m, n, c, a);
            lemma_quiet_then(f, g, on_char(m, c, a), on_char(n, c, a), rest);
        },
    }
}

/// A step inside a character reference, apart from errors.
proof fn lemma_quiet_step_char_ref(f: Flat)
    requires
        f.wf(),
        f.m.char_ref is Some,
    ensures
        f.step_char_ref().0.quiet() == f.quiet().step_char_ref().0.quiet(),
        f.step_char_ref().1 == f.quiet().step_char_ref().1,
{
    let g = f.quiet();
    lemma_without_twice(f.out);
    lemma_without_twice(f.m.log);
    if f.rest.len() > 0 {
        let t = f.m.char_ref->0;
        let m = Machine { char_ref: None, ..f.m };
        let c = f.rest[0];
        assert(m.log =~= Seq::<SinkEvent>::empty());
        assert(m.quiet() == (Machine { char_ref: None, ..g.m }));
        lemma_quiet_cr_step(t, m, c);
        let x = cr_step(t, m, c);
        let y = cr_step(t, m.quiet(), c);
        let rest = x.back + (if x.eat {
            f.rest.drop_first()
        } else {
            f.rest
        });
        match x.result {
            Some(chars) => {
                lemma_quiet_put_char_ref(x.m, chars);
                lemma_quiet_put_char_ref(y.m, chars);
                lemma_quiet_then(f, g, x.m.put_char_ref(chars), y.m.put_char_ref(chars), rest);
            },
            None => {
                lemma_quiet_then(
                    f,
                    g,
                    Machine { char_ref: Some(x.t), ..x.m },
                    Machine { char_ref: Some(y.t), ..y.m },
                    rest,
                );
            },
        }
    }
}

/// A step, apart from errors.
#[verifier::spinoff_prover]
#[verifier::rlimit(30)]
proof fn lemma_quiet_step(f: Flat, a: Option<State>)
    requires
        f.wf(),
    ensures
        f.advance(a).0.quiet() == f.quiet().advance(a).0.quiet(),
        f.advance(a).1 == f.quiet().advance(a).1,
{
    broadcast use lemma_without_push;

    reveal(Flat::advance);
    let g = f.quiet();
    let empty = Seq::<SinkEvent>::empty();
    lemma_without_twice(f.out);
    assert(f.m.log =~= empty);
    assert(without_errors(empty) =~= empty);
    if f.m.char_ref is Some {
        lemma_quiet_step_char_ref(f);
    } else if f.m.state == State::AfterDoctypeName {
        lemma_quiet_step_char(f, a);
        lemma_quiet_then(
            f,
            g,
            f.m.to(State::AfterDoctypeKeyword(DoctypeIdKind::Public)),
            g.m.to(State::AfterDoctypeKeyword(DoctypeIdKind::Public)),
            f.rest.skip(6),
        );
        lemma_quiet_then(
            f,
            g,
            f.m.to(State::AfterDoctypeKeyword(DoctypeIdKind::System)),
            g.m.to(State::AfterDoctypeKeyword(DoctypeIdKind::System)),
            f.rest.skip(6),
        );
    } else if f.m.state == State::MarkupDeclarationOpen {
        lemma_quiet_then(
            f,
            g,
            f.m.clear_comment().to(State::CommentStart),
            g.m.clear_comment().to(State::CommentStart),
            f.rest.skip(2),
        );
        lemma_quiet_then(f, g, f.m.to(State::Doctype), g.m.to(State::Doctype), f.rest.skip(7));
        lemma_quiet_then(
            f,
            g,
            f.m.error().to(State::BogusComment),
            g.m.error().to(State::BogusComment),
            f.rest,
        );
    } else if g.in_run() {
        let c = f.rest[0];
        let rest = f.rest.drop_first();
        let y = on_run(g.m, seq![c]);
        if f.m.exact {
            lemma_quiet_read(f);
            let (d, m, left) = f.read();
            let (e, n, right) = g.read();
            assert(read_char(g.m, c) == (c, g.m));
            lemma_quiet_alike(m, g.m, c, a);
            lemma_quiet_plain_char(g.m, c, a);
            lemma_quiet_then(f, g, on_char(m, c, a), y, rest);
        } else {
            assert(f.m == g.m);
            lemma_quiet_then(f, g, on_run(f.m, seq![c]), y, rest);
        }
    } else {
        lemma_quiet_step_char(f, a);
    }
}

/// The answers given in a step, apart from errors.
proof fn lemma_quiet_answers(f: Flat, g: Flat, f2: Flat, g2: Flat)
    requires
        f.quiet() == g.quiet(),
        f2.quiet() == g2.quiet(),
        log_kept(f.out, f2.out),
        log_kept(g.out, g2.out),
    ensures
        answers_since(f.out, f2.out) == answers_since(g.out, g2.out),
{
    let x = f2.out.skip(f.out.len() as int);
    let y = g2.out.skip(g.out.len() as int);
    assert(f2.out =~= f.out + x);
    assert(g2.out =~= g.out + y);
    lemma_without_concat(f.out, x);
    lemma_without_concat(g.out, y);
    let w = without_errors(f.out);
    assert(without_errors(x) =~= without_errors(f2.out).skip(w.len() as int));
    assert(without_errors(y) =~= without_errors(g2.out).skip(w.len() as int));
    lemma_without_answers(x);
    lemma_without_answers(y);
}

/// Configurations that differ in nothing but errors run to such that differ in nothing
/// but errors.
proof fn lemma_quiet_run(f: Flat, g: Flat, answers: Seq<Option<State>>)
    requires
        f.wf(),
        g.wf(),
        f.quiet() == g.quiet(),
        may_answer(answers),
    ensures
        flat_run(f, answers).quiet() == flat_run(g, answers).quiet(),
        flat_run(f, answers).wf(),
        flat_run(g, answers).wf(),
    decreases f.total(), f.in_char_ref(), f.rest.len(), f.rank(),
{
    let a = first_answer(answers);
    let (f2, go) = f.advance(a);
    let (g2, go2) = g.advance(a);
    lemma_flat_step(f, a, a);
    lemma_flat_step(g, a, a);
    lemma_quiet_step(f, a);
    lemma_quiet_step(g, a);
    lemma_quiet_answers(f, g, f2, g2);
    lemma_may_answer(answers);
    assert(asked(f.out, f2.out) <==> answers_since(f.out, f2.out).len() == 1);
    assert(asked(g.out, g2.out) <==> answers_since(g.out, g2.out).len() == 1);
    if go {
        let rest = if asked(f.out, f2.out) {
            more_answers(answers)
        } else {
            answers
        };
        lemma_quiet_run(f2, g2, rest);
    }
}

/// Feeding has the same effect on configurations that differ in nothing but errors: in
/// particular, on a tokenizer that reports errors exactly, and on one that does not.
pub proof fn law_exact_errors_change_only_errors(
    c: Config,
    d: Config,
    s: Seq<char>,
    answers: Seq<Option<State>>,
)
    requires
        c.wf(),
        d.wf(),
        c.bom == d.bom,
        c.flat().quiet() == d.flat().quiet(),
        may_answer(answers),
    ensures
        c.fed(s, answers).flat().quiet() == d.fed(s, answers).flat().quiet(),
{
    if s.len() > 0 {
        lemma_given(c, s);
        lemma_given(d, s);
        lemma_run_flat(c.given(s), answers);
        lemma_run_flat(d.given(s), answers);
        assert(c.given(s).flat().quiet() == d.given(s).flat().quiet());
        lemma_quiet_run(c.given(s).flat(), d.given(s).flat(), answers);
    }
}

/// What the end of the input does inside a character reference, apart from errors.
proof fn lemma_quiet_at_end(f: Flat)
    requires
        f.wf(),
    ensures
        f.at_end().quiet() == f.quiet().at_end().quiet(),
{
    let g = f.quiet();
    lemma_without_twice(f.out);
    lemma_without_twice(f.m.log);
    if let Some(t) = f.m.char_ref {
        let m = Machine { char_ref: None, ..f.m };
        assert(m.log =~= Seq::<SinkEvent>::empty());
        assert(m.quiet() == (Machine { char_ref: None, ..g.m }));
        lemma_quiet_cr_eof(t, m);
        let x = cr_eof(t, m);
        let y = cr_eof(t, m.quiet());
        let chars = x.result->0;
        lemma_quiet_put_char_ref(x.m, chars);
        lemma_quiet_put_char_ref(y.m, chars);
        lemma_quiet_then(
            f,
            g,
            x.m.put_char_ref(chars),
            y.m.put_char_ref(chars),
            x.back + f.rest,
        );
    }
}

/// What the end of the input does, apart from errors, to machines that differ in nothing
/// else.
proof fn lemma_quiet_run_eof(m: Machine, n: Machine)
    requires
        m.wf(),
        m.settled(),
        n.wf(),
        n.settled(),
        m.quiet() == n.quiet(),
    ensures
        run_eof(m).quiet() == run_eof(n).quiet(),
    decreases eof_rank(m.state),
{
    let u = m.unlogged();
    let v = n.unlogged();
    lemma_eof_step(m);
    lemma_eof_step(n);
    lemma_log_on_eof(m);
    lemma_log_on_eof(n);
    lemma_quiet_on_eof(u);
    lemma_quiet_on_eof(v);
    assert(u.quiet() == v.quiet());
    lemma_without_concat(m.log, on_eof(u).0.log);
    lemma_without_concat(n.log, on_eof(v).0.log);
    if on_eof(m).1 {
        lemma_quiet_run_eof(on_eof(m).0, on_eof(n).0);
    }
}

/// The end of the input has the same effect on configurations that differ in nothing but
/// errors.
#[verifier::spinoff_prover]
#[verifier::rlimit(40)]
pub proof fn law_exact_errors_change_only_errors_at_the_end(
    c: Config,
    d: Config,
    answers: Seq<Option<State>>,
)
    requires
        c.wf(),
        d.wf(),
        c.flat().quiet() == d.flat().quiet(),
        may_answer(answers),
    ensures
        c.ended(answers).flat().quiet() == d.ended(answers).flat().quiet(),
{
    lemma_ended_flat(c, answers);
    lemma_ended_flat(d, answers);
    lemma_at_end(c);
    lemma_at_end(d);
    lemma_at_end_flat(c);
    lemma_at_end_flat(d);
    lemma_quiet_at_end(c.flat());
    lemma_quiet_at_end(d.flat());
    let f = c.at_end().flat();
    let g = d.at_end().flat();
    lemma_quiet_run(f, g, answers);
    let x = flat_run(f, answers);
    let y = flat_run(g, answers);
    lemma_quiet_run_eof(x.m, y.m);
    lemma_quiet_then(x, y, run_eof(x.m), run_eof(y.m), x.rest);
}

/// A new tokenizer that reports errors exactly, and one that does not, differ in nothing
/// else.
pub proof fn law_exact_errors_at_the_beginning(opts: TokenizerOpts, log: Seq<SinkEvent>)
    ensures
        initial(opts, log).flat().quiet() == initial(
            TokenizerOpts { exact_errors: !opts.exact_errors, ..opts },
            log,
        ).flat().quiet(),
{
}

} // verus!
