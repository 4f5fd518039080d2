//! How the ends of lines are read, and which end tags end raw text.

use vstd::prelude::*;
use crate::tokenizer::chunks::{
    Flat, flat_run, law_characters_do_the_same_in_runs, lemma_flat_step, lemma_may_answer,
};
use crate::tokenizer::config::{Config, read_char};
use crate::tokenizer::interface::{SinkEvent, TagKind, TagView, TokenView};
use crate::tokenizer::laws::may_answer;
use crate::tokenizer::machine::Machine;
use crate::tokenizer::reading::{
    group_flat, lemma_begin, lemma_read_on, lemma_silent, lemma_stop, said, said_all,
};
use crate::tokenizer::rules::{gap, on_char};
use crate::tokenizer::run::first_answer;
use crate::tokenizer::states::{RawKind, State};
use crate::tokenizer::upkeep::asked;
use crate::util::str::{is_letter, is_space, lower, lower_text};

verus! {

/// Text with the ends of its lines made alike: a carriage return is read as a line feed, and
/// a line feed right after a carriage return is not read at all. `after` says whether a
/// carriage return comes before the text.
pub open spec fn lines(after: bool, s: Seq<char>) -> Seq<char>
    decreases s.len(),
{
    if s.len() == 0 {
        Seq::empty()
    } else if after && s[0] == '\n' {
        lines(false, s.drop_first())
    } else if s[0] == '\r' {
        seq!['\n'] + lines(true, s.drop_first())
    } else {
        seq![s[0]] + lines(false, s.drop_first())
    }
}

/// Does `c` stand for itself in text of this kind?
pub open spec fn plain(s: State, c: char) -> bool {
    match s {
        State::Data => c != '\0' && c != '<' && c != '&',
        State::RawData(RawKind::Rcdata) => c != '\0' && c != '<' && c != '&',
        State::RawData(RawKind::Rawtext) => c != '\0' && c != '<',
        State::RawData(RawKind::ScriptData) => c != '\0' && c != '<',
        State::Plaintext => c != '\0',
        _ => false,
    }
}

/// Is the machine between two characters of text?
spec fn in_lines(m: Machine) -> bool {
    &&& !m.exact
    &&& m.pending is None
    &&& m.char_ref is None
    &&& plain(m.state, 'a')
}

/// Reading the next character of text.
#[verifier::spinoff_prover]
#[verifier::rlimit(40)]
proof fn lemma_line_char(g: Flat, d: char, after: bool, rest: Seq<char>, answers: Seq<Option<State>>)
    requires
        g.wf(),
        in_lines(g.m),
        plain(g.m.state, d),
        g.rest.len() > 0,
        g.read() == (Some(d), Machine { ignore_lf: after, ..g.m }, rest),
        may_answer(answers),
    ensures
        ({
            let h = g.now(Machine { ignore_lf: after, ..g.m }, rest).told(seq![said(d)]);
            &&& h.wf()
            &&& flat_run(g, answers) == flat_run(h, answers)
        }),
{
    broadcast use group_flat;

    let a = first_answer(answers);
    let m1 = Machine { ignore_lf: after, ..g.m };
    let m = m1.emit(d);
    let h = g.now(m1, rest).told(seq![said(d)]);
    assert(on_char(m1, d, a) == m) by {
        reveal(on_char);
    }
    assert(g.m.log =~= Seq::<SinkEvent>::empty());
    assert(g.then_with(m, rest).out =~= h.out);
    assert(g.then_with(m, rest).m =~= h.m);
    assert(g.advance(a) == (h, true)) by {
        reveal(Flat::advance);
        if g.in_run() {
            assert(g.rest[0] != '\r');
            assert(m1 == g.m);
            law_characters_do_the_same_in_runs(g.m, d, a);
        }
    }
    lemma_may_answer(answers);
    lemma_flat_step(g, a, a);
    assert(h.out.last() is Token);
    assert(!asked(g.out, h.out));
}

/// Reading text to its end.
#[verifier::spinoff_prover]
#[verifier::rlimit(40)]
proof fn lemma_lines(g: Flat, answers: Seq<Option<State>>)
    requires
        g.wf(),
        in_lines(g.m),
        !g.at_eof,
        forall|i: int| 0 <= i < g.rest.len() ==> plain(g.m.state, #[trigger] g.rest[i]),
        may_answer(answers),
    ensures
        ({
            let post = flat_run(g, answers);
            let after = if g.rest.len() == 0 {
                g.m.ignore_lf
            } else {
                g.rest.last() == '\r'
            };
            &&& post.out == g.out + said_all(lines(g.m.ignore_lf, g.rest))
            &&& post.m == (Machine { ignore_lf: after, ..g.m })
            &&& post.rest.len() == 0
        }),
    decreases g.rest.len(),
{
    broadcast use group_flat;

    let s = g.rest;
    let none = Seq::<char>::empty();
    if s.len() == 0 {
        lemma_stop(g, answers);
        assert(g.out + said_all(none) =~= g.out);
        assert(lines(g.m.ignore_lf, s) =~= none);
    } else if g.m.ignore_lf && s[0] == '\n' && s.len() == 1 {
        let h = g.now(Machine { ignore_lf: false, ..g.m }, none);
        assert(s.drop_first() =~= none);
        assert(lines(true, s) == lines(false, none));
        assert(lines(false, none) =~= none);
        assert(g.out + said_all(none) =~= g.out);
        assert(g.out + Seq::<SinkEvent>::empty() =~= g.out);
        assert(g.m.log =~= Seq::<SinkEvent>::empty());
        assert(g.advance(first_answer(answers)) == (h, false)) by {
            reveal(Flat::advance);
            assert(g.then_with(h.m, none) =~= h);
        }
        assert(flat_run(g, answers) == h);
    } else {
        let skipped = g.m.ignore_lf && s[0] == '\n';
        let k: int = if skipped {
            1
        } else {
            0
        };
        let c = s[k];
        let d = if c == '\r' {
            '\n'
        } else {
            c
        };
        let after = c == '\r';
        let rest = s.skip(k + 1);
        assert(plain(g.m.state, s[k]));
        assert(g.m.seen == '\0');
        assert(read_char(Machine { ignore_lf: false, ..g.m }, c) == (
            d,
            Machine { ignore_lf: after, ..g.m },
        ));
        assert(read_char(g.m, c) == (d, Machine { ignore_lf: after, ..g.m }));
        assert(s.skip(1) =~= s.drop_first());
        assert(g.read() == (Some(d), Machine { ignore_lf: after, ..g.m }, rest));
        lemma_line_char(g, d, after, rest, answers);
        let h = g.now(Machine { ignore_lf: after, ..g.m }, rest).told(seq![said(d)]);
        assert forall|i: int| 0 <= i < rest.len() implies plain(g.m.state, #[trigger] rest[i]) by {
            assert(rest[i] == s[i + k + 1]);
        }
        lemma_lines(h, answers);
        assert(lines(g.m.ignore_lf, s) =~= seq![d] + lines(after, rest)) by {
            if skipped {
                let t = s.drop_first();
                assert(t.drop_first() =~= rest);
                assert(t[0] == c);
                assert(lines(true, s) == lines(false, t));
                assert(lines(false, t) == seq![d] + lines(after, t.drop_first()));
            } else {
                assert(s.drop_first() =~= rest);
            }
        }
        assert(said_all(seq![d] + lines(after, rest)) =~= seq![said(d)] + said_all(
            lines(after, rest),
        ));
        assert(g.out + seq![said(d)] + said_all(lines(after, rest)) =~= g.out + said_all(
            lines(g.m.ignore_lf, s),
        ));
    }
}

/// Text without markup is emitted as it is, but that the ends of lines are made alike: a
/// carriage return, and a carriage return and a line feed, come out as one line feed. A
/// carriage return at the end is remembered until more text comes.
pub proof fn law_line_ends_are_made_alike(cfg: Config, s: Seq<char>, answers: Seq<Option<State>>)
    requires
        cfg.idle(),
        !cfg.at_eof,
        s.len() > 0,
        forall|i: int| 0 <= i < s.len() ==> plain(cfg.m.state, #[trigger] s[i]),
        cfg.bom ==> s[0] != '\u{feff}',
        may_answer(answers),
    ensures
        ({
            let f = cfg.flat();
            let post = cfg.fed(s, answers).flat();
            &&& post.out == f.out + said_all(lines(false, s))
            &&& post.m == (Machine { ignore_lf: s.last() == '\r', ..f.m })
            &&& post.rest.len() == 0
        }),
{
    let f = cfg.flat();
    lemma_begin(cfg, s, answers);
    assert(plain(cfg.m.state, s[0]));
    lemma_lines(f.now(f.m, s), answers);
}

/// White space is the same in text as between the parts of a tag, but that a carriage return
/// does not get as far as the tags.
pub proof fn law_white_space(c: char)
    ensures
        is_space(c) <==> gap(c) || c == '\r',
{
}

/// Reading text of which no character ends a line, up to what follows it.
#[verifier::spinoff_prover]
#[verifier::rlimit(30)]
proof fn lemma_plain(f: Flat, s: Seq<char>, rest: Seq<char>, answers: Seq<Option<State>>)
    requires
        f.wf(),
        f.m.between(),
        forall|i: int| 0 <= i < s.len() ==> plain(f.m.state, #[trigger] s[i]) && s[i] != '\r',
        may_answer(answers),
    ensures
        f.now(f.m, rest).told(said_all(s)).wf(),
        flat_run(f.now(f.m, s + rest), answers) == flat_run(
            f.now(f.m, rest).told(said_all(s)),
            answers,
        ),
    decreases s.len(),
{
    broadcast use group_flat;

    if s.len() == 0 {
        assert(s + rest =~= rest);
        assert(f.out + said_all(s) =~= f.out);
    } else {
        let c = s[0];
        let more = s.drop_first();
        let g = f.now(f.m, s + rest);
        let m = f.m.emit(c);
        assert(plain(f.m.state, s[0]));
        assert(on_char(f.m, c, first_answer(answers)) == m) by {
            reveal(on_char);
        }
        assert(g.rest.drop_first() =~= more + rest);
        assert(f.m.log =~= Seq::<SinkEvent>::empty());
        lemma_read_on(g, answers);
        let h = f.told(seq![said(c)]);
        assert(g.then_with(m, more + rest).out =~= h.out);
        assert(g.then_with(m, more + rest) =~= h.now(h.m, more + rest));
        assert forall|i: int| 0 <= i < more.len() implies plain(f.m.state, #[trigger] more[i])
            && more[i] != '\r' by {
            assert(more[i] == s[i + 1]);
        }
        lemma_plain(h, more, rest, answers);
        assert(said_all(s) =~= seq![said(c)] + said_all(more));
        assert(h.out + said_all(more) =~= f.out + said_all(s));
    }
}

/// Is this the state inside raw text that an end tag ends?
pub open spec fn is_raw(s: State) -> bool {
    ||| s == State::RawData(RawKind::Rcdata)
    ||| s == State::RawData(RawKind::Rawtext)
    ||| s == State::RawData(RawKind::ScriptData)
}

/// Inside what may be an end tag in raw text.
spec fn in_end_tag(f: Flat, kind: RawKind, name: Seq<char>, rest: Seq<char>) -> Flat {
    f.now(
        Machine {
            state: State::RawEndTagName(kind),
            tag_kind: TagKind::EndTag,
            tag_name: lower_text(name),
            self_closing: false,
            attrs: Seq::empty(),
            temp_buf: name,
            ..f.m
        },
        rest,
    )
}

/// Reading `</` and the first letter of a name.
#[verifier::spinoff_prover]
#[verifier::rlimit(40)]
proof fn lemma_end_tag_begins(
    f: Flat,
    kind: RawKind,
    c: char,
    rest: Seq<char>,
    answers: Seq<Option<State>>,
)
    requires
        f.wf(),
        f.m.between(),
        f.m.state == State::RawData(kind),
        is_raw(f.m.state),
        is_letter(c),
        may_answer(answers),
    ensures
        in_end_tag(f, kind, seq![c], rest).wf(),
        flat_run(f.now(f.m, seq!['<', '/', c] + rest), answers) == flat_run(
            in_end_tag(f, kind, seq![c], rest),
            answers,
        ),
{
    let a = first_answer(answers);
    let t2 = seq![c] + rest;
    let t1 = seq!['/'] + t2;
    assert(seq!['<', '/', c] + rest =~= seq!['<'] + t1);
    let m1 = f.m.to(State::RawLessThanSign(kind));
    assert(on_char(f.m, '<', a) == m1) by {
        reveal(on_char);
    }
    lemma_silent(f, m1, '<', t1, answers);
    let f1 = f.now(m1, t1);
    let m2 = m1.clear_temp().to(State::RawEndTagOpen(kind));
    assert(on_char(m1, '/', a) == m2) by {
        reveal(on_char);
    }
    lemma_silent(f1, m2, '/', t2, answers);
    let f2 = f1.now(m2, t2);
    let h = in_end_tag(f, kind, seq![c], rest);
    assert(lower_text(seq![c]) =~= seq![lower(c)]);
    assert(Seq::<char>::empty().push(c) =~= seq![c]);
    assert(on_char(m2, c, a) == h.m) by {
        reveal(on_char);
    }
    lemma_silent(f2, h.m, c, rest, answers);
}

/// Reading the name from its `k`th letter on.
proof fn lemma_end_tag_name(
    f: Flat,
    kind: RawKind,
    name: Seq<char>,
    k: int,
    rest: Seq<char>,
    answers: Seq<Option<State>>,
)
    requires
        0 < k <= name.len(),
        in_end_tag(f, kind, name.take(k), name.skip(k) + rest).wf(),
        f.m.between(),
        forall|i: int| 0 <= i < name.len() ==> is_letter(#[trigger] name[i]),
        may_answer(answers),
    ensures
        in_end_tag(f, kind, name, rest).wf(),
        flat_run(in_end_tag(f, kind, name.take(k), name.skip(k) + rest), answers) == flat_run(
            in_end_tag(f, kind, name, rest),
            answers,
        ),
    decreases name.len() - k,
{
    if k == name.len() {
        assert(name.take(k) =~= name);
        assert(name.skip(k) + rest =~= rest);
    } else {
        let c = name[k];
        let more = name.skip(k + 1) + rest;
        let g = in_end_tag(f, kind, name.take(k), name.skip(k) + rest);
        let h = in_end_tag(f, kind, name.take(k + 1), more);
        assert(name.skip(k) + rest =~= seq![c] + more);
        assert(name.take(k).push(c) =~= name.take(k + 1));
        assert(lower_text(name.take(k)).push(lower(c)) =~= lower_text(name.take(k + 1)));
        assert(is_letter(c));
        assert(on_char(g.m, c, first_answer(answers)) == h.m) by {
            reveal(on_char);
        }
        lemma_silent(g, h.m, c, more, answers);
        assert(g.now(h.m, more) == h);
        lemma_end_tag_name(f, kind, name, k + 1, rest, answers);
    }
}

/// The end tag with a name.
pub open spec fn end_tag(name: Seq<char>) -> SinkEvent {
    SinkEvent::Token(
        TokenView::TagToken(
            TagView {
                kind: TagKind::EndTag,
                name,
                self_closing: false,
                attrs: Seq::empty(),
            },
        ),
    )
}

/// Reading the `>` after the name of the element that is open.
#[verifier::spinoff_prover]
#[verifier::rlimit(40)]
proof fn lemma_right_end_tag(f: Flat, kind: RawKind, name: Seq<char>, answers: Seq<Option<State>>)
    requires
        in_end_tag(f, kind, name, seq!['>']).wf(),
        f.m.idle(),
        f.m.last_start_tag == Some(lower_text(name)),
        may_answer(answers),
    ensures
        ({
            let post = flat_run(in_end_tag(f, kind, name, seq!['>']), answers);
            &&& post.out == f.out.push(end_tag(lower_text(name)))
            &&& post.m.state == State::Data
            &&& post.m.idle()
            &&& post.rest.len() == 0
        }),
{
    broadcast use group_flat;

    let a = first_answer(answers);
    let none = Seq::<char>::empty();
    let g = in_end_tag(f, kind, name, seq!['>']);
    let m = g.m.emit_tag(State::Data, a);
    assert(on_char(g.m, '>', a) == m) by {
        reveal(on_char);
    }
    assert(g.m.log =~= Seq::<SinkEvent>::empty());
    lemma_read_on(g, answers);
    assert(g.rest.drop_first() =~= none);
    let h = g.then_with(m, none);
    assert(h.out =~= f.out.push(end_tag(lower_text(name))));
    lemma_stop(h, answers);
}

/// Reading the `>` after another name.
#[verifier::spinoff_prover]
#[verifier::rlimit(40)]
proof fn lemma_other_end_tag(f: Flat, kind: RawKind, name: Seq<char>, answers: Seq<Option<State>>)
    requires
        in_end_tag(f, kind, name, seq!['>']).wf(),
        f.m.idle(),
        f.m.state == State::RawData(kind),
        is_raw(f.m.state),
        f.m.last_start_tag != Some(lower_text(name)),
        forall|i: int| 0 <= i < name.len() ==> is_letter(#[trigger] name[i]),
        may_answer(answers),
    ensures
        ({
            let post = flat_run(in_end_tag(f, kind, name, seq!['>']), answers);
            &&& post.out == f.out + said_all(seq!['<', '/'] + name + seq!['>'])
            &&& post.m.state == f.m.state
            &&& post.m.idle()
            &&& post.m.last_start_tag == f.m.last_start_tag
            &&& post.rest.len() == 0
        }),
{
    broadcast use group_flat;

    let a = first_answer(answers);
    let none = Seq::<char>::empty();
    let g = in_end_tag(f, kind, name, seq!['>']);
    let m = g.m.discard_tag().emit('<').emit('/').emit_temp().reconsume(State::RawData(kind), '>');
    assert(on_char(g.m, '>', a) == m) by {
        reveal(on_char);
    }
    assert(g.m.log =~= Seq::<SinkEvent>::empty());
    lemma_read_on(g, answers);
    assert(g.rest.drop_first() =~= none);
    let h = g.then_with(m, none);
    let held = seq!['<', '/'] + name;
    assert(crate::tokenizer::chunks::flat_event(
        SinkEvent::Token(TokenView::CharacterTokens(name)),
    ) =~= said_all(name)) by {
        assert forall|i: int| 0 <= i < name.len() implies name[i] != '\0' by {
            assert(is_letter(name[i]));
        }
    }
    assert(said_all(held) =~= seq![said('<'), said('/')] + said_all(name));
    assert(h.out =~= f.out + said_all(held));
    // The `>` is read once more, in raw text.
    let m1 = Machine { pending: None, ..h.m };
    let m2 = m1.emit('>');
    assert(on_char(m1, '>', a) == m2) by {
        reveal(on_char);
    }
    assert(h.m.log =~= Seq::<SinkEvent>::empty());
    let h2 = h.then_with(m2, none);
    assert(h.rest =~= none);
    assert(h.advance(a) == (h2, true)) by {
        reveal(Flat::advance);
    }
    lemma_may_answer(answers);
    lemma_flat_step(h, a, a);
    assert(h2.out =~= h.out.push(said('>')));
    assert(!asked(h.out, h2.out));
    assert(said_all(held + seq!['>']) =~= said_all(held).push(said('>')));
    assert(h2.out =~= f.out + said_all(held + seq!['>']));
    lemma_stop(h2, answers);
}

/// Raw text goes as far as the end tag of the element that is open, and no other tag ends it:
/// an end tag with the name of the start tag that came last is emitted, whatever the case of
/// its letters, and one with another name is text like any other.
#[verifier::spinoff_prover]
#[verifier::rlimit(30)]
pub proof fn law_raw_text_ends_with_its_own_end_tag(
    cfg: Config,
    s: Seq<char>,
    name: Seq<char>,
    answers: Seq<Option<State>>,
)
    requires
        cfg.idle(),
        !cfg.at_eof,
        is_raw(cfg.m.state),
        forall|i: int| 0 <= i < s.len() ==> plain(cfg.m.state, #[trigger] s[i]) && s[i] != '\r',
        name.len() > 0,
        forall|i: int| 0 <= i < name.len() ==> is_letter(#[trigger] name[i]),
        cfg.bom && s.len() > 0 ==> s[0] != '\u{feff}',
        may_answer(answers),
    ensures
        ({
            let f = cfg.flat();
            let text = s + seq!['<', '/'] + name + seq!['>'];
            let post = cfg.fed(text, answers).flat();
            &&& post.m.idle()
            &&& post.rest.len() == 0
            &&& if cfg.m.last_start_tag == Some(lower_text(name)) {
                &&& post.out == f.out + said_all(s) + seq![end_tag(lower_text(name))]
                &&& post.m.state == State::Data
            } else {
                &&& post.out == f.out + said_all(text)
                &&& post.m.state == cfg.m.state
                &&& post.m.last_start_tag == cfg.m.last_start_tag
            }
        }),
{
    let f = cfg.flat();
    let kind = cfg.m.state->RawData_0;
    let end = seq!['>'];
    let text = s + seq!['<', '/'] + name + end;
    lemma_begin(cfg, text, answers);
    assert(f.wf()) by {
        assert(f.now(f.m, text).wf());
    }
    let tail = seq!['<', '/'] + name + end;
    assert(text =~= s + tail);
    lemma_plain(f, s, tail, answers);
    let g = f.told(said_all(s));
    assert(g.now(g.m, tail) == f.now(f.m, tail).told(said_all(s)));
    let more = name.skip(1) + end;
    assert(tail =~= seq!['<', '/', name[0]] + more);
    lemma_end_tag_begins(g, kind, name[0], more, answers);
    assert(name.take(1) =~= seq![name[0]]);
    lemma_end_tag_name(g, kind, name, 1, end, answers);
    if cfg.m.last_start_tag == Some(lower_text(name)) {
        lemma_right_end_tag(g, kind, name, answers);
        let e = end_tag(lower_text(name));
        assert(g.out.push(e) =~= f.out + said_all(s) + seq![e]);
    } else {
        lemma_other_end_tag(g, kind, name, answers);
        assert(said_all(text) =~= said_all(s) + said_all(tail));
        assert(g.out + said_all(tail) =~= f.out + said_all(text));
    }
}

} // verus!
