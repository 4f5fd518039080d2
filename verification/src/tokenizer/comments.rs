//! Which text becomes which comment.

use vstd::prelude::*;
use crate::tokenizer::chunks::{Flat, flat_run, lemma_flat_step, lemma_may_answer};
use crate::tokenizer::config::Config;
use crate::tokenizer::interface::{SinkEvent, TokenView};
use crate::tokenizer::laws::may_answer;
use crate::tokenizer::machine::Machine;
use crate::tokenizer::reading::{
    bad_char, group_flat, lemma_begin, lemma_read_on, lemma_stop,
};
use crate::tokenizer::rules::on_char;
use crate::tokenizer::run::first_answer;
use crate::tokenizer::states::State;
use crate::tokenizer::upkeep::asked;

verus! {

/// Does `t` end with `e`?
pub open spec fn ends_with(t: Seq<char>, e: Seq<char>) -> bool {
    t.len() >= e.len() && t.skip(t.len() - e.len()) == e
}

/// What stands at the end of `t`, which follows `<!--`, and would not belong to the text
/// of the comment, if the comment ended here.
pub open spec fn dashes(t: Seq<char>) -> Seq<char> {
    if ends_with(t, seq!['-', '-']) {
        seq!['-', '-']
    } else if ends_with(t, seq!['-', '-', '!']) {
        seq!['-', '-', '!']
    } else if ends_with(t, seq!['-']) {
        seq!['-']
    } else {
        Seq::empty()
    }
}

/// Does a `>` end a comment of which `t` has been read after `<!--`? It does after two
/// dashes, after two dashes and an exclamation mark, and where the comment has only just
/// begun.
pub open spec fn closes(t: Seq<char>) -> bool {
    ||| t.len() == 0
    ||| t == seq!['-']
    ||| ends_with(t, seq!['-', '-'])
    ||| ends_with(t, seq!['-', '-', '!'])
}

/// A character as it is shown in a comment: U+0000 is replaced.
pub open spec fn shown_char(c: char) -> char {
    if c == '\0' {
        '\u{fffd}'
    } else {
        c
    }
}

/// Text as it is shown in a comment.
pub open spec fn shown(t: Seq<char>) -> Seq<char> {
    t.map_values(|c: char| shown_char(c))
}

/// The text of the comment of which `t` has been read after `<!--`.
pub open spec fn comment_text(t: Seq<char>) -> Seq<char> {
    shown(t.take(t.len() - dashes(t).len()))
}

/// How many errors there are in `t`, which follows `<!--`: one for each U+0000, and one for
/// each character that comes after two dashes.
pub open spec fn comment_errors(t: Seq<char>) -> nat
    decreases t.len(),
{
    if t.len() == 0 {
        0
    } else {
        comment_errors(t.drop_last()) + (if t.last() == '\0' || ends_with(
            t.drop_last(),
            seq!['-', '-'],
        ) {
            1nat
        } else {
            0nat
        })
    }
}

/// Reports of `n` characters that do not belong where they stand.
pub open spec fn bad_chars(n: nat) -> Seq<SinkEvent> {
    Seq::new(n, |i: int| bad_char())
}

/// The state in a comment of which `t` has been read after `<!--`.
spec fn comment_state(t: Seq<char>) -> State {
    if t.len() == 0 {
        State::CommentStart
    } else if t == seq!['-'] {
        State::CommentStartDash
    } else if ends_with(t, seq!['-', '-']) {
        State::CommentEnd
    } else if ends_with(t, seq!['-', '-', '!']) {
        State::CommentEndBang
    } else if ends_with(t, seq!['-']) {
        State::CommentEndDash
    } else {
        State::Comment
    }
}

/// Inside a comment of which `t` has been read after `<!--`.
spec fn in_comment(f: Flat, t: Seq<char>, rest: Seq<char>) -> Flat {
    Flat {
        m: Machine { state: comment_state(t), comment: comment_text(t), ..f.m },
        out: f.out + bad_chars(comment_errors(t)),
        rest,
        ..f
    }
}

/// What a character that does not end the comment does in the state `s`: the next state,
/// what is added to the text, and whether there is an error.
spec fn comment_move(s: State, c: char) -> (State, Seq<char>, bool) {
    let held = match s {
        State::CommentStartDash => seq!['-'],
        State::CommentEndDash => seq!['-'],
        State::CommentEnd => seq!['-', '-'],
        State::CommentEndBang => seq!['-', '-', '!'],
        _ => Seq::empty(),
    };
    let bad = c == '\0' || s == State::CommentEnd;
    if c == '-' {
        match s {
            State::CommentStart => (State::CommentStartDash, held, bad),
            State::Comment => (State::CommentEndDash, held, bad),
            State::CommentEnd => (State::CommentEnd, seq!['-'], bad),
            State::CommentEndBang => (State::CommentEndDash, held, bad),
            _ => (State::CommentEnd, Seq::empty(), bad),
        }
    } else if c == '!' && s == State::CommentEnd {
        (State::CommentEndBang, Seq::empty(), bad)
    } else {
        (State::Comment, held.push(shown_char(c)), bad)
    }
}

/// Is this one of the states inside a comment?
spec fn comment_inside(s: State) -> bool {
    ||| s == State::CommentStart
    ||| s == State::CommentStartDash
    ||| s == State::Comment
    ||| s == State::CommentEndDash
    ||| s == State::CommentEnd
    ||| s == State::CommentEndBang
}

/// The rules inside a comment, for a character that does not end it.
#[verifier::spinoff_prover]
#[verifier::rlimit(40)]
proof fn lemma_comment_rule(m: Machine, c: char, a: Option<State>)
    requires
        m.between(),
        comment_inside(m.state),
        c == '>' ==> m.state == State::Comment || m.state == State::CommentEndDash,
    ensures
        ({
            let (s, added, bad) = comment_move(m.state, c);
            let n = on_char(m, c, a);
            &&& n.state == s
            &&& n.comment == m.comment + added
            &&& n.log == (if bad {
                m.log.push(bad_char())
            } else {
                m.log
            })
            &&& n == (Machine { state: n.state, comment: n.comment, log: n.log, ..m })
        }),
{
    reveal(on_char);
    reveal_strlit("-\u{fffd}");
    reveal_strlit("--\u{fffd}");
    reveal_strlit("--!\u{fffd}");
    reveal_strlit("--");
    reveal_strlit("--!");
    let (s, added, bad) = comment_move(m.state, c);
    assert(on_char(m, c, a).comment =~= m.comment + added);
}

/// How the state in a comment and the text change with a character.
#[verifier::spinoff_prover]
#[verifier::rlimit(40)]
proof fn lemma_comment_grows(t: Seq<char>, c: char)
    requires
        c == '>' ==> !closes(t),
    ensures
        ({
            let (s, added, bad) = comment_move(comment_state(t), c);
            &&& comment_inside(comment_state(t))
            &&& c == '>' ==> comment_state(t) == State::Comment || comment_state(t)
                == State::CommentEndDash
            &&& comment_state(t.push(c)) == s
            &&& comment_text(t.push(c)) == comment_text(t) + added
            &&& comment_errors(t.push(c)) == comment_errors(t) + (if bad {
                1nat
            } else {
                0nat
            })
        }),
{
    let u = t.push(c);
    let n = t.len() as int;
    let (s, added, bad) = comment_move(comment_state(t), c);
    assert(u.drop_last() =~= t);
    lemma_ends_one(t);
    lemma_ends_one(u);
    lemma_ends_two(t);
    lemma_ends_two(u);
    lemma_ends_three(t);
    lemma_ends_three(u);
    assert(t == seq!['-'] <==> n == 1 && t[0] == '-') by {
        if n == 1 && t[0] == '-' {
            assert(t =~= seq!['-']);
        }
    }
    assert(u == seq!['-'] <==> n == 0 && c == '-') by {
        if n == 0 && c == '-' {
            assert(u =~= seq!['-']);
        }
        if u == seq!['-'] {
            assert(u.len() == 1 && u[0] == '-');
        }
    }
    assert(comment_state(u) == s);
    assert(comment_text(u).len() == comment_text(t).len() + added.len());
    assert(comment_text(u) =~= comment_text(t) + added);
}

/// Reading a character that does not end the comment.
#[verifier::spinoff_prover]
#[verifier::rlimit(40)]
proof fn lemma_comment_char(
    f: Flat,
    t: Seq<char>,
    c: char,
    rest: Seq<char>,
    answers: Seq<Option<State>>,
)
    requires
        in_comment(f, t, seq![c] + rest).wf(),
        f.m.between(),
        c != '\r',
        c == '>' ==> !closes(t),
        may_answer(answers),
    ensures
        in_comment(f, t.push(c), rest).wf(),
        flat_run(in_comment(f, t, seq![c] + rest), answers) == flat_run(
            in_comment(f, t.push(c), rest),
            answers,
        ),
{
    broadcast use group_flat;

    let g = in_comment(f, t, seq![c] + rest);
    let h = in_comment(f, t.push(c), rest);
    let a = first_answer(answers);
    let m = on_char(g.m, c, a);
    lemma_comment_grows(t, c);
    lemma_comment_rule(g.m, c, a);
    assert(g.rest.drop_first() =~= rest);
    assert(g.rest[0] == c);
    assert(g.m.log =~= Seq::<SinkEvent>::empty());
    lemma_read_on(g, answers);
    assert(g.then_with(m, rest).out =~= h.out);
    assert(g.then_with(m, rest) =~= h);
}

/// Ending with a dash.
proof fn lemma_ends_one(t: Seq<char>)
    ensures
        ends_with(t, seq!['-']) <==> t.len() >= 1 && t[t.len() - 1] == '-',
{
    let n = t.len() as int;
    if n >= 1 {
        assert(t.skip(n - 1)[0] == t[n - 1]);
        if t[n - 1] == '-' {
            assert(t.skip(n - 1) =~= seq!['-']);
        }
    }
}

/// Ending with two dashes.
proof fn lemma_ends_two(t: Seq<char>)
    ensures
        ends_with(t, seq!['-', '-']) <==> t.len() >= 2 && t[t.len() - 1] == '-' && t[t.len() - 2]
            == '-',
{
    let n = t.len() as int;
    if n >= 2 {
        assert(t.skip(n - 2)[0] == t[n - 2]);
        assert(t.skip(n - 2)[1] == t[n - 1]);
        if t[n - 1] == '-' && t[n - 2] == '-' {
            assert(t.skip(n - 2) =~= seq!['-', '-']);
        }
    }
}

/// Ending with two dashes and an exclamation mark.
proof fn lemma_ends_three(t: Seq<char>)
    ensures
        ends_with(t, seq!['-', '-', '!']) <==> t.len() >= 3 && t[t.len() - 1] == '!' && t[t.len()
            - 2] == '-' && t[t.len() - 3] == '-',
{
    let n = t.len() as int;
    if n >= 3 {
        assert(t.skip(n - 3)[0] == t[n - 3]);
        assert(t.skip(n - 3)[1] == t[n - 2]);
        assert(t.skip(n - 3)[2] == t[n - 1]);
        if t[n - 1] == '!' && t[n - 2] == '-' && t[n - 3] == '-' {
            assert(t.skip(n - 3) =~= seq!['-', '-', '!']);
        }
    }
}

/// May `t` follow `<!--` without a `>` in it that ends the comment?
pub open spec fn stays_open(t: Seq<char>) -> bool {
    forall|i: int|
        0 <= i < t.len() ==> #[trigger] t[i] != '\r' && (t[i] == '>' ==> !closes(t.take(i)))
}

/// Reading text that does not end the comment.
proof fn lemma_comment_text(
    f: Flat,
    t: Seq<char>,
    k: int,
    rest: Seq<char>,
    answers: Seq<Option<State>>,
)
    requires
        0 <= k <= t.len(),
        in_comment(f, t.take(k), t.skip(k) + rest).wf(),
        f.m.between(),
        stays_open(t),
        may_answer(answers),
    ensures
        in_comment(f, t, rest).wf(),
        flat_run(in_comment(f, t.take(k), t.skip(k) + rest), answers) == flat_run(
            in_comment(f, t, rest),
            answers,
        ),
    decreases t.len() - k,
{
    if k == t.len() {
        assert(t.take(k) =~= t);
        assert(t.skip(k) + rest =~= rest);
    } else {
        let more = t.skip(k + 1) + rest;
        assert(t.skip(k) + rest =~= seq![t[k]] + more);
        assert(t.take(k).push(t[k]) =~= t.take(k + 1));
        lemma_comment_char(f, t.take(k), t[k], more, answers);
        lemma_comment_text(f, t, k + 1, rest, answers);
    }
}

/// Reading `<!`.
#[verifier::spinoff_prover]
#[verifier::rlimit(40)]
pub proof fn lemma_declaration_begins(f: Flat, rest: Seq<char>, answers: Seq<Option<State>>)
    requires
        f.wf(),
        f.m.between(),
        f.m.state == State::Data,
        may_answer(answers),
    ensures
        f.now(f.m.to(State::MarkupDeclarationOpen), rest).wf(),
        flat_run(f.now(f.m, seq!['<', '!'] + rest), answers) == flat_run(
            f.now(f.m.to(State::MarkupDeclarationOpen), rest),
            answers,
        ),
{
    broadcast use group_flat;

    let a = first_answer(answers);
    let t1 = seq!['!'] + rest;
    let f0 = f.now(f.m, seq!['<', '!'] + rest);
    let f1 = f.now(f.m.to(State::TagOpen), t1);
    let f2 = f.now(f.m.to(State::MarkupDeclarationOpen), rest);
    assert(on_char(f0.m, '<', a) == f0.m.to(State::TagOpen)) by {
        reveal(on_char);
    }
    assert(on_char(f1.m, '!', a) == f1.m.to(State::MarkupDeclarationOpen)) by {
        reveal(on_char);
    }
    assert(f0.rest.drop_first() =~= t1);
    lemma_read_on(f0, answers);
    assert(f.out + Seq::<SinkEvent>::empty() =~= f.out);
    assert(f0.then_with(f0.m.to(State::TagOpen), t1) =~= f1);
    assert(f1.rest.drop_first() =~= rest);
    lemma_read_on(f1, answers);
    assert(f1.then_with(f1.m.to(State::MarkupDeclarationOpen), rest) =~= f2);
}

/// Reading the two dashes after `<!`.
#[verifier::spinoff_prover]
#[verifier::rlimit(40)]
proof fn lemma_comment_begins(f: Flat, rest: Seq<char>, answers: Seq<Option<State>>)
    requires
        f.wf(),
        f.m.between(),
        f.m.state == State::Data,
        may_answer(answers),
    ensures
        in_comment(f, Seq::empty(), rest).wf(),
        flat_run(f.now(f.m, seq!['<', '!', '-', '-'] + rest), answers) == flat_run(
            in_comment(f, Seq::empty(), rest),
            answers,
        ),
{
    broadcast use group_flat;

    let a = first_answer(answers);
    let text = seq!['-', '-'] + rest;
    let f2 = f.now(f.m.to(State::MarkupDeclarationOpen), text);
    let f3 = in_comment(f, Seq::empty(), rest);
    assert(seq!['<', '!', '-', '-'] + rest =~= seq!['<', '!'] + text);
    lemma_declaration_begins(f, text, answers);
    assert(f.out + Seq::<SinkEvent>::empty() =~= f.out);
    assert(bad_chars(0) =~= Seq::<SinkEvent>::empty());
    assert(comment_text(Seq::empty()) =~= Seq::<char>::empty());
    assert(f2.advance(a) == (f2.then_with(f2.m.clear_comment().to(State::CommentStart), rest), true))
        by {
        reveal(Flat::advance);
        reveal_strlit("--");
        assert(f2.rest.take(2) =~= "--"@);
        assert(f2.rest.skip(2) =~= rest);
    }
    assert(f2.then_with(f2.m.clear_comment().to(State::CommentStart), rest) =~= f3);
    lemma_may_answer(answers);
    lemma_flat_step(f2, a, a);
    assert(!asked(f2.out, f3.out));
}

/// The rules for the `>` that ends a comment.
proof fn lemma_close_rule(m: Machine, a: Option<State>)
    requires
        m.between(),
        comment_inside(m.state),
        m.state != State::Comment && m.state != State::CommentEndDash,
    ensures
        on_char(m, '>', a) == (Machine {
            state: State::Data,
            comment: Seq::empty(),
            log: (if m.state == State::CommentStart || m.state == State::CommentStartDash {
                m.log.push(bad_char())
            } else {
                m.log
            }).push(SinkEvent::Token(TokenView::CommentToken(m.comment))),
            ..m
        }),
{
    reveal(on_char);
}

/// Reading the `>` that ends the comment.
#[verifier::spinoff_prover]
#[verifier::rlimit(40)]
proof fn lemma_comment_ends(f: Flat, t: Seq<char>, answers: Seq<Option<State>>)
    requires
        in_comment(f, t, seq!['>']).wf(),
        f.m.between(),
        closes(t),
        may_answer(answers),
    ensures
        flat_run(in_comment(f, t, seq!['>']), answers) == commented(f, t),
{
    broadcast use group_flat;

    let g = in_comment(f, t, seq!['>']);
    let none = Seq::<char>::empty();
    let a = first_answer(answers);
    lemma_ends_two(t);
    lemma_ends_three(t);
    lemma_close_rule(g.m, a);
    let m = on_char(g.m, '>', a);
    assert(g.m.log =~= Seq::<SinkEvent>::empty());
    lemma_read_on(g, answers);
    assert(g.rest.drop_first() =~= none);
    let h = g.then_with(m, none);
    assert(h.out =~= commented(f, t).out);
    assert(h =~= commented(f, t));
    lemma_stop(h, answers);
}

/// After a comment: nothing else has changed, and the comment has been emitted.
pub open spec fn commented(f: Flat, t: Seq<char>) -> Flat {
    Flat {
        m: Machine { state: State::Data, comment: Seq::empty(), ..f.m },
        out: f.out + bad_chars(
            comment_errors(t) + (if t.len() == 0 || t == seq!['-'] {
                1nat
            } else {
                0nat
            }),
        ) + seq![SinkEvent::Token(TokenView::CommentToken(comment_text(t)))],
        rest: Seq::empty(),
        ..f
    }
}

/// `<!--`, any text, and the first `>` after it that ends the comment become one comment,
/// whose text is what stands between, without the dashes and the exclamation mark at its
/// end. Each U+0000 is replaced and reported, each character after two dashes is reported,
/// and so is a comment that ends before it has properly begun. Nothing else is emitted,
/// and the machine is where it was before.
pub proof fn law_comments(cfg: Config, t: Seq<char>, answers: Seq<Option<State>>)
    requires
        cfg.idle(),
        cfg.m.state == State::Data,
        may_answer(answers),
        stays_open(t),
        closes(t),
    ensures
        cfg.fed(seq!['<', '!', '-', '-'] + t + seq!['>'], answers).flat() == commented(
            cfg.flat(),
            t,
        ),
{
    let f = cfg.flat();
    let text = seq!['<', '!', '-', '-'] + t + seq!['>'];
    lemma_begin(cfg, text, answers);
    assert(text =~= seq!['<', '!', '-', '-'] + (t + seq!['>']));
    assert(f.wf()) by {
        assert(f.now(f.m, text).wf());
    }
    lemma_comment_begins(f, t + seq!['>'], answers);
    assert(t.take(0) =~= Seq::<char>::empty());
    assert(t.skip(0) =~= t);
    lemma_comment_text(f, t, 0, seq!['>'], answers);
    lemma_comment_ends(f, t, answers);
}

/// What is commented out stays so: for every text `s` that has neither U+0000 nor a
/// carriage return nor two dashes in a row, that begins neither with `>` nor with `->`, and
/// that does not end with a dash, `<!--`, the text and `-->` become one comment with the
/// text `s`, and nothing else.
pub proof fn law_plain_comments(cfg: Config, s: Seq<char>, answers: Seq<Option<State>>)
    requires
        cfg.idle(),
        cfg.m.state == State::Data,
        may_answer(answers),
        forall|i: int| 0 <= i < s.len() ==> #[trigger] s[i] != '\0' && s[i] != '\r',
        forall|i: int| 0 < i < s.len() ==> !(#[trigger] s[i] == '-' && s[i - 1] == '-'),
        s.len() > 0 ==> s[0] != '>' && s.last() != '-',
        s.len() > 1 ==> !(s[0] == '-' && s[1] == '>'),
    ensures
        ({
            let f = cfg.flat();
            let post = cfg.fed(
                seq!['<', '!', '-', '-'] + s + seq!['-', '-', '>'],
                answers,
            ).flat();
            &&& post.out == f.out.push(SinkEvent::Token(TokenView::CommentToken(s)))
            &&& post.m == (Machine { comment: Seq::empty(), ..f.m })
            &&& post.rest.len() == 0
        }),
{
    let t = s + seq!['-', '-'];
    let n = s.len() as int;
    assert forall|i: int| 0 <= i < t.len() implies #[trigger] t[i] != '\r' && (t[i] == '>'
        ==> !closes(t.take(i))) by {
        if i < n {
            assert(t[i] == s[i]);
            let p = t.take(i);
            lemma_ends_two(p);
            lemma_ends_three(p);
            if i >= 2 {
                assert(p[i - 1] == s[i - 1] && p[i - 2] == s[i - 2]);
            }
            if i >= 3 {
                assert(p[i - 2] == s[i - 2] && p[i - 3] == s[i - 3]);
            }
            if p == seq!['-'] {
                assert(i == 1 && p[0] == s[0]);
            }
        }
    }
    lemma_ends_two(t);
    assert(t[n] == '-' && t[n + 1] == '-');
    assert(seq!['<', '!', '-', '-'] + s + seq!['-', '-', '>'] =~= seq!['<', '!', '-', '-'] + t
        + seq!['>']);
    law_comments(cfg, t, answers);
    assert(comment_text(t) =~= s);
    lemma_no_errors(s, n);
    assert(comment_errors(t) == 0) by {
        let u = s.push('-');
        assert(t.drop_last() =~= u);
        assert(u.drop_last() =~= s);
        assert(s.take(n) =~= s);
        lemma_ends_two(u);
        lemma_ends_two(s);
        if n > 0 {
            assert(u[n - 1] == s.last());
        }
        assert(comment_errors(s) == 0);
        assert(u.last() == '-' && t.last() == '-');
        assert(comment_errors(u) == 0);
    }
    let f = cfg.flat();
    assert(commented(f, t).out =~= f.out.push(SinkEvent::Token(TokenView::CommentToken(s))));
}

/// Text without U+0000 and without two dashes in a row has no errors.
proof fn lemma_no_errors(s: Seq<char>, k: int)
    requires
        0 <= k <= s.len(),
        forall|i: int| 0 <= i < s.len() ==> #[trigger] s[i] != '\0',
        forall|i: int| 0 < i < s.len() ==> !(#[trigger] s[i] == '-' && s[i - 1] == '-'),
    ensures
        comment_errors(s.take(k)) == 0,
    decreases k,
{
    if k > 0 {
        let u = s.take(k);
        assert(u.drop_last() =~= s.take(k - 1));
        lemma_no_errors(s, k - 1);
        lemma_ends_two(s.take(k - 1));
        if k >= 3 {
            assert(s.take(k - 1)[k - 2] == s[k - 2] && s.take(k - 1)[k - 3] == s[k - 3]);
        }
    }
}

} // verus!
