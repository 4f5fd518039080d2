//! What becomes of text that is written with mistakes.

use vstd::prelude::*;
use crate::tokenizer::chunks::{Flat, flat_run, lemma_flat_step, lemma_may_answer};
use crate::tokenizer::comments::{lemma_declaration_begins, shown, shown_char};
use crate::tokenizer::config::Config;
use crate::tokenizer::interface::{AttributeView, SinkEvent, TokenView, has_attr};
use crate::tokenizer::laws::may_answer;
use crate::tokenizer::machine::Machine;
use crate::tokenizer::raw_text::{in_doctype, is_error};
use crate::tokenizer::reading::{bad_char, group_flat, lemma_begin, lemma_read_on, lemma_stop};
use crate::tokenizer::rules::{
    Group, gap, group, on_attr_name, on_attr_value, on_char, on_comment, on_doctype, on_doctype_id,
    on_raw_end, on_script, on_tag, on_text,
};
use crate::tokenizer::run::first_answer;
use crate::tokenizer::states::{AttrValueKind, State};
use crate::tokenizer::upkeep::asked;
use crate::util::str::{is_letter, lower, lower_text};

verus! {

/// Is U+0000 an error of its own in this state? In the others, any character like it is one,
/// or is read once more in another state, or it does not matter what it is.
pub open spec fn reports_nul(s: State) -> bool {
    match s {
        State::Plaintext => true,
        State::CdataSection => true,
        State::RawData(_) => true,
        State::ScriptDataEscapedDash(_) => true,
        State::ScriptDataEscapedDashDash(_) => true,
        State::TagName => true,
        State::BeforeAttributeName => true,
        State::AttributeName => true,
        State::AfterAttributeName => true,
        State::BeforeAttributeValue => true,
        State::AttributeValue(_) => true,
        State::CommentStart => true,
        State::CommentStartDash => true,
        State::Comment => true,
        State::CommentEndDash => true,
        State::CommentEndBang => true,
        State::BeforeDoctypeName => true,
        State::DoctypeName => true,
        State::DoctypeIdentifierDoubleQuoted(_) => true,
        State::DoctypeIdentifierSingleQuoted(_) => true,
        _ => false,
    }
}

/// The machine after U+0000 has been reported, if that is an error of its own.
pub open spec fn reported(m: Machine) -> Machine {
    if reports_nul(m.state) {
        m.error()
    } else {
        m
    }
}

/// Is U+0000 read once more in `n` where a character is read once more in `r`, and is all
/// else the same?
pub open spec fn same_but_pending(n: Machine, r: Machine) -> bool {
    &&& n == (Machine { pending: n.pending, ..r })
    &&& n.pending is Some <==> r.pending is Some
    &&& n.pending is Some ==> n.pending == Some('\0')
}

/// U+0000 in text.
#[verifier::spinoff_prover]
proof fn lemma_nul_in_text(m: Machine, answer: Option<State>)
    requires
        m.state != State::Data,
        m.pending is None,
        group(m.state) == Group::Text || group(m.state) == Group::RawEnd || group(m.state) == Group::Script,
    ensures
        group(m.state) == Group::Text ==> same_but_pending(
            on_text(m, '\0'),
            on_text(reported(m), '\u{fffd}'),
        ),
        group(m.state) == Group::RawEnd ==> same_but_pending(
            on_raw_end(m, '\0', answer),
            on_raw_end(reported(m), '\u{fffd}', answer),
        ),
        group(m.state) == Group::Script ==> same_but_pending(
            on_script(m, '\0'),
            on_script(reported(m), '\u{fffd}'),
        ),
{
}

/// U+0000 in a tag.
#[verifier::spinoff_prover]
proof fn lemma_nul_in_tag(m: Machine, answer: Option<State>)
    requires
        m.state != State::Data,
        m.pending is None,
        group(m.state) == Group::Tag || group(m.state) == Group::AttrName || group(m.state) == Group::AttrValue,
    ensures
        group(m.state) == Group::Tag ==> same_but_pending(
            on_tag(m, '\0', answer),
            on_tag(reported(m), '\u{fffd}', answer),
        ),
        group(m.state) == Group::AttrName ==> same_but_pending(
            on_attr_name(m, '\0', answer),
            on_attr_name(reported(m), '\u{fffd}', answer),
        ),
        group(m.state) == Group::AttrValue ==> same_but_pending(
            on_attr_value(m, '\0', answer),
            on_attr_value(reported(m), '\u{fffd}', answer),
        ),
{
}

/// U+0000 in a comment.
#[verifier::spinoff_prover]
proof fn lemma_nul_in_comment(m: Machine, answer: Option<State>)
    requires
        m.state != State::Data,
        m.pending is None,
        group(m.state) == Group::Comment,
    ensures
        group(m.state) == Group::Comment ==> same_but_pending(
            on_comment(m, '\0'),
            on_comment(reported(m), '\u{fffd}'),
        ),
{
    reveal_strlit("-\u{fffd}");
    reveal_strlit("--\u{fffd}");
    reveal_strlit("--!\u{fffd}");
    reveal_strlit("--");
    reveal_strlit("--!");
    assert(on_comment(m, '\0').comment =~= on_comment(reported(m), '\u{fffd}').comment);
}

/// U+0000 in a doctype.
#[verifier::spinoff_prover]
proof fn lemma_nul_in_doctype(m: Machine, answer: Option<State>)
    requires
        m.state != State::Data,
        m.pending is None,
        group(m.state) == Group::Doctype || group(m.state) == Group::DoctypeId,
    ensures
        group(m.state) == Group::Doctype ==> same_but_pending(
            on_doctype(m, '\0'),
            on_doctype(reported(m), '\u{fffd}'),
        ),
        group(m.state) == Group::DoctypeId ==> same_but_pending(
            on_doctype_id(m, '\0'),
            on_doctype_id(reported(m), '\u{fffd}'),
        ),
{
}

/// Outside of ordinary text, U+0000 does what U+FFFD does, which takes its place. It is
/// reported before that, where it is an error of its own.
pub proof fn law_nul_is_replaced(m: Machine, answer: Option<State>)
    requires
        m.state != State::Data,
        m.pending is None,
    ensures
        same_but_pending(
            on_char(m, '\0', answer),
            on_char(reported(m), '\u{fffd}', answer),
        ),
{
    reveal(on_char);
    match group(m.state) {
        Group::Text => lemma_nul_in_text(m, answer),
        Group::RawEnd => lemma_nul_in_text(m, answer),
        Group::Script => lemma_nul_in_text(m, answer),
        Group::Comment => lemma_nul_in_comment(m, answer),
        Group::Doctype => lemma_nul_in_doctype(m, answer),
        Group::DoctypeId => lemma_nul_in_doctype(m, answer),
        _ => lemma_nul_in_tag(m, answer),
    }
}

/// The case of a letter does not matter in the names of tags, attributes and doctypes.
#[verifier::spinoff_prover]
#[verifier::rlimit(30)]
pub proof fn law_case_does_not_matter(m: Machine, c: char, answer: Option<State>)
    requires
        is_letter(c),
        m.state == State::TagOpen || m.state == State::EndTagOpen || m.state == State::TagName
            || m.state == State::BeforeAttributeName || m.state == State::AttributeName || m.state
            == State::AfterAttributeName || m.state == State::BeforeDoctypeName || m.state
            == State::DoctypeName,
    ensures
        on_char(m, c, answer) == on_char(m, lower(c), answer),
        on_char(m, c, answer).log.len() <= m.log.len() + 1,
{
    reveal(on_char);
}

/// May a doctype end in this state without a mistake, or with one that was dealt with?
pub open spec fn may_end(s: State) -> bool {
    match s {
        State::DoctypeName => true,
        State::AfterDoctypeName => true,
        State::AfterDoctypeIdentifier(_) => true,
        State::BetweenDoctypePublicAndSystemIdentifiers => true,
        State::BogusDoctype => true,
        _ => false,
    }
}

/// A `>` ends every doctype that has begun, even in the middle of an identifier. The doctype
/// has the name and the identifiers that were read of it. Where it is not complete, there is
/// an error, and it calls for quirks.
pub proof fn law_every_doctype_ends(m: Machine, answer: Option<State>)
    requires
        in_doctype(m.state) || m.state == State::BogusDoctype,
    ensures
        ({
            let n = on_char(m, '>', answer);
            let errors: int = if may_end(m.state) {
                0
            } else {
                1
            };
            &&& n.log.len() == m.log.len() + errors + 1
            &&& n.log.take(m.log.len() as int) == m.log
            &&& errors == 1 ==> is_error(n.log[m.log.len() as int])
            &&& n.log.last() matches SinkEvent::Token(TokenView::DoctypeToken(d)) && {
                &&& d.name == m.doctype.name
                &&& d.public_id == m.doctype.public_id
                &&& d.system_id == m.doctype.system_id
                &&& d.force_quirks == (m.doctype.force_quirks || !may_end(m.state))
            }
            &&& n.state == State::Data
        }),
{
    reveal(on_char);
    let n = on_char(m, '>', answer);
    assert(n.log.take(m.log.len() as int) =~= m.log);
}

/// Does `s` extend `t`, or set it where there is none?
pub open spec fn extends(s: Option<Seq<char>>, t: Option<Seq<char>>) -> bool {
    t matches Some(x) ==> s matches Some(y) && x.is_prefix_of(y)
}

/// While a doctype is read, nothing that was read of it changes but that it grows, but for
/// an identifier that begins. The doctype calls for quirks from the first mistake on after
/// which its rest is skipped, unless that comes after the system identifier. In the rest
/// that is skipped, nothing is read.
#[verifier::spinoff_prover]
#[verifier::rlimit(40)]
pub proof fn law_doctypes_grow(m: Machine, c: char, answer: Option<State>)
    requires
        in_doctype(m.state) || m.state == State::BogusDoctype,
        c != '>',
    ensures
        ({
            let n = on_char(m, c, answer);
            &&& in_doctype(n.state) || n.state == State::BogusDoctype
            &&& extends(n.doctype.name, m.doctype.name)
            &&& m.state != State::DoctypeName ==> n.doctype.name == m.doctype.name
            &&& m.doctype.force_quirks ==> n.doctype.force_quirks
            &&& n.state == State::BogusDoctype && m.state != State::BogusDoctype
                ==> n.log.len() == m.log.len() + 1 && is_error(n.log.last()) && (
            n.doctype.force_quirks || m.state is AfterDoctypeIdentifier)
            &&& n.state != State::BogusDoctype ==> n.doctype.force_quirks
                == m.doctype.force_quirks
            &&& m.state == State::BogusDoctype ==> n == m
            &&& n.log.len() > m.log.len() ==> n.log.len() == m.log.len() + 1 && is_error(
                n.log.last(),
            )
        }),
{
    reveal(on_char);
    let n = on_char(m, c, answer);
    if m.state == State::DoctypeName {
        if let Some(x) = m.doctype.name {
            let y = n.doctype.name->0;
            assert(y.len() >= x.len());
            assert(x =~= y.take(x.len() as int));
            assert(x.is_prefix_of(y));
        }
    } else {
        if let Some(x) = m.doctype.name {
            assert(x =~= x.take(x.len() as int));
            assert(x.is_prefix_of(x));
        }
    }
}

/// A character that looks like a mistake in the name of an attribute.
pub open spec fn odd_in_name(c: char) -> bool {
    c == '"' || c == '\'' || c == '<'
}

/// A character that looks like a mistake in an attribute value without quotes.
pub open spec fn odd_in_value(c: char) -> bool {
    c == '"' || c == '\'' || c == '<' || c == '=' || c == '`'
}

/// Has `new_log` one error more than `old_log`, if `bad`, and otherwise the same?
pub open spec fn errs(old_log: Seq<SinkEvent>, new_log: Seq<SinkEvent>, bad: bool) -> bool {
    if bad {
        &&& new_log.len() == old_log.len() + 1
        &&& new_log.drop_last() == old_log
        &&& is_error(new_log.last())
    } else {
        new_log == old_log
    }
}

/// What stands in the name of an attribute belongs to the name, a mistake or not, until white
/// space, `/`, `=` or `>` comes. Capitals become small letters. A mistake is reported.
pub proof fn law_odd_characters_in_names(m: Machine, c: char, answer: Option<State>)
    requires
        m.state == State::AttributeName,
        c != '\0' && !gap(c) && c != '/' && c != '=' && c != '>',
    ensures
        ({
            let n = on_char(m, c, answer);
            &&& n.attr_name == m.attr_name.push(lower(c))
            &&& errs(m.log, n.log, odd_in_name(c))
            &&& n == (Machine { attr_name: n.attr_name, log: n.log, ..m })
        }),
{
    reveal(on_char);
    let n = on_char(m, c, answer);
    if odd_in_name(c) {
        assert(n.log.drop_last() =~= m.log);
    }
}

/// After white space in a tag, such a character begins another attribute: the one before it is
/// complete, with its name and its value, unless its name has occurred before. An `=` that
/// comes first belongs to the name, and is reported.
pub proof fn law_odd_characters_begin_names(m: Machine, c: char, answer: Option<State>)
    requires
        m.state == State::BeforeAttributeName || m.state == State::AfterAttributeName && c != '=',
        c != '\0' && !gap(c) && c != '/' && c != '>',
        m.attr_name.len() > 0,
    ensures
        ({
            let n = on_char(m, c, answer);
            let again = has_attr(m.attrs, m.attr_name);
            &&& n.state == State::AttributeName
            &&& n.attr_name == seq![lower(c)]
            &&& n.attr_value.len() == 0
            &&& n.attrs == (if again {
                m.attrs
            } else {
                m.attrs.push(AttributeView { name: m.attr_name, value: m.attr_value })
            })
            &&& n.log.len() == m.log.len() + (if again {
                1int
            } else {
                0int
            }) + (if odd_in_name(c) || c == '=' {
                1int
            } else {
                0int
            })
            &&& n == (Machine {
                state: n.state,
                attr_name: n.attr_name,
                attr_value: n.attr_value,
                attrs: n.attrs,
                log: n.log,
                ..m
            })
        }),
{
    reveal(on_char);
    assert(Seq::<char>::empty().push(lower(c)) =~= seq![lower(c)]);
}

/// What stands in an attribute value belongs to the value, a mistake or not, until the quote
/// comes that ends it, or, without quotes, white space or `>`. The same holds of the character
/// that begins a value without quotes. A mistake is reported.
pub proof fn law_odd_characters_in_values(m: Machine, c: char, answer: Option<State>)
    requires
        c != '\0' && c != '&',
        match m.state {
            State::AttributeValue(AttrValueKind::DoubleQuoted) => c != '"',
            State::AttributeValue(AttrValueKind::SingleQuoted) => c != '\'',
            State::AttributeValue(AttrValueKind::Unquoted) => !gap(c) && c != '>',
            State::BeforeAttributeValue => !gap(c) && c != '>' && c != '"' && c != '\'',
            _ => false,
        },
    ensures
        ({
            let n = on_char(m, c, answer);
            let quoted = m.state == State::AttributeValue(AttrValueKind::DoubleQuoted) || m.state
                == State::AttributeValue(AttrValueKind::SingleQuoted);
            &&& n.attr_value == m.attr_value.push(c)
            &&& errs(m.log, n.log, !quoted && odd_in_value(c))
            &&& n.state == (if quoted {
                m.state
            } else {
                State::AttributeValue(AttrValueKind::Unquoted)
            })
            &&& n == (Machine { attr_value: n.attr_value, log: n.log, state: n.state, ..m })
        }),
{
    reveal(on_char);
    let n = on_char(m, c, answer);
    if n.log.len() > m.log.len() {
        assert(n.log.drop_last() =~= m.log);
    }
}

/// Where white space is missing after a quoted value, or something comes between `/` and `>`,
/// there is an error, and what comes is read as if white space came before it. The tag does
/// not close itself on account of such a `/`.
pub proof fn law_missing_white_space(m: Machine, c: char, answer: Option<State>)
    requires
        m.state == State::AfterAttributeValueQuoted && !gap(c) && c != '/' || m.state
            == State::SelfClosingStartTag,
        c != '>',
    ensures
        ({
            let n = on_char(m, c, answer);
            &&& errs(m.log, n.log, true)
            &&& n == (Machine {
                state: State::BeforeAttributeName,
                pending: Some(c),
                log: n.log,
                ..m
            })
        }),
{
    reveal(on_char);
    let n = on_char(m, c, answer);
    assert(n.log.drop_last() =~= m.log);
}

/// `</>` is an error, and nothing comes of it.
pub proof fn law_end_tag_without_a_name(m: Machine, answer: Option<State>)
    requires
        m.state == State::EndTagOpen,
    ensures
        ({
            let n = on_char(m, '>', answer);
            &&& errs(m.log, n.log, true)
            &&& n == (Machine { state: State::Data, log: n.log, ..m })
        }),
{
    reveal(on_char);
    let n = on_char(m, '>', answer);
    assert(n.log.drop_last() =~= m.log);
}

/// Markup that is a comment by mistake, and what the comment begins with: after `<?`, after
/// `</` and a character that begins no name, and after `<!` and what is neither a comment
/// nor a doctype.
pub open spec fn bogus_start(text: Seq<char>, s: Seq<char>) -> bool {
    ||| text == seq!['<'] + s && s.len() > 0 && s[0] == '?'
    ||| text == seq!['<', '/'] + s && s.len() > 0 && !is_letter(s[0])
    ||| text == seq!['<', '!'] + s && s.len() >= 6 && s.take(2) != seq!['-', '-'] && (s.len() >= 7
        ==> lower_text(s.take(7)) != "doctype"@)
}

/// Inside such a comment.
spec fn in_bogus(f: Flat, s: Seq<char>, rest: Seq<char>) -> Flat {
    f.now(Machine { state: State::BogusComment, comment: shown(s), ..f.m }, rest).told(
        seq![bad_char()],
    )
}

/// Reading the `k`th character of such a comment and those after it.
#[verifier::spinoff_prover]
#[verifier::rlimit(30)]
proof fn lemma_bogus_text(
    f: Flat,
    s: Seq<char>,
    k: int,
    rest: Seq<char>,
    answers: Seq<Option<State>>,
)
    requires
        0 <= k <= s.len(),
        in_bogus(f, s.take(k), s.skip(k) + rest).wf(),
        f.m.between(),
        forall|i: int| 0 <= i < s.len() ==> #[trigger] s[i] != '>' && s[i] != '\r',
        may_answer(answers),
    ensures
        in_bogus(f, s, rest).wf(),
        flat_run(in_bogus(f, s.take(k), s.skip(k) + rest), answers) == flat_run(
            in_bogus(f, s, rest),
            answers,
        ),
    decreases s.len() - k,
{
    broadcast use group_flat;

    if k == s.len() {
        assert(s.take(k) =~= s);
        assert(s.skip(k) + rest =~= rest);
    } else {
        let c = s[k];
        let more = s.skip(k + 1) + rest;
        let g = in_bogus(f, s.take(k), s.skip(k) + rest);
        let h = in_bogus(f, s.take(k + 1), more);
        assert(g.rest.drop_first() =~= more);
        let m = Machine { comment: g.m.comment.push(shown_char(c)), ..g.m };
        assert(on_char(g.m, c, first_answer(answers)) == m) by {
            reveal(on_char);
        }
        assert(g.m.log =~= Seq::<SinkEvent>::empty());
        assert(g.out + Seq::<SinkEvent>::empty() =~= g.out);
        lemma_read_on(g, answers);
        assert(m.comment =~= h.m.comment);
        assert(g.then_with(m, more) =~= h);
        lemma_bogus_text(f, s, k + 1, rest, answers);
    }
}

/// Reading `<`, and then `?` or `/` and a character that begins no name.
#[verifier::spinoff_prover]
#[verifier::rlimit(40)]
proof fn lemma_bogus_begins(
    f: Flat,
    slash: bool,
    c: char,
    rest: Seq<char>,
    answers: Seq<Option<State>>,
)
    requires
        f.wf(),
        f.m.between(),
        f.m.state == State::Data,
        c != '\r' && c != '>',
        slash ==> !is_letter(c),
        !slash ==> c == '?',
        may_answer(answers),
    ensures
        ({
            let text = (if slash {
                seq!['<', '/']
            } else {
                seq!['<']
            }) + (seq![c] + rest);
            &&& in_bogus(f, seq![c], rest).wf()
            &&& flat_run(f.now(f.m, text), answers) == flat_run(
                in_bogus(f, seq![c], rest),
                answers,
            )
        }),
{
    broadcast use group_flat;

    let a = first_answer(answers);
    let t2 = seq![c] + rest;
    let t1 = if slash {
        seq!['/'] + t2
    } else {
        t2
    };
    let text = (if slash {
        seq!['<', '/']
    } else {
        seq!['<']
    }) + (seq![c] + rest);
    let s2 = if slash {
        State::EndTagOpen
    } else {
        State::TagOpen
    };
    let f0 = f.now(f.m, text);
    let f1 = f.now(f.m.to(State::TagOpen), t1);
    let f2 = f.now(f.m.to(s2), t2);
    assert(f.out + Seq::<SinkEvent>::empty() =~= f.out);
    assert(f.m.log =~= Seq::<SinkEvent>::empty());
    assert(on_char(f0.m, '<', a) == f0.m.to(State::TagOpen)) by {
        reveal(on_char);
    }
    assert(f0.rest.drop_first() =~= t1);
    lemma_read_on(f0, answers);
    assert(f0.then_with(f0.m.to(State::TagOpen), t1) =~= f1);
    if slash {
        assert(on_char(f1.m, '/', a) == f1.m.to(s2)) by {
            reveal(on_char);
        }
        assert(f1.rest.drop_first() =~= t2);
        lemma_read_on(f1, answers);
        assert(f1.then_with(f1.m.to(s2), t2) =~= f2);
    }
    let m = f2.m.error().clear_comment().push_comment(shown_char(c)).to(State::BogusComment);
    assert(on_char(f2.m, c, a) == m) by {
        reveal(on_char);
    }
    assert(f2.rest.drop_first() =~= rest);
    lemma_read_on(f2, answers);
    let h = in_bogus(f, seq![c], rest);
    assert(m.comment =~= shown(seq![c]));
    assert(f2.then_with(m, rest).out =~= h.out);
    assert(f2.then_with(m, rest).m =~= h.m);
}

/// Reading `<!` before what is neither a comment nor a doctype.
#[verifier::spinoff_prover]
#[verifier::rlimit(40)]
proof fn lemma_bogus_declaration(f: Flat, rest: Seq<char>, answers: Seq<Option<State>>)
    requires
        f.wf(),
        f.m.between(),
        f.m.state == State::Data,
        f.m.comment.len() == 0,
        rest.len() >= 7,
        rest.take(2) != seq!['-', '-'],
        lower_text(rest.take(7)) != "doctype"@,
        may_answer(answers),
    ensures
        in_bogus(f, Seq::empty(), rest).wf(),
        flat_run(f.now(f.m, seq!['<', '!'] + rest), answers) == flat_run(
            in_bogus(f, Seq::empty(), rest),
            answers,
        ),
{
    broadcast use group_flat;

    let a = first_answer(answers);
    let g = f.now(f.m.to(State::MarkupDeclarationOpen), rest);
    let h = in_bogus(f, Seq::empty(), rest);
    lemma_declaration_begins(f, rest, answers);
    assert(g.m.log =~= Seq::<SinkEvent>::empty());
    let m = g.m.error().to(State::BogusComment);
    assert(g.advance(a) == (g.then_with(m, rest), true)) by {
        reveal(Flat::advance);
        reveal_strlit("--");
        reveal_strlit("doctype");
        assert("--"@ =~= seq!['-', '-']);
        assert(lower_text("doctype"@) =~= "doctype"@);
    }
    assert(shown(Seq::empty()) =~= Seq::<char>::empty());
    assert(f.m.comment =~= Seq::<char>::empty());
    assert(g.then_with(m, rest).out =~= h.out);
    assert(g.then_with(m, rest).m =~= h.m);
    lemma_may_answer(answers);
    lemma_flat_step(g, a, a);
    assert(!asked(g.out, h.out));
}

/// Reading the `>` at the end.
#[verifier::spinoff_prover]
#[verifier::rlimit(30)]
proof fn lemma_bogus_ends(f: Flat, s: Seq<char>, answers: Seq<Option<State>>)
    requires
        in_bogus(f, s, seq!['>']).wf(),
        f.m.between(),
        f.m.state == State::Data,
        may_answer(answers),
    ensures
        flat_run(in_bogus(f, s, seq!['>']), answers) == f.now(
            Machine { comment: Seq::empty(), ..f.m },
            Seq::empty(),
        ).told(seq![bad_char(), SinkEvent::Token(TokenView::CommentToken(shown(s)))]),
{
    broadcast use group_flat;

    let a = first_answer(answers);
    let g = in_bogus(f, s, seq!['>']);
    let none = Seq::<char>::empty();
    let m = g.m.emit_comment().to(State::Data);
    assert(on_char(g.m, '>', a) == m) by {
        reveal(on_char);
    }
    assert(g.m.log =~= Seq::<SinkEvent>::empty());
    assert(g.rest.drop_first() =~= none);
    lemma_read_on(g, answers);
    let h = g.then_with(m, none);
    let goal = f.now(Machine { comment: none, ..f.m }, none).told(
        seq![bad_char(), SinkEvent::Token(TokenView::CommentToken(shown(s)))],
    );
    assert(h.out =~= goal.out);
    assert(h.m =~= goal.m);
    lemma_stop(h, answers);
}

/// Markup that begins like a declaration or an instruction, or like an end tag without a
/// name, becomes a comment, which goes as far as the first `>`. There is an error, and
/// nothing else.
#[verifier::spinoff_prover]
#[verifier::rlimit(30)]
pub proof fn law_bogus_comments(
    cfg: Config,
    text: Seq<char>,
    s: Seq<char>,
    answers: Seq<Option<State>>,
)
    requires
        cfg.idle(),
        cfg.m.state == State::Data,
        cfg.m.comment.len() == 0,
        bogus_start(text, s),
        forall|i: int| 0 <= i < s.len() ==> #[trigger] s[i] != '>' && s[i] != '\r',
        may_answer(answers),
    ensures
        ({
            let f = cfg.flat();
            let post = cfg.fed(text + seq!['>'], answers).flat();
            &&& post.out == f.out + seq![
                bad_char(),
                SinkEvent::Token(TokenView::CommentToken(shown(s))),
            ]
            &&& post.m == f.m
            &&& post.rest.len() == 0
        }),
{
    let f = cfg.flat();
    let whole = text + seq!['>'];
    assert(whole[0] == '<');
    lemma_begin(cfg, whole, answers);
    assert(f.wf()) by {
        assert(f.now(f.m, whole).wf());
    }
    assert(f.m.comment =~= Seq::<char>::empty());
    let k: int = if text == seq!['<', '!'] + s {
        0
    } else {
        1
    };
    let end = seq!['>'];
    if text == seq!['<', '!'] + s {
        assert(text[1] == '!' && text.len() == s.len() + 2);
        let rest = s + end;
        assert(whole =~= seq!['<', '!'] + rest);
        assert(rest.take(2) =~= s.take(2));
        if s.len() >= 7 {
            assert(rest.take(7) =~= s.take(7));
        } else {
            reveal_strlit("doctype");
            assert(lower_text(rest.take(7))[6] == '>');
        }
        lemma_bogus_declaration(f, rest, answers);
        assert(s.take(0) =~= Seq::<char>::empty());
        assert(s.skip(0) =~= s);
    } else {
        let slash = text == seq!['<', '/'] + s;
        let more = s.skip(1) + end;
        if slash {
            assert(whole =~= seq!['<', '/'] + (seq![s[0]] + more));
            if text == seq!['<'] + s {
                assert(text.len() == s.len() + 1);
            }
        } else {
            assert(whole =~= seq!['<'] + (seq![s[0]] + more));
        }
        lemma_bogus_begins(f, slash, s[0], more, answers);
        assert(s.take(1) =~= seq![s[0]]);
    }
    lemma_bogus_text(f, s, k, end, answers);
    lemma_bogus_ends(f, s, answers);
}

} // verus!
