//! What every rule of the abstract machine keeps, and what it sends to the sink.

use vstd::prelude::*;
use crate::tokenizer::interface::{SinkEvent, TokenView, distinct_attrs};
use crate::tokenizer::machine::Machine;
use crate::tokenizer::rules::{
    Group, ends_tags, group, on_attr_name, on_attr_value, on_char, on_comment, on_doctype, on_doctype_id,
    on_eof, on_raw_end, on_run, on_script, on_tag, on_text,
};
use crate::tokenizer::states::{RawKind, State};

verus! {

/// What holds of every token: U+0000 does not occur among characters, and the
/// attributes of a tag have names that all differ.
pub open spec fn sound_token(t: TokenView) -> bool {
    match t {
        TokenView::CharacterTokens(s) => !s.contains('\0'),
        TokenView::TagToken(tag) => distinct_attrs(tag.attrs),
        _ => true,
    }
}

/// Can the log grow from `pre` to `post` in one step in which the sink, if asked,
/// answers `answer`? It grows by sound tokens, and by at most one question, which
/// comes last. The end of the file is not among the tokens.
pub open spec fn grows(pre: Seq<SinkEvent>, post: Seq<SinkEvent>, answer: Option<State>) -> bool {
    &&& pre.len() <= post.len()
    &&& forall|i: int| 0 <= i < pre.len() ==> #[trigger] post[i] == pre[i]
    &&& forall|i: int|
        pre.len() <= i < post.len() ==> match #[trigger] post[i] {
            SinkEvent::Token(t) => sound_token(t) && t != TokenView::EOFToken,
            SinkEvent::Asked(a) => i == post.len() - 1 && a == answer,
        }
}

/// Did a step in which the log grew from `pre` to `post` end with a question to the
/// sink?
pub open spec fn asked(pre: Seq<SinkEvent>, post: Seq<SinkEvent>) -> bool {
    post.len() > pre.len() && post.last() is Asked
}

/// Can this state hand a character on to another one without consuming it?
pub open spec fn hands_on(s: State) -> bool {
    match s {
        State::TagOpen => true,
        State::RawLessThanSign(_) => true,
        State::RawEndTagOpen(_) => true,
        State::RawEndTagName(_) => true,
        State::ScriptDataEscapeStart(_) => true,
        State::ScriptDataEscapeStartDash => true,
        State::ScriptDataDoubleEscapeEnd => true,
        State::BeforeAttributeValue => true,
        State::AfterAttributeValueQuoted => true,
        State::SelfClosingStartTag => true,
        State::Doctype => true,
        State::MarkupDeclarationOpen => true,
        _ => false,
    }
}

/// What holds of the machines before and after one rule.
pub open spec fn follows(m: Machine, m2: Machine, answer: Option<State>) -> bool {
    &&& answer != Some(State::CdataSection) ==> m2.state != State::CdataSection
    &&& m2.state != State::CdataSection ==> m2.wf()
    &&& m2.settled()
    &&& grows(m.log, m2.log, answer)
    &&& m2.exact == m.exact
    &&& m2.entities == m.entities
    &&& m2.pending is Some ==> hands_on(m.state) && !hands_on(m2.state) && m2.char_ref is None
    &&& m2.char_ref matches Some(t) ==> t.held().len() == 0
    &&& m2.char_ref_fits()
}

/// Is the machine about to do what the character `c` does?
pub open spec fn reads(m: Machine, c: char) -> bool {
    &&& m.wf()
    &&& m.pending is None
    &&& m.char_ref is None
    &&& m.exact ==> m.seen == c
    &&& m.ignore_lf ==> c == '\n'
}

#[verifier::spinoff_prover]
#[verifier::rlimit(50)]
proof fn lemma_on_text(m: Machine, c: char, a: Option<State>, b: Option<State>)
    requires
        reads(m, c),
        group(m.state) == Group::Text,
    ensures
        follows(m, on_text(m, c), a),
        !asked(m.log, on_text(m, c).log),
{
}

#[verifier::spinoff_prover]
#[verifier::rlimit(50)]
proof fn lemma_on_tag(m: Machine, c: char, a: Option<State>, b: Option<State>)
    requires
        reads(m, c),
        group(m.state) == Group::Tag,
    ensures
        follows(m, on_tag(m, c, a), a),
        asked(m.log, on_tag(m, c, a).log) == asked(m.log, on_tag(m, c, b).log),
        !asked(m.log, on_tag(m, c, a).log) ==> on_tag(m, c, a) == on_tag(m, c, b),
{
}

#[verifier::spinoff_prover]
#[verifier::rlimit(50)]
proof fn lemma_on_raw_end(m: Machine, c: char, a: Option<State>, b: Option<State>)
    requires
        reads(m, c),
        group(m.state) == Group::RawEnd,
    ensures
        follows(m, on_raw_end(m, c, a), a),
        asked(m.log, on_raw_end(m, c, a).log) == asked(m.log, on_raw_end(m, c, b).log),
        !asked(m.log, on_raw_end(m, c, a).log) ==> on_raw_end(m, c, a) == on_raw_end(m, c, b),
{
}

#[verifier::spinoff_prover]
#[verifier::rlimit(50)]
proof fn lemma_on_script(m: Machine, c: char, a: Option<State>, b: Option<State>)
    requires
        reads(m, c),
        group(m.state) == Group::Script,
    ensures
        follows(m, on_script(m, c), a),
        !asked(m.log, on_script(m, c).log),
{
}

#[verifier::spinoff_prover]
#[verifier::rlimit(50)]
proof fn lemma_on_attr_name(m: Machine, c: char, a: Option<State>, b: Option<State>)
    requires
        reads(m, c),
        group(m.state) == Group::AttrName,
    ensures
        follows(m, on_attr_name(m, c, a), a),
        asked(m.log, on_attr_name(m, c, a).log) == asked(m.log, on_attr_name(m, c, b).log),
        !asked(m.log, on_attr_name(m, c, a).log) ==> on_attr_name(m, c, a) == on_attr_name(m, c, b),
{
}

#[verifier::spinoff_prover]
#[verifier::rlimit(50)]
proof fn lemma_on_attr_value(m: Machine, c: char, a: Option<State>, b: Option<State>)
    requires
        reads(m, c),
        group(m.state) == Group::AttrValue,
    ensures
        follows(m, on_attr_value(m, c, a), a),
        asked(m.log, on_attr_value(m, c, a).log) == asked(m.log, on_attr_value(m, c, b).log),
        !asked(m.log, on_attr_value(m, c, a).log) ==> on_attr_value(m, c, a) == on_attr_value(m, c, b),
{
}

#[verifier::spinoff_prover]
#[verifier::rlimit(50)]
proof fn lemma_on_comment(m: Machine, c: char, a: Option<State>, b: Option<State>)
    requires
        reads(m, c),
        group(m.state) == Group::Comment,
    ensures
        follows(m, on_comment(m, c), a),
        !asked(m.log, on_comment(m, c).log),
{
}

#[verifier::spinoff_prover]
#[verifier::rlimit(50)]
proof fn lemma_on_doctype(m: Machine, c: char, a: Option<State>, b: Option<State>)
    requires
        reads(m, c),
        group(m.state) == Group::Doctype,
    ensures
        follows(m, on_doctype(m, c), a),
        !asked(m.log, on_doctype(m, c).log),
{
}

#[verifier::spinoff_prover]
#[verifier::rlimit(50)]
proof fn lemma_on_doctype_id(m: Machine, c: char, a: Option<State>, b: Option<State>)
    requires
        reads(m, c),
        group(m.state) == Group::DoctypeId,
    ensures
        follows(m, on_doctype_id(m, c), a),
        !asked(m.log, on_doctype_id(m, c).log),
{
}

/// One rule keeps the invariant and lets the log grow, and the answer of the sink
/// matters only if it is asked.
pub proof fn lemma_on_char(m: Machine, c: char, a: Option<State>, b: Option<State>)
    requires
        reads(m, c),
    ensures
        follows(m, on_char(m, c, a), a),
        asked(m.log, on_char(m, c, a).log) == asked(m.log, on_char(m, c, b).log),
        !asked(m.log, on_char(m, c, a).log) ==> on_char(m, c, a) == on_char(m, c, b),
{
    reveal(on_char);
    match group(m.state) {
        Group::Text => lemma_on_text(m, c, a, b),
        Group::Tag => lemma_on_tag(m, c, a, b),
        Group::RawEnd => lemma_on_raw_end(m, c, a, b),
        Group::Script => lemma_on_script(m, c, a, b),
        Group::AttrName => lemma_on_attr_name(m, c, a, b),
        Group::AttrValue => lemma_on_attr_value(m, c, a, b),
        Group::Comment => lemma_on_comment(m, c, a, b),
        Group::Doctype => lemma_on_doctype(m, c, a, b),
        Group::DoctypeId => lemma_on_doctype_id(m, c, a, b),
    }
}

/// The sink is asked only where a `>` ends a tag, and where a `>` does, the machine stays
/// in its state only if the sink asks for that.
#[verifier::spinoff_prover]
#[verifier::rlimit(50)]
pub proof fn lemma_asks(m: Machine, c: char, a: Option<State>)
    ensures
        asked(m.log, on_char(m, c, a).log) ==> c == '>' && ends_tags(m.state),
        c == '>' && ends_tags(m.state) && on_char(m, c, a).state == m.state ==> asked(
            m.log,
            on_char(m, c, a).log,
        ),
{
    reveal(on_char);
}

/// The log grows from `l0` over `l1` to `l2`, without a question up to `l1`.
pub proof fn lemma_grows_on(
    l0: Seq<SinkEvent>,
    l1: Seq<SinkEvent>,
    l2: Seq<SinkEvent>,
    a: Option<State>,
)
    requires
        grows(l0, l1, a),
        !asked(l0, l1),
        grows(l1, l2, a),
    ensures
        grows(l0, l2, a),
        asked(l0, l2) == asked(l1, l2),
{
    assert forall|i: int| l0.len() <= i < l2.len() implies match #[trigger] l2[i] {
        SinkEvent::Token(t) => sound_token(t) && t != TokenView::EOFToken,
        SinkEvent::Asked(b) => i == l2.len() - 1 && b == a,
    } by {
        if i < l1.len() {
            assert(l2[i] == l1[i]);
        }
    }
    if l2.len() == l1.len() && l2.len() > 0 {
        assert(l2.last() == l1.last());
    }
}

/// What a run of characters does keeps the invariant.
pub proof fn lemma_on_run(m: Machine, s: Seq<char>, a: Option<State>)
    requires
        m.wf(),
        m.settled(),
        m.pending is None,
        m.char_ref is None,
        !s.contains('\0'),
    ensures
        follows(m, on_run(m, s), a),
        !asked(m.log, on_run(m, s).log),
{
}

/// How many steps the end of the input can still take.
pub open spec fn eof_rank(s: State) -> nat {
    match s {
        State::Data => 0,
        State::Plaintext => 0,
        State::RawData(RawKind::ScriptDataEscaped(_)) => 1,
        State::RawData(_) => 0,
        State::RawLessThanSign(_) => 2,
        State::RawEndTagOpen(_) => 2,
        State::RawEndTagName(_) => 2,
        State::ScriptDataEscapeStart(_) => 2,
        State::ScriptDataDoubleEscapeEnd => 2,
        State::MarkupDeclarationOpen => 2,
        _ => 1,
    }
}

/// What the end of the input does keeps the invariant, and comes to an end.
#[verifier::spinoff_prover]
#[verifier::rlimit(50)]
pub proof fn lemma_on_eof(m: Machine, a: Option<State>)
    requires
        m.wf(),
        m.settled(),
    ensures
        on_eof(m).0.wf(),
        on_eof(m).0.settled(),
        !asked(m.log, on_eof(m).0.log),
        on_eof(m).1 ==> grows(m.log, on_eof(m).0.log, a) && eof_rank(on_eof(m).0.state)
            < eof_rank(m.state),
        !on_eof(m).1 ==> on_eof(m).0 == m.emit_eof(),
{
    reveal(on_eof);
}

} // verus!
