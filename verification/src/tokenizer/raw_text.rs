//! Text comes out as it went in: what is read as text is emitted, character for character,
//! or is held until it is known that it is text.

use vstd::prelude::*;
use crate::tokenizer::comments::shown;
use crate::tokenizer::interface::{SinkEvent, TokenView};
use crate::tokenizer::machine::Machine;
use crate::tokenizer::rules::{gap, on_char, on_eof};
use crate::tokenizer::states::{RawKind, ScriptEscapeKind, State};
use crate::util::str::{is_letter, lower};

verus! {

/// The text of an event.
pub open spec fn event_text(e: SinkEvent) -> Seq<char> {
    match e {
        SinkEvent::Token(TokenView::CharacterTokens(s)) => s,
        SinkEvent::Token(TokenView::NullCharacterToken) => seq!['\0'],
        _ => Seq::empty(),
    }
}

/// All text that has been emitted.
pub open spec fn log_text(log: Seq<SinkEvent>) -> Seq<char>
    decreases log.len(),
{
    if log.len() == 0 {
        Seq::empty()
    } else {
        log_text(log.drop_last()) + event_text(log.last())
    }
}

/// The text of a log with an event added.
pub broadcast proof fn lemma_log_text(log: Seq<SinkEvent>, e: SinkEvent)
    ensures
        #[trigger] log_text(log.push(e)) == log_text(log) + event_text(e),
{
    assert(log.push(e).drop_last() =~= log);
}

/// Is the event text, or the report of an error?
pub open spec fn is_text_or_error(e: SinkEvent) -> bool {
    match e {
        SinkEvent::Token(TokenView::CharacterTokens(_)) => true,
        SinkEvent::Token(TokenView::NullCharacterToken) => true,
        SinkEvent::Token(TokenView::ParseError(_)) => true,
        _ => false,
    }
}

/// Is `new_log` the log `old_log` with nothing but text and errors added?
pub open spec fn adds_text(old_log: Seq<SinkEvent>, new_log: Seq<SinkEvent>) -> bool {
    &&& old_log.len() <= new_log.len()
    &&& forall|i: int| 0 <= i < old_log.len() ==> #[trigger] new_log[i] == old_log[i]
    &&& forall|i: int|
        old_log.len() <= i < new_log.len() ==> is_text_or_error(#[trigger] new_log[i])
}

/// Has only what may turn out to be text been read since the text that was emitted last?
pub open spec fn in_text(s: State) -> bool {
    match s {
        State::Data => true,
        State::Plaintext => true,
        State::CdataSection => true,
        State::TagOpen => true,
        State::RawData(_) => true,
        State::RawLessThanSign(_) => true,
        State::RawEndTagOpen(_) => true,
        State::RawEndTagName(_) => true,
        State::ScriptDataEscapeStart(_) => true,
        State::ScriptDataEscapeStartDash => true,
        State::ScriptDataEscapedDash(_) => true,
        State::ScriptDataEscapedDashDash(_) => true,
        State::ScriptDataDoubleEscapeEnd => true,
        _ => false,
    }
}

/// What has been read in such a state and not been emitted yet, since it may turn out to be
/// a tag.
pub open spec fn held(m: Machine) -> Seq<char> {
    (match m.state {
        State::TagOpen => seq!['<'],
        State::RawLessThanSign(RawKind::ScriptDataEscaped(ScriptEscapeKind::DoubleEscaped)) =>
            Seq::empty(),
        State::RawLessThanSign(_) => seq!['<'],
        State::RawEndTagOpen(_) => seq!['<', '/'],
        State::RawEndTagName(_) => seq!['<', '/'] + m.temp_buf,
        _ => Seq::empty(),
    }) + (match m.pending {
        Some(c) => seq![c],
        None => Seq::empty(),
    })
}

/// Does `c` make markup out of what was held, or begin a reference?
pub open spec fn leaves_text(m: Machine, c: char) -> bool {
    match m.state {
        State::Data => c == '&',
        State::RawData(RawKind::Rcdata) => c == '&',
        State::TagOpen => c == '!' || c == '/' || c == '?' || is_letter(c),
        State::RawEndTagName(_) => m.appropriate_end_tag() && (gap(c) || c == '/' || c == '>'),
        _ => false,
    }
}

/// No text gets lost, and none gets in: with every character, in text of every kind, what
/// has been emitted and what is held grow by that character. U+0000 may be replaced. Nothing
/// but text and errors is emitted, and errors only for U+0000 and for a `<` that begins no
/// tag.
#[verifier::spinoff_prover]
#[verifier::rlimit(40)]
pub proof fn law_no_text_gets_lost(m: Machine, c: char, answer: Option<State>)
    requires
        in_text(m.state),
        m.pending is None,
        m.state is RawEndTagOpen ==> m.temp_buf.len() == 0,
        !leaves_text(m, c),
    ensures
        ({
            let n = on_char(m, c, answer);
            &&& in_text(n.state)
            &&& n.state is RawEndTagOpen ==> n.temp_buf.len() == 0
            &&& adds_text(m.log, n.log)
            &&& shown(log_text(n.log) + held(n)) == shown(log_text(m.log) + held(m) + seq![c])
            &&& n.char_ref == m.char_ref
            &&& c != '\0' && m.state != State::TagOpen ==> (forall|i: int|
                m.log.len() <= i < n.log.len() ==> event_text(#[trigger] n.log[i]).len() > 0
                    || m.state is RawEndTagName)
        }),
{
    broadcast use lemma_log_text;

    let n = on_char(m, c, answer);
    let t = log_text(m.log);
    reveal(on_char);
    assert(shown(log_text(n.log) + held(n)) =~= shown(t + held(m) + seq![c]));
}

/// Where the input ends in text, what was held is emitted as text. Nothing else is emitted
/// but errors and the end of the file.
#[verifier::spinoff_prover]
#[verifier::rlimit(40)]
pub proof fn law_held_text_is_emitted_at_the_end(m: Machine)
    requires
        in_text(m.state),
        m.pending is None,
    ensures
        ({
            let (n, more) = on_eof(m);
            &&& log_text(n.log) == log_text(m.log) + held(m)
            &&& held(n).len() == 0
            &&& in_text(n.state)
            &&& more ==> adds_text(m.log, n.log)
            &&& !more ==> n == m.emit_eof()
        }),
{
    broadcast use lemma_log_text;

    reveal(on_eof);
    let (n, more) = on_eof(m);
    assert(log_text(n.log) =~= log_text(m.log) + held(m));
}

/// How deep in comments script text is: not in one, in one, or in a script in one. Nothing
/// for what is no script text. A comment that may just be beginning does not count, nor does
/// a script.
pub open spec fn depth(s: State) -> Option<nat> {
    match s {
        State::RawData(RawKind::ScriptData) => Some(0),
        State::RawLessThanSign(RawKind::ScriptData) => Some(0),
        State::RawEndTagOpen(RawKind::ScriptData) => Some(0),
        State::RawEndTagName(RawKind::ScriptData) => Some(0),
        State::ScriptDataEscapeStart(ScriptEscapeKind::Escaped) => Some(0),
        State::ScriptDataEscapeStartDash => Some(0),
        State::RawData(RawKind::ScriptDataEscaped(kind)) => Some(depth_of(kind)),
        State::RawLessThanSign(RawKind::ScriptDataEscaped(kind)) => Some(depth_of(kind)),
        State::RawEndTagOpen(RawKind::ScriptDataEscaped(kind)) => Some(depth_of(kind)),
        State::RawEndTagName(RawKind::ScriptDataEscaped(kind)) => Some(depth_of(kind)),
        State::ScriptDataEscapedDash(kind) => Some(depth_of(kind)),
        State::ScriptDataEscapedDashDash(kind) => Some(depth_of(kind)),
        State::ScriptDataEscapeStart(ScriptEscapeKind::DoubleEscaped) => Some(1),
        State::ScriptDataDoubleEscapeEnd => Some(2),
        _ => None,
    }
}

/// The depth of escaped script text.
pub open spec fn depth_of(kind: ScriptEscapeKind) -> nat {
    match kind {
        ScriptEscapeKind::Escaped => 1,
        ScriptEscapeKind::DoubleEscaped => 2,
    }
}

/// Does `c` end a name in script text?
pub open spec fn ends_name(c: char) -> bool {
    gap(c) || c == '/' || c == '>'
}

/// When the depth of script text changes, and only then: a second dash after `<!-` leads into
/// a comment, `>` after two dashes leads out, the name `script` after `<` leads in deeper
/// where a comment has begun, and after `</` leads back. A tag can end the script only where
/// it is not in a script in a comment, and only the right end tag does.
#[verifier::spinoff_prover]
#[verifier::rlimit(40)]
pub proof fn law_depth_of_scripts(m: Machine, c: char, answer: Option<State>)
    requires
        depth(m.state) is Some,
        !(m.state is RawEndTagOpen && depth(m.state) == Some(2nat)),
        !(m.state is RawEndTagName && depth(m.state) == Some(2nat)),
    ensures
        ({
            let n = on_char(m, c, answer);
            let d = depth(m.state)->0;
            let dashes = m.state is ScriptDataEscapedDashDash;
            let script = m.temp_buf == "script"@ && ends_name(c);
            &&& !(n.state is RawEndTagOpen && depth(n.state) == Some(2nat))
            &&& !(n.state is RawEndTagName && depth(n.state) == Some(2nat))
            &&& depth(n.state) is None <==> m.state is RawEndTagName && m.appropriate_end_tag()
                && ends_name(c)
            &&& depth(n.state) is None ==> d < 2
            &&& depth(n.state) matches Some(e) ==> e == (if m.state
                == State::ScriptDataEscapeStartDash && c == '-' {
                1nat
            } else if dashes && c == '>' {
                0nat
            } else if m.state == State::ScriptDataEscapeStart(ScriptEscapeKind::DoubleEscaped)
                && script {
                2nat
            } else if m.state == State::ScriptDataDoubleEscapeEnd && script {
                1nat
            } else {
                d
            })
        }),
{
    reveal(on_char);
}

/// How many dashes in a row come before the next character, inside a comment in script text.
/// More than two count as two.
pub open spec fn dashes_before(s: State) -> Option<nat> {
    match s {
        State::RawData(RawKind::ScriptDataEscaped(_)) => Some(0),
        State::ScriptDataEscapedDash(_) => Some(1),
        State::ScriptDataEscapedDashDash(_) => Some(2),
        _ => None,
    }
}

/// The dashes in script text are counted, so that `-->` is found. Any other character begins
/// the count anew.
pub proof fn law_dashes_in_scripts_are_counted(m: Machine, c: char, answer: Option<State>)
    requires
        dashes_before(m.state) is Some,
        c != '<',
    ensures
        ({
            let n = on_char(m, c, answer);
            let k = dashes_before(m.state)->0;
            &&& c == '-' && k < 2 ==> dashes_before(n.state) == Some(k + 1)
            &&& c == '-' && k == 2 ==> dashes_before(n.state) == Some(2nat)
            &&& c == '>' && k == 2 ==> n.state == State::RawData(RawKind::ScriptData)
            &&& c != '-' && !(c == '>' && k == 2) ==> dashes_before(n.state) == Some(0nat)
        }),
{
    reveal(on_char);
}

/// The name after `<` or `</` in a comment in script text is remembered in small letters,
/// beginning with its first letter.
pub proof fn law_names_in_scripts_are_remembered(m: Machine, c: char, answer: Option<State>)
    requires
        is_letter(c),
        m.state == State::RawLessThanSign(RawKind::ScriptDataEscaped(ScriptEscapeKind::Escaped))
            || m.state == State::ScriptDataEscapeStart(ScriptEscapeKind::DoubleEscaped) || m.state
            == State::ScriptDataDoubleEscapeEnd,
    ensures
        ({
            let n = on_char(m, c, answer);
            let before = if m.state is RawLessThanSign {
                Seq::empty()
            } else {
                m.temp_buf
            };
            &&& n.temp_buf == before.push(lower(c))
            &&& m.state is RawLessThanSign ==> n.state == State::ScriptDataEscapeStart(
                ScriptEscapeKind::DoubleEscaped,
            )
            &&& !(m.state is RawLessThanSign) ==> n.state == m.state
        }),
{
    reveal(on_char);
}

/// Is the machine inside a tag?
pub open spec fn in_tag(s: State) -> bool {
    match s {
        State::TagName => true,
        State::BeforeAttributeName => true,
        State::AttributeName => true,
        State::AfterAttributeName => true,
        State::BeforeAttributeValue => true,
        State::AttributeValue(_) => true,
        State::AfterAttributeValueQuoted => true,
        State::SelfClosingStartTag => true,
        _ => false,
    }
}

/// Is the machine inside a comment?
pub open spec fn in_comment(s: State) -> bool {
    match s {
        State::CommentStart => true,
        State::CommentStartDash => true,
        State::Comment => true,
        State::CommentEndDash => true,
        State::CommentEnd => true,
        State::CommentEndBang => true,
        State::BogusComment => true,
        _ => false,
    }
}

/// Is the machine inside a doctype, after its name has begun?
pub open spec fn in_doctype(s: State) -> bool {
    match s {
        State::DoctypeName => true,
        State::AfterDoctypeName => true,
        State::AfterDoctypeKeyword(_) => true,
        State::BeforeDoctypeIdentifier(_) => true,
        State::DoctypeIdentifierDoubleQuoted(_) => true,
        State::DoctypeIdentifierSingleQuoted(_) => true,
        State::AfterDoctypeIdentifier(_) => true,
        State::BetweenDoctypePublicAndSystemIdentifiers => true,
        _ => false,
    }
}

/// Is `e` the report of an error?
pub open spec fn is_error(e: SinkEvent) -> bool {
    e is Token && e->Token_0 is ParseError
}

/// A tag that is not complete when the input ends is dropped: there is an error, and no tag.
pub proof fn law_the_end_drops_a_tag(m: Machine)
    requires
        in_tag(m.state),
    ensures
        ({
            let n = on_eof(m).0;
            &&& n.log.len() == m.log.len() + 1
            &&& n.log.drop_last() == m.log
            &&& is_error(n.log.last())
            &&& n.state == State::Data
        }),
{
    reveal(on_eof);
    let n = on_eof(m).0;
    assert(n.log.drop_last() =~= m.log);
}

/// A comment that is not complete when the input ends is emitted with the text that was read
/// of it. There is an error, unless any end would have done.
pub proof fn law_the_end_completes_a_comment(m: Machine)
    requires
        in_comment(m.state),
    ensures
        ({
            let n = on_eof(m).0;
            &&& n.log.len() == m.log.len() + (if m.state == State::BogusComment {
                1int
            } else {
                2int
            })
            &&& n.log.take(m.log.len() as int) == m.log
            &&& m.state != State::BogusComment ==> is_error(n.log[m.log.len() as int])
            &&& n.log.last() == SinkEvent::Token(TokenView::CommentToken(m.comment))
            &&& n.state == State::Data
        }),
{
    reveal(on_eof);
    let n = on_eof(m).0;
    assert(n.log.take(m.log.len() as int) =~= m.log);
}

/// A doctype that is not complete when the input ends is emitted with what was read of it.
/// There is an error, and the doctype calls for quirks. One that is wrong already has called
/// for them, if it does. One whose name has not begun has nothing.
pub proof fn law_the_end_completes_a_doctype(m: Machine)
    requires
        in_doctype(m.state) || m.state == State::BogusDoctype || m.state == State::Doctype
            || m.state == State::BeforeDoctypeName,
    ensures
        ({
            let n = on_eof(m).0;
            let begun = in_doctype(m.state) || m.state == State::BogusDoctype;
            &&& n.log.len() == m.log.len() + (if m.state == State::BogusDoctype {
                1int
            } else {
                2int
            })
            &&& n.log.take(m.log.len() as int) == m.log
            &&& m.state != State::BogusDoctype ==> is_error(n.log[m.log.len() as int])
            &&& n.log.last() matches SinkEvent::Token(TokenView::DoctypeToken(d)) && {
                &&& begun ==> d.name == m.doctype.name && d.public_id == m.doctype.public_id
                    && d.system_id == m.doctype.system_id
                &&& !begun ==> d.name is None && d.public_id is None && d.system_id is None
                &&& d.force_quirks == (m.doctype.force_quirks || m.state != State::BogusDoctype)
            }
            &&& n.state == State::Data
        }),
{
    reveal(on_eof);
    let n = on_eof(m).0;
    assert(n.log.take(m.log.len() as int) =~= m.log);
}

} // verus!
