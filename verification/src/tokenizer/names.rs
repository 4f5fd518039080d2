//! What the names of tags and attributes look like, and the text between tags.

use vstd::prelude::*;
use crate::tokenizer::TokenizerOpts;
use crate::tokenizer::buffer_queue::{
    SetResultView, joined, lemma_joined_drop, lemma_joined_first, lemma_outside_len, outside_len,
};
use crate::tokenizer::char_ref::{CharRefView, cr_eof, cr_step};
use crate::tokenizer::chunks::{Piece, lemma_may_answer};
use crate::tokenizer::config::{Config, initial};
use crate::tokenizer::interface::{AttributeView, SinkEvent, TokenView};
use crate::tokenizer::laws::{law_fed_tokens_are_sound, lemma_run, may_answer, sound_from};
use crate::tokenizer::machine::Machine;
use crate::tokenizer::rules::{
    Group, ends_tags, group, on_attr_name, on_attr_value, on_char, on_comment, on_doctype,
    on_doctype_id, on_eof, on_raw_end, on_run, on_script, on_tag, on_text, run_stops, takes_runs,
};
use crate::tokenizer::run::{
    first_answer, lemma_advance, lemma_at_end, lemma_eof_step, lemma_given, lemma_lookahead,
    lemma_read, lemma_read_run, lemma_step, log_kept, more_answers, run, run_eof,
};
use crate::tokenizer::states::State;
use crate::tokenizer::upkeep::{asked, eof_rank, sound_token};
use crate::util::str::is_upper;

verus! {

/// Are there no ASCII capitals in the text?
pub open spec fn no_capitals(s: Seq<char>) -> bool {
    forall|i: int| 0 <= i < s.len() ==> !is_upper(#[trigger] s[i])
}

/// Is this a name as tags and attributes have them: not empty, and without capitals?
pub open spec fn good_name(s: Seq<char>) -> bool {
    s.len() > 0 && no_capitals(s)
}

/// Do all attributes of the list have good names?
pub open spec fn good_attrs(attrs: Seq<AttributeView>) -> bool {
    forall|i: int| 0 <= i < attrs.len() ==> good_name((#[trigger] attrs[i]).name)
}

/// Is the event neat? A tag has a good name, and so have its attributes. If `plain`, no
/// carriage return occurs among characters.
pub open spec fn neat_event(e: SinkEvent, plain: bool) -> bool {
    match e {
        SinkEvent::Token(TokenView::TagToken(tag)) => good_name(tag.name) && good_attrs(tag.attrs),
        SinkEvent::Token(TokenView::CharacterTokens(s)) => plain ==> !s.contains('\r'),
        _ => true,
    }
}

/// Are the events of the log from the position `from` on neat?
pub open spec fn neat_from(log: Seq<SinkEvent>, from: int, plain: bool) -> bool {
    &&& 0 <= from <= log.len()
    &&& forall|i: int| from <= i < log.len() ==> neat_event(#[trigger] log[i], plain)
}

/// Is no character of the text an ampersand?
pub open spec fn no_ampersand(s: Seq<char>) -> bool {
    forall|i: int| 0 <= i < s.len() ==> #[trigger] s[i] != '&'
}

/// Is a tag being read in this state?
pub open spec fn in_tag(s: State) -> bool {
    ends_tags(s) || s is AttributeValue || s is RawEndTagName
}

/// Is this an answer that does not lead into a tag that was never begun?
pub open spec fn calm(answer: Option<State>) -> bool {
    answer matches Some(s) ==> !in_tag(s)
}

/// Are all answers of this kind?
pub open spec fn all_calm(answers: Seq<Option<State>>) -> bool {
    forall|i: int| 0 <= i < answers.len() ==> calm(#[trigger] answers[i])
}

impl Machine {
    /// The names that are being read are good as far as they go, and what has been sent
    /// since the log had the length `from` is neat. If `plain`, there is no ampersand in
    /// sight.
    pub open spec fn neat(self, plain: bool, from: int) -> bool {
        &&& neat_from(self.log, from, plain)
        &&& in_tag(self.state) ==> self.tag_name.len() > 0
        &&& no_capitals(self.tag_name)
        &&& good_attrs(self.attrs)
        &&& no_capitals(self.attr_name)
        &&& self.pending != Some('\r')
        &&& plain ==> self.char_ref is None && self.pending != Some('&')
    }
}

impl Config {
    /// The machine is neat, and if `plain`, there is no ampersand in the input.
    pub open spec fn neat(self, plain: bool, from: int) -> bool {
        &&& self.m.neat(plain, from)
        &&& plain ==> no_ampersand(joined(self.input))
    }
}

#[verifier::spinoff_prover]
#[verifier::rlimit(50)]
proof fn lemma_neat_on_text(m: Machine, c: char, plain: bool, from: int)
    requires
        m.wf(),
        m.neat(plain, from),
        c != '\r',
        plain ==> c != '&',
        group(m.state) == Group::Text,
    ensures
        on_text(m, c).neat(plain, from),
{
}

#[verifier::spinoff_prover]
#[verifier::rlimit(50)]
proof fn lemma_neat_on_tag(m: Machine, c: char, a: Option<State>, plain: bool, from: int)
    requires
        m.wf(),
        m.neat(plain, from),
        c != '\r',
        plain ==> c != '&',
        calm(a),
        group(m.state) == Group::Tag,
    ensures
        on_tag(m, c, a).neat(plain, from),
{
}

#[verifier::spinoff_prover]
#[verifier::rlimit(50)]
proof fn lemma_neat_on_raw_end(m: Machine, c: char, a: Option<State>, plain: bool, from: int)
    requires
        m.wf(),
        m.neat(plain, from),
        c != '\r',
        plain ==> c != '&',
        calm(a),
        group(m.state) == Group::RawEnd,
    ensures
        on_raw_end(m, c, a).neat(plain, from),
{
}

#[verifier::spinoff_prover]
#[verifier::rlimit(50)]
proof fn lemma_neat_on_script(m: Machine, c: char, plain: bool, from: int)
    requires
        m.wf(),
        m.neat(plain, from),
        c != '\r',
        plain ==> c != '&',
        group(m.state) == Group::Script,
    ensures
        on_script(m, c).neat(plain, from),
{
}

#[verifier::spinoff_prover]
#[verifier::rlimit(50)]
proof fn lemma_neat_on_attr_name(m: Machine, c: char, a: Option<State>, plain: bool, from: int)
    requires
        m.wf(),
        m.neat(plain, from),
        c != '\r',
        plain ==> c != '&',
        calm(a),
        group(m.state) == Group::AttrName,
    ensures
        on_attr_name(m, c, a).neat(plain, from),
{
}

#[verifier::spinoff_prover]
#[verifier::rlimit(50)]
proof fn lemma_neat_on_attr_value(m: Machine, c: char, a: Option<State>, plain: bool, from: int)
    requires
        m.wf(),
        m.neat(plain, from),
        c != '\r',
        plain ==> c != '&',
        calm(a),
        group(m.state) == Group::AttrValue,
    ensures
        on_attr_value(m, c, a).neat(plain, from),
{
}

#[verifier::spinoff_prover]
#[verifier::rlimit(50)]
proof fn lemma_neat_on_comment(m: Machine, c: char, plain: bool, from: int)
    requires
        m.wf(),
        m.neat(plain, from),
        c != '\r',
        plain ==> c != '&',
        group(m.state) == Group::Comment,
    ensures
        on_comment(m, c).neat(plain, from),
{
}

#[verifier::spinoff_prover]
#[verifier::rlimit(50)]
proof fn lemma_neat_on_doctype(m: Machine, c: char, plain: bool, from: int)
    requires
        m.wf(),
        m.neat(plain, from),
        c != '\r',
        plain ==> c != '&',
        group(m.state) == Group::Doctype,
    ensures
        on_doctype(m, c).neat(plain, from),
{
}

#[verifier::spinoff_prover]
#[verifier::rlimit(50)]
proof fn lemma_neat_on_doctype_id(m: Machine, c: char, plain: bool, from: int)
    requires
        m.wf(),
        m.neat(plain, from),
        c != '\r',
        plain ==> c != '&',
        group(m.state) == Group::DoctypeId,
    ensures
        on_doctype_id(m, c).neat(plain, from),
{
}

/// Every rule keeps the machine neat.
proof fn lemma_neat_on_char(m: Machine, c: char, a: Option<State>, plain: bool, from: int)
    requires
        m.wf(),
        m.neat(plain, from),
        c != '\r',
        plain ==> c != '&',
        calm(a),
    ensures
        on_char(m, c, a).neat(plain, from),
{
    reveal(on_char);
    match group(m.state) {
        Group::Text => lemma_neat_on_text(m, c, plain, from),
        Group::Tag => lemma_neat_on_tag(m, c, a, plain, from),
        Group::RawEnd => lemma_neat_on_raw_end(m, c, a, plain, from),
        Group::Script => lemma_neat_on_script(m, c, plain, from),
        Group::AttrName => lemma_neat_on_attr_name(m, c, a, plain, from),
        Group::AttrValue => lemma_neat_on_attr_value(m, c, a, plain, from),
        Group::Comment => lemma_neat_on_comment(m, c, plain, from),
        Group::Doctype => lemma_neat_on_doctype(m, c, plain, from),
        Group::DoctypeId => lemma_neat_on_doctype_id(m, c, plain, from),
    }
}

/// So does the end of the input.
#[verifier::spinoff_prover]
#[verifier::rlimit(50)]
proof fn lemma_neat_on_eof(m: Machine, plain: bool, from: int)
    requires
        m.wf(),
        m.neat(plain, from),
    ensures
        on_eof(m).0.neat(plain, from),
{
    reveal(on_eof);
}

/// So does a look at the input inside a character reference.
#[verifier::spinoff_prover]
#[verifier::rlimit(50)]
proof fn lemma_neat_cr_step(t: CharRefView, m: Machine, c: char, from: int)
    requires
        m.neat(false, from),
    ensures
        cr_step(t, m, c).m.neat(false, from),
{
}

/// So does the end of the input inside a character reference.
#[verifier::spinoff_prover]
#[verifier::rlimit(50)]
proof fn lemma_neat_cr_eof(t: CharRefView, m: Machine, from: int)
    requires
        m.neat(false, from),
    ensures
        cr_eof(t, m).m.neat(false, from),
{
}

/// Reading a character keeps the configuration neat, and the character is none that
/// could spoil it.
proof fn lemma_neat_read(cfg: Config, plain: bool, from: int)
    requires
        cfg.wf(),
        cfg.neat(plain, from),
    ensures
        cfg.read().1.neat(plain, from),
        cfg.read().0 matches Some(c) ==> c != '\r' && (plain ==> c != '&'),
{
    lemma_joined_first(cfg.input);
    if cfg.input.len() > 0 {
        lemma_joined_first(cfg.skip_one().input);
        let all = joined(cfg.input);
        assert(plain ==> all[0] != '&');
        assert(plain && all.len() > 1 ==> all[1] != '&');
    }
}

/// So does reading a character or a run.
proof fn lemma_neat_read_run(cfg: Config, set: Set<char>, plain: bool, from: int)
    requires
        cfg.wf(),
        cfg.neat(plain, from),
        set.contains('\r'),
    ensures
        cfg.read_run(set).1.neat(plain, from),
        cfg.read_run(set).0 matches Some(SetResultView::FromSet(c)) ==> c != '\r' && (plain ==> c
            != '&'),
        cfg.read_run(set).0 matches Some(SetResultView::NotFromSet(s)) ==> !s.contains('\r'),
{
    lemma_neat_read(cfg, plain, from);
    if !(cfg.m.exact || cfg.m.pending is Some || cfg.m.ignore_lf) && cfg.input.len() > 0 {
        let n = outside_len(cfg.input[0], set);
        lemma_outside_len(cfg.input[0], set);
        lemma_joined_drop(cfg.input, n as int);
    }
}

/// Reading on after the name of a doctype.
proof fn lemma_neat_after_doctype_name(cfg: Config, a: Option<State>, plain: bool, from: int)
    requires
        cfg.wf(),
        cfg.neat(plain, from),
        calm(a),
        cfg.m.char_ref is None,
        cfg.wait_for is None,
        cfg.m.state == State::AfterDoctypeName,
    ensures
        cfg.step_after_doctype_name(a).0.neat(plain, from),
{
    reveal_strlit("public");
    reveal_strlit("system");
    lemma_lookahead(cfg, "public"@, true);
    let (r, mid) = cfg.lookahead("public"@, true);
    if r == Some(false) {
        lemma_lookahead(mid, "system"@, true);
        let (r, mid) = mid.lookahead("system"@, true);
        if r == Some(false) {
            lemma_neat_step_char(mid, a, plain, from);
        }
    }
}

/// Reading on after `<!`.
proof fn lemma_neat_markup_declaration_open(cfg: Config, plain: bool, from: int)
    requires
        cfg.wf(),
        cfg.neat(plain, from),
        cfg.m.state == State::MarkupDeclarationOpen,
    ensures
        cfg.step_markup_declaration_open().0.neat(plain, from),
{
    lemma_lookahead(cfg, "--"@, false);
    let (r, mid) = cfg.lookahead("--"@, false);
    if r == Some(false) {
        lemma_lookahead(mid, "doctype"@, true);
    }
}

/// Reading one character.
proof fn lemma_neat_step_char(cfg: Config, a: Option<State>, plain: bool, from: int)
    requires
        cfg.wf(),
        cfg.neat(plain, from),
        calm(a),
        cfg.m.char_ref is None,
        cfg.wait_for is None,
    ensures
        cfg.step_char(a).0.neat(plain, from),
{
    lemma_read(cfg, a);
    lemma_neat_read(cfg, plain, from);
    let (c, mid) = cfg.read();
    if let Some(c) = c {
        lemma_neat_on_char(mid.m, c, a, plain, from);
    }
}

/// Reading one character or one run.
proof fn lemma_neat_step_run(cfg: Config, a: Option<State>, plain: bool, from: int)
    requires
        cfg.wf(),
        cfg.neat(plain, from),
        calm(a),
        cfg.m.char_ref is None,
        cfg.wait_for is None,
        takes_runs(cfg.m.state),
    ensures
        cfg.step_run(a).0.neat(plain, from),
{
    let set = run_stops(cfg.m.state);
    lemma_read_run(cfg, set, a);
    lemma_neat_read_run(cfg, set, plain, from);
    if let (Some(SetResultView::FromSet(c)), mid) = cfg.read_run(set) {
        lemma_neat_on_char(mid.m, c, a, plain, from);
    }
}

/// Reading on inside a character reference.
proof fn lemma_neat_char_ref(cfg: Config, from: int)
    requires
        cfg.wf(),
        cfg.neat(false, from),
        cfg.m.char_ref is Some,
    ensures
        cfg.step_char_ref().0.neat(false, from),
{
    if cfg.input.len() > 0 {
        lemma_neat_cr_step(cfg.m.char_ref->0, cfg.without_char_ref(), cfg.input[0][0], from);
    }
}

/// Reading on keeps the configuration neat.
proof fn lemma_neat_advance(cfg: Config, a: Option<State>, plain: bool, from: int)
    requires
        cfg.wf(),
        cfg.neat(plain, from),
        calm(a),
    ensures
        cfg.advance(a).0.neat(plain, from),
{
    reveal(Config::advance);
    if cfg.m.char_ref is Some {
        lemma_neat_char_ref(cfg, from);
    } else if !cfg.stuck() {
        let c = Config { wait_for: None, ..cfg };
        match c.m.state {
            State::AfterDoctypeName => lemma_neat_after_doctype_name(c, a, plain, from),
            State::MarkupDeclarationOpen => lemma_neat_markup_declaration_open(c, plain, from),
            s => if takes_runs(s) {
                lemma_neat_step_run(c, a, plain, from);
            } else {
                lemma_neat_step_char(c, a, plain, from);
            },
        }
    }
}

/// A step keeps the configuration neat.
proof fn lemma_neat_step(cfg: Config, a: Option<State>, plain: bool, from: int)
    requires
        cfg.wf(),
        cfg.neat(plain, from),
        calm(a),
    ensures
        cfg.step(a).0.neat(plain, from),
    decreases cfg.total(), cfg.in_char_ref(), joined(cfg.input).len(), cfg.rank(),
{
    let (next, go) = cfg.advance(a);
    lemma_advance(cfg, a, a);
    lemma_neat_advance(cfg, a, plain, from);
    if go && cfg.stays(next) {
        lemma_neat_step(next, a, plain, from);
    }
}

/// Running keeps the configuration neat.
proof fn lemma_neat_run(cfg: Config, answers: Seq<Option<State>>, plain: bool, from: int)
    requires
        cfg.wf(),
        cfg.neat(plain, from),
        may_answer(answers),
        all_calm(answers),
    ensures
        run(cfg, answers).neat(plain, from),
    decreases cfg.total(), cfg.in_char_ref(), joined(cfg.input).len(), cfg.rank(),
{
    let a = first_answer(answers);
    let (next, go) = cfg.step(a);
    lemma_step(cfg, a, a);
    lemma_neat_step(cfg, a, plain, from);
    lemma_may_answer(answers);
    if go {
        if asked(cfg.m.log, next.m.log) {
            let rest = more_answers(answers);
            assert forall|i: int| 0 <= i < rest.len() implies calm(#[trigger] rest[i]) by {
                if answers.len() > 0 {
                    assert(rest[i] == answers[i + 1]);
                }
            }
            lemma_neat_run(next, rest, plain, from);
        } else {
            lemma_neat_run(next, answers, plain, from);
        }
    }
}

/// What the end of the input does, as long as there is something to do.
proof fn lemma_neat_run_eof(m: Machine, plain: bool, from: int)
    requires
        m.wf(),
        m.settled(),
        m.neat(plain, from),
    ensures
        run_eof(m).neat(plain, from),
    decreases eof_rank(m.state),
{
    lemma_eof_step(m);
    lemma_neat_on_eof(m, plain, from);
    if on_eof(m).1 {
        lemma_neat_run_eof(on_eof(m).0, plain, from);
    }
}

/// Feeding keeps a configuration neat. Every tag that is emitted has a name that is not
/// empty and has no capitals, and so have its attributes. If there is no ampersand in the
/// input, no carriage return is emitted.
pub proof fn law_feeding_keeps_names_neat(
    cfg: Config,
    s: Seq<char>,
    answers: Seq<Option<State>>,
    plain: bool,
    from: int,
)
    requires
        cfg.wf(),
        cfg.neat(plain, from),
        may_answer(answers),
        all_calm(answers),
        plain ==> no_ampersand(s),
    ensures
        cfg.fed(s, answers).neat(plain, from),
{
    if s.len() > 0 {
        lemma_given(cfg, s);
        lemma_neat_run(cfg.given(s), answers, plain, from);
    }
}

/// The end of the input keeps a configuration neat.
pub proof fn law_the_end_keeps_names_neat(
    cfg: Config,
    answers: Seq<Option<State>>,
    plain: bool,
    from: int,
)
    requires
        cfg.wf(),
        cfg.neat(plain, from),
        may_answer(answers),
        all_calm(answers),
    ensures
        cfg.ended(answers).neat(plain, from),
{
    lemma_at_end(cfg);
    if cfg.m.char_ref is Some {
        lemma_neat_cr_eof(cfg.m.char_ref->0, cfg.without_char_ref(), from);
    }
    lemma_neat_run(cfg.at_end(), answers, plain, from);
    lemma_run(cfg.at_end(), answers);
    lemma_neat_run_eof(run(cfg.at_end(), answers).m, plain, from);
}

/// A new tokenizer that begins outside of tags is neat.
#[verifier::spinoff_prover]
#[verifier::rlimit(40)]
pub proof fn law_a_new_tokenizer_is_neat(opts: TokenizerOpts, log: Seq<SinkEvent>)
    requires
        opts.initial_state matches Some(s) ==> !in_tag(s),
    ensures
        initial(opts, log).neat(true, log.len() as int),
        initial(opts, log).neat(false, log.len() as int),
{
}

/// Is there no ampersand in any of the pieces?
pub open spec fn plain_pieces(pieces: Seq<Piece>) -> bool {
    forall|i: int| 0 <= i < pieces.len() ==> no_ampersand((#[trigger] pieces[i]).text)
}

/// Whatever is fed to a new tokenizer that begins outside of tags, in whatever pieces:
/// every tag that is emitted has a name that is not empty and has no capitals, and so have
/// its attributes, whose names all differ. No U+0000 is emitted among characters, and no
/// carriage return either, if there is no ampersand in the input. The sink must not answer
/// with a state inside of a tag.
#[verifier::spinoff_prover]
#[verifier::rlimit(40)]
pub proof fn law_names_and_text(opts: TokenizerOpts, log: Seq<SinkEvent>, pieces: Seq<Piece>)
    requires
        opts.initial_state matches Some(s) ==> !in_tag(s) && s != State::CdataSection,
        forall|i: int|
            0 <= i < pieces.len() ==> may_answer((#[trigger] pieces[i]).answers) && all_calm(
                pieces[i].answers,
            ),
    ensures
        ({
            let cfg = initial(opts, log).fed_all(pieces);
            &&& cfg.wf()
            &&& cfg.neat(plain_pieces(pieces), log.len() as int)
            &&& sound_from(cfg.m.log, log.len() as int)
            &&& log_kept(log, cfg.m.log)
        }),
    decreases pieces.len(),
{
    let cfg0 = initial(opts, log);
    if pieces.len() == 0 {
        assert(joined(cfg0.input) =~= Seq::<char>::empty());
    } else {
        let init = pieces.drop_last();
        let mid = cfg0.fed_all(init);
        let piece = pieces.last();
        let plain = plain_pieces(pieces);
        let from = log.len() as int;
        assert forall|i: int| 0 <= i < init.len() implies may_answer((#[trigger] init[i]).answers)
            && all_calm(init[i].answers) by {
            assert(init[i] == pieces[i]);
        }
        law_names_and_text(opts, log, init);
        assert(pieces[pieces.len() - 1] == piece);
        if plain {
            assert forall|i: int| 0 <= i < init.len() implies no_ampersand(
                (#[trigger] init[i]).text,
            ) by {
                assert(init[i] == pieces[i]);
            }
        }
        lemma_neat_weakened(mid, plain_pieces(init), plain, from);
        law_feeding_keeps_names_neat(mid, piece.text, piece.answers, plain, from);
        law_fed_tokens_are_sound(mid, piece.text, piece.answers);
        let post = mid.fed(piece.text, piece.answers).m.log;
        assert forall|i: int| from <= i < post.len() implies match #[trigger] post[i] {
            SinkEvent::Token(t) => sound_token(t) && t != TokenView::EOFToken,
            SinkEvent::Asked(_) => true,
        } by {
            if i < mid.m.log.len() {
                assert(post[i] == mid.m.log[i]);
            }
        }
    }
}

/// What is neat without ampersands is neat.
proof fn lemma_neat_weakened(cfg: Config, strong: bool, weak: bool, from: int)
    requires
        cfg.neat(strong, from),
        weak ==> strong,
    ensures
        cfg.neat(weak, from),
{
}

} // verus!
