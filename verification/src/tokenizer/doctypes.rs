//! Which text becomes which doctype.

use vstd::prelude::*;
use crate::tokenizer::chunks::{Flat, flat_run, lemma_flat_step, lemma_may_answer};
use crate::tokenizer::comments::lemma_declaration_begins;
use crate::tokenizer::config::Config;
use crate::tokenizer::interface::{DoctypeView, SinkEvent, TokenView, empty_doctype};
use crate::tokenizer::laws::may_answer;
use crate::tokenizer::machine::Machine;
use crate::tokenizer::reading::{
    group_flat, lemma_begin, lemma_read_on, lemma_silent, lemma_stop,
};
use crate::tokenizer::rules::{gap, on_char};
use crate::tokenizer::run::first_answer;
use crate::tokenizer::states::{DoctypeIdKind, State};
use crate::tokenizer::tags::blank;
use crate::tokenizer::upkeep::asked;
use crate::util::str::{lower, lower_text};

verus! {

/// An identifier, as it is written in a doctype: white space, and the identifier between
/// quotes of one kind.
pub struct IdText {
    pub gap: Seq<char>,
    pub quote: char,
    pub id: Seq<char>,
}

/// What is written after the name of a doctype.
pub enum IdsText {
    Nothing,
    /// White space, `PUBLIC` with letters of any case, the public identifier, and the system
    /// identifier, if there is one.
    Public(Seq<char>, Seq<char>, IdText, Option<IdText>),
    /// White space, `SYSTEM` with letters of any case, and the system identifier.
    System(Seq<char>, Seq<char>, IdText),
}

/// A doctype, as it is written: `<!`, `DOCTYPE` with letters of any case, white space, the
/// name, the identifiers, white space, and `>`.
pub struct DoctypeText {
    pub word: Seq<char>,
    pub gap: Seq<char>,
    pub name: Seq<char>,
    pub ids: IdsText,
    pub end: Seq<char>,
}

impl IdText {
    pub open spec fn source(self) -> Seq<char> {
        self.gap + (seq![self.quote] + (self.id + seq![self.quote]))
    }

    /// Is the identifier written without mistakes?
    pub open spec fn fits(self) -> bool {
        &&& self.gap.len() > 0
        &&& blank(self.gap)
        &&& self.quote == '"' || self.quote == '\''
        &&& forall|i: int|
            0 <= i < self.id.len() ==> #[trigger] self.id[i] != self.quote && self.id[i] != '>'
                && self.id[i] != '\0' && self.id[i] != '\r'
    }
}

impl IdsText {
    pub open spec fn source(self) -> Seq<char> {
        match self {
            IdsText::Nothing => Seq::empty(),
            IdsText::Public(g, word, p, None) => g + (word + p.source()),
            IdsText::Public(g, word, p, Some(s)) => g + (word + (p.source() + s.source())),
            IdsText::System(g, word, s) => g + (word + s.source()),
        }
    }

    pub open spec fn fits(self) -> bool {
        match self {
            IdsText::Nothing => true,
            IdsText::Public(g, word, p, s) => {
                &&& g.len() > 0
                &&& blank(g)
                &&& lower_text(word) == "public"@
                &&& p.fits()
                &&& s matches Some(s) ==> s.fits()
            },
            IdsText::System(g, word, s) => {
                &&& g.len() > 0
                &&& blank(g)
                &&& lower_text(word) == "system"@
                &&& s.fits()
            },
        }
    }

    pub open spec fn public_id(self) -> Option<Seq<char>> {
        match self {
            IdsText::Public(_, _, p, _) => Some(p.id),
            _ => None,
        }
    }

    pub open spec fn system_id(self) -> Option<Seq<char>> {
        match self {
            IdsText::Public(_, _, _, Some(s)) => Some(s.id),
            IdsText::System(_, _, s) => Some(s.id),
            _ => None,
        }
    }
}

impl DoctypeText {
    pub open spec fn source(self) -> Seq<char> {
        seq!['<', '!'] + (self.word + (self.gap + (self.name + (self.ids.source() + (self.end
            + seq!['>'])))))
    }

    /// Is the doctype written without mistakes? Right after the name there is no white space
    /// before the `>`, since more input would be needed then to tell that no identifier
    /// follows.
    pub open spec fn fits(self) -> bool {
        &&& lower_text(self.word) == "doctype"@
        &&& self.gap.len() > 0
        &&& blank(self.gap)
        &&& self.name.len() > 0
        &&& forall|i: int|
            0 <= i < self.name.len() ==> !gap(#[trigger] self.name[i]) && self.name[i] != '>'
                && self.name[i] != '\0' && self.name[i] != '\r'
        &&& self.ids.fits()
        &&& blank(self.end)
        &&& self.ids is Nothing ==> self.end.len() == 0
    }

    /// The doctype that is meant: its name in small letters, its identifiers as they are, and
    /// no quirks.
    pub open spec fn meaning(self) -> DoctypeView {
        DoctypeView {
            name: Some(lower_text(self.name)),
            public_id: self.ids.public_id(),
            system_id: self.ids.system_id(),
            force_quirks: false,
        }
    }
}

/// Inside a doctype of which `d` has been read.
spec fn at(f: Flat, d: DoctypeView, state: State, rest: Seq<char>) -> Flat {
    f.now(Machine { state, doctype: d, ..f.m }, rest)
}

/// Reading `<!` and the word `DOCTYPE`.
#[verifier::spinoff_prover]
#[verifier::rlimit(40)]
proof fn lemma_doctype_begins(
    f: Flat,
    word: Seq<char>,
    rest: Seq<char>,
    answers: Seq<Option<State>>,
)
    requires
        f.wf(),
        f.m.between(),
        f.m.state == State::Data,
        lower_text(word) == "doctype"@,
        may_answer(answers),
    ensures
        at(f, f.m.doctype, State::Doctype, rest).wf(),
        flat_run(f.now(f.m, seq!['<', '!'] + (word + rest)), answers) == flat_run(
            at(f, f.m.doctype, State::Doctype, rest),
            answers,
        ),
{
    broadcast use group_flat;

    let a = first_answer(answers);
    let text = word + rest;
    let g = f.now(f.m.to(State::MarkupDeclarationOpen), text);
    let h = at(f, f.m.doctype, State::Doctype, rest);
    lemma_declaration_begins(f, text, answers);
    assert(f.out + Seq::<SinkEvent>::empty() =~= f.out);
    assert(f.m.log =~= Seq::<SinkEvent>::empty());
    assert(g.advance(a) == (g.then_with(g.m.to(State::Doctype), rest), true)) by {
        reveal(Flat::advance);
        reveal_strlit("--");
        reveal_strlit("doctype");
        assert(word.len() == 7) by {
            assert(lower_text(word).len() == word.len());
        }
        assert(g.rest.take(7) =~= word);
        assert(g.rest.skip(7) =~= rest);
        assert(lower_text("doctype"@) =~= "doctype"@);
        assert(g.rest.take(2)[0] == word[0]);
        assert(lower_text(word)[0] == 'd');
        assert(word[0] != '-');
    }
    assert(g.then_with(g.m.to(State::Doctype), rest) =~= h);
    lemma_may_answer(answers);
    lemma_flat_step(g, a, a);
    assert(!asked(g.out, h.out));
}

/// The state after white space in a doctype.
spec fn after_gap(s: State) -> State {
    match s {
        State::Doctype => State::BeforeDoctypeName,
        State::AfterDoctypeKeyword(kind) => State::BeforeDoctypeIdentifier(kind),
        State::AfterDoctypeIdentifier(DoctypeIdKind::Public) =>
            State::BetweenDoctypePublicAndSystemIdentifiers,
        _ => s,
    }
}

/// A state in which white space can stand between the parts of a doctype.
spec fn takes_gap(s: State) -> bool {
    match s {
        State::Doctype => true,
        State::BeforeDoctypeName => true,
        State::AfterDoctypeKeyword(_) => true,
        State::BeforeDoctypeIdentifier(_) => true,
        State::AfterDoctypeIdentifier(_) => true,
        State::BetweenDoctypePublicAndSystemIdentifiers => true,
        _ => false,
    }
}

/// Reading white space.
proof fn lemma_gap(
    f: Flat,
    d: DoctypeView,
    state: State,
    s: Seq<char>,
    rest: Seq<char>,
    answers: Seq<Option<State>>,
)
    requires
        at(f, d, state, s + rest).wf(),
        f.m.between(),
        takes_gap(state),
        blank(s),
        may_answer(answers),
    ensures
        ({
            let h = at(
                f,
                d,
                if s.len() == 0 {
                    state
                } else {
                    after_gap(state)
                },
                rest,
            );
            &&& h.wf()
            &&& flat_run(at(f, d, state, s + rest), answers) == flat_run(h, answers)
        }),
    decreases s.len(),
{
    if s.len() == 0 {
        assert(s + rest =~= rest);
    } else {
        let c = s[0];
        let more = s.drop_first();
        let next = after_gap(state);
        let g = at(f, d, state, s + rest);
        assert(s + rest =~= seq![c] + (more + rest));
        assert(gap(c));
        let m = Machine { state: next, ..g.m };
        assert(on_char(g.m, c, first_answer(answers)) == m) by {
            reveal(on_char);
        }
        lemma_silent(g, m, c, more + rest, answers);
        assert(g.now(m, more + rest) == at(f, d, next, more + rest));
        assert forall|i: int| 0 <= i < more.len() implies gap(#[trigger] more[i]) by {
            assert(more[i] == s[i + 1]);
        }
        lemma_gap(f, d, next, more, rest, answers);
    }
}

/// A doctype that has a name only.
spec fn named(name: Seq<char>) -> DoctypeView {
    DoctypeView { name: Some(name), public_id: None, system_id: None, force_quirks: false }
}

/// Reading the name of a doctype from its `k`th character on.
proof fn lemma_name(
    f: Flat,
    name: Seq<char>,
    k: int,
    rest: Seq<char>,
    answers: Seq<Option<State>>,
)
    requires
        0 < k <= name.len(),
        at(f, named(lower_text(name.take(k))), State::DoctypeName, name.skip(k) + rest).wf(),
        f.m.between(),
        forall|i: int|
            0 <= i < name.len() ==> !gap(#[trigger] name[i]) && name[i] != '>' && name[i] != '\0'
                && name[i] != '\r',
        may_answer(answers),
    ensures
        ({
            let h = at(f, named(lower_text(name)), State::DoctypeName, rest);
            &&& h.wf()
            &&& flat_run(
                at(f, named(lower_text(name.take(k))), State::DoctypeName, name.skip(k) + rest),
                answers,
            ) == flat_run(h, answers)
        }),
    decreases name.len() - k,
{
    if k == name.len() {
        assert(name.take(k) =~= name);
        assert(name.skip(k) + rest =~= rest);
    } else {
        let c = name[k];
        let more = name.skip(k + 1) + rest;
        let g = at(f, named(lower_text(name.take(k))), State::DoctypeName, name.skip(k) + rest);
        let d = named(lower_text(name.take(k + 1)));
        let m = Machine { doctype: d, ..g.m };
        assert(name.skip(k) + rest =~= seq![c] + more);
        assert(lower_text(name.take(k)).push(lower(c)) =~= lower_text(name.take(k + 1)));
        assert(on_char(g.m, c, first_answer(answers)) == m) by {
            reveal(on_char);
        }
        lemma_silent(g, m, c, more, answers);
        assert(g.now(m, more) == at(f, d, State::DoctypeName, more));
        lemma_name(f, name, k + 1, rest, answers);
    }
}

/// Reading the word `DOCTYPE`, white space, and the name.
#[verifier::spinoff_prover]
#[verifier::rlimit(30)]
proof fn lemma_up_to_name(
    f: Flat,
    t: DoctypeText,
    rest: Seq<char>,
    answers: Seq<Option<State>>,
)
    requires
        f.wf(),
        f.m.between(),
        f.m.state == State::Data,
        t.fits(),
        may_answer(answers),
    ensures
        ({
            let h = at(f, named(lower_text(t.name)), State::DoctypeName, rest);
            &&& h.wf()
            &&& flat_run(
                f.now(f.m, seq!['<', '!'] + (t.word + (t.gap + (t.name + rest)))),
                answers,
            ) == flat_run(h, answers)
        }),
{
    let d = f.m.doctype;
    let c = t.name[0];
    let more = t.name.skip(1) + rest;
    lemma_doctype_begins(f, t.word, t.gap + (t.name + rest), answers);
    lemma_gap(f, d, State::Doctype, t.gap, t.name + rest, answers);
    let g = at(f, d, State::BeforeDoctypeName, t.name + rest);
    assert(t.name + rest =~= seq![c] + more);
    let d1 = named(lower_text(t.name.take(1)));
    let m = Machine { doctype: d1, state: State::DoctypeName, ..g.m };
    assert(lower_text(t.name.take(1)) =~= seq![lower(c)]);
    assert(on_char(g.m, c, first_answer(answers)) == m) by {
        reveal(on_char);
    }
    lemma_silent(g, m, c, more, answers);
    assert(g.now(m, more) == at(f, d1, State::DoctypeName, more));
    lemma_name(f, t.name, 1, rest, answers);
}

/// The word before an identifier of a kind.
spec fn keyword(kind: DoctypeIdKind) -> Seq<char> {
    match kind {
        DoctypeIdKind::Public => "public"@,
        DoctypeIdKind::System => "system"@,
    }
}

/// Reading white space after the name, where more follows than is looked at.
#[verifier::spinoff_prover]
#[verifier::rlimit(40)]
proof fn lemma_gap_after_name(
    f: Flat,
    d: DoctypeView,
    s: Seq<char>,
    rest: Seq<char>,
    answers: Seq<Option<State>>,
)
    requires
        at(f, d, State::AfterDoctypeName, s + rest).wf(),
        f.m.between(),
        blank(s),
        rest.len() >= 6,
        may_answer(answers),
    ensures
        at(f, d, State::AfterDoctypeName, rest).wf(),
        flat_run(at(f, d, State::AfterDoctypeName, s + rest), answers) == flat_run(
            at(f, d, State::AfterDoctypeName, rest),
            answers,
        ),
    decreases s.len(),
{
    broadcast use group_flat;

    if s.len() == 0 {
        assert(s + rest =~= rest);
    } else {
        let a = first_answer(answers);
        let c = s[0];
        let more = s.drop_first();
        let g = at(f, d, State::AfterDoctypeName, s + rest);
        let h = at(f, d, State::AfterDoctypeName, more + rest);
        assert(gap(c));
        assert(g.rest.drop_first() =~= more + rest);
        assert(on_char(g.m, c, a) == g.m) by {
            reveal(on_char);
        }
        assert(f.out + Seq::<SinkEvent>::empty() =~= f.out);
        assert(g.m.log =~= Seq::<SinkEvent>::empty());
        assert(g.then_with(g.m, more + rest) =~= h);
        assert(g.advance(a) == (h, true)) by {
            reveal(Flat::advance);
            reveal_strlit("public");
            reveal_strlit("system");
            let ahead = lower_text(g.rest.take(6));
            assert(ahead[0] == c);
            assert(lower_text("public"@)[0] == 'p');
            assert(lower_text("system"@)[0] == 's');
            assert(crate::tokenizer::config::read_char(g.m, c) == (c, g.m));
        }
        lemma_may_answer(answers);
        lemma_flat_step(g, a, a);
        assert(!asked(g.out, h.out));
        assert forall|i: int| 0 <= i < more.len() implies gap(#[trigger] more[i]) by {
            assert(more[i] == s[i + 1]);
        }
        lemma_gap_after_name(f, d, more, rest, answers);
    }
}

/// Reading the word before an identifier.
#[verifier::spinoff_prover]
#[verifier::rlimit(40)]
proof fn lemma_keyword(
    f: Flat,
    d: DoctypeView,
    kind: DoctypeIdKind,
    word: Seq<char>,
    rest: Seq<char>,
    answers: Seq<Option<State>>,
)
    requires
        at(f, d, State::AfterDoctypeName, word + rest).wf(),
        f.m.between(),
        lower_text(word) == keyword(kind),
        may_answer(answers),
    ensures
        word.len() == 6,
        at(f, d, State::AfterDoctypeKeyword(kind), rest).wf(),
        flat_run(at(f, d, State::AfterDoctypeName, word + rest), answers) == flat_run(
            at(f, d, State::AfterDoctypeKeyword(kind), rest),
            answers,
        ),
{
    broadcast use group_flat;

    let a = first_answer(answers);
    let g = at(f, d, State::AfterDoctypeName, word + rest);
    let h = at(f, d, State::AfterDoctypeKeyword(kind), rest);
    reveal_strlit("public");
    reveal_strlit("system");
    assert(word.len() == 6) by {
        assert(lower_text(word).len() == word.len());
    }
    assert(f.out + Seq::<SinkEvent>::empty() =~= f.out);
    assert(g.m.log =~= Seq::<SinkEvent>::empty());
    let m = g.m.to(State::AfterDoctypeKeyword(kind));
    assert(g.then_with(m, rest) =~= h);
    assert(g.advance(a) == (h, true)) by {
        reveal(Flat::advance);
        assert(g.rest.take(6) =~= word);
        assert(g.rest.skip(6) =~= rest);
        assert(lower_text("public"@) =~= "public"@);
        assert(lower_text("system"@) =~= "system"@);
        assert("public"@[0] != "system"@[0]);
    }
    lemma_may_answer(answers);
    lemma_flat_step(g, a, a);
    assert(!asked(g.out, h.out));
}

/// The doctype `d` with an identifier.
spec fn with_id(d: DoctypeView, kind: DoctypeIdKind, id: Seq<char>) -> DoctypeView {
    match kind {
        DoctypeIdKind::Public => DoctypeView { public_id: Some(id), ..d },
        DoctypeIdKind::System => DoctypeView { system_id: Some(id), ..d },
    }
}

/// The state inside an identifier.
spec fn id_state(kind: DoctypeIdKind, quote: char) -> State {
    if quote == '"' {
        State::DoctypeIdentifierDoubleQuoted(kind)
    } else {
        State::DoctypeIdentifierSingleQuoted(kind)
    }
}

/// Reading an identifier from its `k`th character on.
#[verifier::spinoff_prover]
#[verifier::rlimit(40)]
proof fn lemma_id_chars(
    f: Flat,
    d: DoctypeView,
    kind: DoctypeIdKind,
    t: IdText,
    k: int,
    rest: Seq<char>,
    answers: Seq<Option<State>>,
)
    requires
        0 <= k <= t.id.len(),
        at(f, with_id(d, kind, t.id.take(k)), id_state(kind, t.quote), t.id.skip(k) + rest).wf(),
        f.m.between(),
        t.fits(),
        may_answer(answers),
    ensures
        ({
            let h = at(f, with_id(d, kind, t.id), id_state(kind, t.quote), rest);
            &&& h.wf()
            &&& flat_run(
                at(f, with_id(d, kind, t.id.take(k)), id_state(kind, t.quote), t.id.skip(k) + rest),
                answers,
            ) == flat_run(h, answers)
        }),
    decreases t.id.len() - k,
{
    let state = id_state(kind, t.quote);
    if k == t.id.len() {
        assert(t.id.take(k) =~= t.id);
        assert(t.id.skip(k) + rest =~= rest);
    } else {
        let c = t.id[k];
        let more = t.id.skip(k + 1) + rest;
        let g = at(f, with_id(d, kind, t.id.take(k)), state, t.id.skip(k) + rest);
        let d1 = with_id(d, kind, t.id.take(k + 1));
        let m = Machine { doctype: d1, ..g.m };
        assert(t.id.skip(k) + rest =~= seq![c] + more);
        assert(t.id.take(k).push(c) =~= t.id.take(k + 1));
        assert(on_char(g.m, c, first_answer(answers)) == m) by {
            reveal(on_char);
        }
        lemma_silent(g, m, c, more, answers);
        assert(g.now(m, more) == at(f, d1, state, more));
        lemma_id_chars(f, d, kind, t, k + 1, rest, answers);
    }
}

/// Reading an identifier, with the white space and the quotes.
#[verifier::spinoff_prover]
#[verifier::rlimit(40)]
proof fn lemma_id(
    f: Flat,
    d: DoctypeView,
    state: State,
    kind: DoctypeIdKind,
    t: IdText,
    rest: Seq<char>,
    answers: Seq<Option<State>>,
)
    requires
        at(f, d, state, t.source() + rest).wf(),
        f.m.between(),
        t.fits(),
        state == State::AfterDoctypeKeyword(kind) || kind == DoctypeIdKind::System && state
            == State::AfterDoctypeIdentifier(DoctypeIdKind::Public),
        may_answer(answers),
    ensures
        ({
            let h = at(f, with_id(d, kind, t.id), State::AfterDoctypeIdentifier(kind), rest);
            &&& h.wf()
            &&& flat_run(at(f, d, state, t.source() + rest), answers) == flat_run(h, answers)
        }),
{
    let q = seq![t.quote];
    let s0 = q + (t.id + (q + rest));
    assert(t.source() + rest =~= t.gap + s0);
    lemma_gap(f, d, state, t.gap, s0, answers);
    let inside = id_state(kind, t.quote);
    let g = at(f, d, after_gap(state), s0);
    let none = Seq::<char>::empty();
    let d1 = with_id(d, kind, none);
    let m1 = Machine { doctype: d1, state: inside, ..g.m };
    assert(on_char(g.m, t.quote, first_answer(answers)) == m1) by {
        reveal(on_char);
    }
    lemma_silent(g, m1, t.quote, t.id + (q + rest), answers);
    assert(g.now(m1, t.id + (q + rest)) == at(f, d1, inside, t.id + (q + rest)));
    assert(t.id.take(0) =~= none);
    assert(t.id.skip(0) =~= t.id);
    lemma_id_chars(f, d, kind, t, 0, q + rest, answers);
    let d2 = with_id(d, kind, t.id);
    let g2 = at(f, d2, inside, q + rest);
    let m2 = Machine { state: State::AfterDoctypeIdentifier(kind), ..g2.m };
    assert(on_char(g2.m, t.quote, first_answer(answers)) == m2) by {
        reveal(on_char);
    }
    lemma_silent(g2, m2, t.quote, rest, answers);
    assert(g2.now(m2, rest) == at(f, d2, State::AfterDoctypeIdentifier(kind), rest));
}

/// The state after the identifiers.
spec fn after_ids(ids: IdsText) -> State {
    match ids {
        IdsText::Nothing => State::DoctypeName,
        IdsText::Public(_, _, _, None) => State::AfterDoctypeIdentifier(DoctypeIdKind::Public),
        _ => State::AfterDoctypeIdentifier(DoctypeIdKind::System),
    }
}

/// Reading white space after the name, and the word before the first identifier.
#[verifier::spinoff_prover]
#[verifier::rlimit(40)]
proof fn lemma_up_to_keyword(
    f: Flat,
    d: DoctypeView,
    kind: DoctypeIdKind,
    g: Seq<char>,
    word: Seq<char>,
    rest: Seq<char>,
    answers: Seq<Option<State>>,
)
    requires
        at(f, d, State::DoctypeName, g + (word + rest)).wf(),
        f.m.between(),
        g.len() > 0,
        blank(g),
        lower_text(word) == keyword(kind),
        may_answer(answers),
    ensures
        at(f, d, State::AfterDoctypeKeyword(kind), rest).wf(),
        flat_run(at(f, d, State::DoctypeName, g + (word + rest)), answers) == flat_run(
            at(f, d, State::AfterDoctypeKeyword(kind), rest),
            answers,
        ),
{
    let c = g[0];
    let more = g.drop_first();
    let f0 = at(f, d, State::DoctypeName, g + (word + rest));
    let m = Machine { state: State::AfterDoctypeName, ..f0.m };
    assert(gap(c));
    assert(g + (word + rest) =~= seq![c] + (more + (word + rest)));
    assert(on_char(f0.m, c, first_answer(answers)) == m) by {
        reveal(on_char);
    }
    lemma_silent(f0, m, c, more + (word + rest), answers);
    assert(f0.now(m, more + (word + rest)) == at(
        f,
        d,
        State::AfterDoctypeName,
        more + (word + rest),
    ));
    assert forall|i: int| 0 <= i < more.len() implies gap(#[trigger] more[i]) by {
        assert(more[i] == g[i + 1]);
    }
    assert(word.len() == 6) by {
        reveal_strlit("public");
        reveal_strlit("system");
        assert(lower_text(word).len() == word.len());
    }
    lemma_gap_after_name(f, d, more, word + rest, answers);
    lemma_keyword(f, d, kind, word, rest, answers);
}

/// Reading the identifiers.
#[verifier::spinoff_prover]
#[verifier::rlimit(40)]
proof fn lemma_ids(
    f: Flat,
    name: Seq<char>,
    ids: IdsText,
    rest: Seq<char>,
    answers: Seq<Option<State>>,
)
    requires
        at(f, named(name), State::DoctypeName, ids.source() + rest).wf(),
        f.m.between(),
        ids.fits(),
        may_answer(answers),
    ensures
        ({
            let d = DoctypeView {
                name: Some(name),
                public_id: ids.public_id(),
                system_id: ids.system_id(),
                force_quirks: false,
            };
            let h = at(f, d, after_ids(ids), rest);
            &&& h.wf()
            &&& flat_run(at(f, named(name), State::DoctypeName, ids.source() + rest), answers)
                == flat_run(h, answers)
        }),
{
    let d = named(name);
    match ids {
        IdsText::Nothing => {
            assert(ids.source() + rest =~= rest);
        },
        IdsText::Public(g, word, p, None) => {
            assert(ids.source() + rest =~= g + (word + (p.source() + rest)));
            lemma_up_to_keyword(f, d, DoctypeIdKind::Public, g, word, p.source() + rest, answers);
            lemma_id(
                f,
                d,
                State::AfterDoctypeKeyword(DoctypeIdKind::Public),
                DoctypeIdKind::Public,
                p,
                rest,
                answers,
            );
        },
        IdsText::Public(g, word, p, Some(s)) => {
            let after = s.source() + rest;
            assert(ids.source() + rest =~= g + (word + (p.source() + after)));
            lemma_up_to_keyword(f, d, DoctypeIdKind::Public, g, word, p.source() + after, answers);
            lemma_id(
                f,
                d,
                State::AfterDoctypeKeyword(DoctypeIdKind::Public),
                DoctypeIdKind::Public,
                p,
                after,
                answers,
            );
            lemma_id(
                f,
                with_id(d, DoctypeIdKind::Public, p.id),
                State::AfterDoctypeIdentifier(DoctypeIdKind::Public),
                DoctypeIdKind::System,
                s,
                rest,
                answers,
            );
        },
        IdsText::System(g, word, s) => {
            assert(ids.source() + rest =~= g + (word + (s.source() + rest)));
            lemma_up_to_keyword(f, d, DoctypeIdKind::System, g, word, s.source() + rest, answers);
            lemma_id(
                f,
                d,
                State::AfterDoctypeKeyword(DoctypeIdKind::System),
                DoctypeIdKind::System,
                s,
                rest,
                answers,
            );
        },
    }
}

/// Reading the `>` at the end.
#[verifier::spinoff_prover]
#[verifier::rlimit(40)]
proof fn lemma_doctype_ends(f: Flat, d: DoctypeView, state: State, answers: Seq<Option<State>>)
    requires
        at(f, d, state, seq!['>']).wf(),
        f.m.between(),
        f.m.state == State::Data,
        state == State::DoctypeName || state is AfterDoctypeIdentifier || state
            == State::BetweenDoctypePublicAndSystemIdentifiers,
        may_answer(answers),
    ensures
        flat_run(at(f, d, state, seq!['>']), answers) == f.now(
            Machine { doctype: empty_doctype(), ..f.m },
            Seq::empty(),
        ).told(seq![SinkEvent::Token(TokenView::DoctypeToken(d))]),
{
    broadcast use group_flat;

    let a = first_answer(answers);
    let g = at(f, d, state, seq!['>']);
    let none = Seq::<char>::empty();
    let m = g.m.emit_doctype().to(State::Data);
    let e = SinkEvent::Token(TokenView::DoctypeToken(d));
    assert(on_char(g.m, '>', a) == m) by {
        reveal(on_char);
    }
    assert(g.m.log =~= Seq::<SinkEvent>::empty());
    lemma_read_on(g, answers);
    assert(g.rest.drop_first() =~= none);
    let h = g.then_with(m, none);
    let goal = f.now(Machine { doctype: empty_doctype(), ..f.m }, none).told(seq![e]);
    assert(h.out =~= goal.out);
    assert(h.m =~= goal.m);
    lemma_stop(h, answers);
}

/// Every doctype that is written without mistakes becomes one doctype: with its name in
/// small letters, with its public and its system identifier as they are written between
/// quotes of either kind, and without a call for quirks. Nothing else is emitted, and the
/// machine is where it was before.
#[verifier::spinoff_prover]
#[verifier::rlimit(30)]
pub proof fn law_doctypes(cfg: Config, t: DoctypeText, answers: Seq<Option<State>>)
    requires
        cfg.idle(),
        cfg.m.state == State::Data,
        t.fits(),
        may_answer(answers),
    ensures
        ({
            let f = cfg.flat();
            let post = cfg.fed(t.source(), answers).flat();
            &&& post.out == f.out.push(SinkEvent::Token(TokenView::DoctypeToken(t.meaning())))
            &&& post.m == (Machine { doctype: empty_doctype(), ..f.m })
            &&& post.rest.len() == 0
        }),
{
    let f = cfg.flat();
    let text = t.source();
    let tail = t.end + seq!['>'];
    assert(text[0] == '<');
    lemma_begin(cfg, text, answers);
    assert(f.wf()) by {
        assert(f.now(f.m, text).wf());
    }
    lemma_up_to_name(f, t, t.ids.source() + tail, answers);
    lemma_ids(f, lower_text(t.name), t.ids, tail, answers);
    let state = after_ids(t.ids);
    let d = t.meaning();
    if t.end.len() == 0 {
        assert(tail =~= seq!['>']);
        lemma_doctype_ends(f, d, state, answers);
    } else {
        lemma_gap(f, d, state, t.end, seq!['>'], answers);
        lemma_doctype_ends(f, d, after_gap(state), answers);
    }
    let e = SinkEvent::Token(TokenView::DoctypeToken(d));
    assert(f.out + seq![e] =~= f.out.push(e));
}

} // verus!
