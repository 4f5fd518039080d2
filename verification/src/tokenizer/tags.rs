//! Which text becomes which tag.

use vstd::prelude::*;
use crate::tokenizer::char_ref::EntityView;
use crate::tokenizer::chunks::{Flat, flat_run};
use crate::tokenizer::config::Config;
use crate::tokenizer::interface::{
    AttributeView, SinkEvent, TagKind, TagView, TokenView, has_attr,
};
use crate::tokenizer::laws::may_answer;
use crate::tokenizer::machine::Machine;
use crate::tokenizer::reading::{group_flat, lemma_begin, lemma_read_on, lemma_read_one, lemma_stop};
use crate::tokenizer::references::{
    Bit, entity_chars, fit, lemma_bits, lemma_stands_alone, meaning, source, stands_alone,
};
use crate::tokenizer::rules::{gap, on_char};
use crate::tokenizer::run::{first_answer, more_answers};
use crate::tokenizer::states::{AttrValueKind, State};
use crate::util::str::{is_letter, lower, lower_text};

verus! {

/// Is the text white space throughout? It may be empty.
pub open spec fn blank(s: Seq<char>) -> bool {
    forall|i: int| 0 <= i < s.len() ==> gap(#[trigger] s[i])
}

/// An attribute value, as it is written after the name of the attribute: white space, `=`,
/// white space, and the value between quotes, or without.
pub struct ValueText {
    pub before: Seq<char>,
    pub after: Seq<char>,
    pub kind: AttrValueKind,
    pub bits: Seq<Bit>,
}

/// An attribute, as it is written in a tag: white space, the name, and the value, if there
/// is one.
pub struct AttrText {
    pub gap: Seq<char>,
    pub name: Seq<char>,
    pub value: Option<ValueText>,
}

/// A tag, as it is written: `<`, with a `/` if it is an end tag, the name, the attributes,
/// white space, and `>`, with a `/` before it if the tag closes itself.
pub struct TagText {
    pub kind: TagKind,
    pub name: Seq<char>,
    pub attrs: Seq<AttrText>,
    pub gap: Seq<char>,
    pub closed: bool,
}

/// The quotes around a value, before it or after it.
pub open spec fn quote(kind: AttrValueKind) -> Seq<char> {
    match kind {
        AttrValueKind::DoubleQuoted => seq!['"'],
        AttrValueKind::SingleQuoted => seq!['\''],
        AttrValueKind::Unquoted => Seq::empty(),
    }
}

/// May `c` stand in the name of an attribute, without a mistake?
pub open spec fn name_char(c: char) -> bool {
    &&& !gap(c) && c != '\r' && c != '\0'
    &&& c != '/' && c != '>' && c != '=' && c != '"' && c != '\'' && c != '<'
}

impl ValueText {
    pub open spec fn source(self) -> Seq<char> {
        self.before + seq!['='] + (self.after + (quote(self.kind) + (source(self.bits) + quote(
            self.kind,
        ))))
    }

    /// May the value stand before `tail`?
    pub open spec fn fits(self, es: Seq<EntityView>, tail: Seq<char>) -> bool {
        &&& blank(self.before)
        &&& blank(self.after)
        &&& fit(self.bits, es, State::AttributeValue(self.kind), quote(self.kind) + tail)
        &&& self.kind == AttrValueKind::Unquoted ==> self.bits.len() > 0
    }
}

impl AttrText {
    pub open spec fn source(self) -> Seq<char> {
        self.gap + (self.name + self.value_source())
    }

    pub open spec fn value_source(self) -> Seq<char> {
        match self.value {
            Some(v) => v.source(),
            None => Seq::empty(),
        }
    }

    /// The attribute that is meant: its name in small letters, and its value, which is empty
    /// if there is none.
    pub open spec fn meaning(self, es: Seq<EntityView>) -> AttributeView {
        AttributeView {
            name: lower_text(self.name),
            value: match self.value {
                Some(v) => meaning(v.bits, es),
                None => Seq::empty(),
            },
        }
    }

    /// May the attribute stand before `tail`?
    pub open spec fn fits(self, es: Seq<EntityView>, tail: Seq<char>) -> bool {
        &&& self.gap.len() > 0
        &&& blank(self.gap)
        &&& self.name.len() > 0
        &&& forall|i: int| 0 <= i < self.name.len() ==> name_char(#[trigger] self.name[i])
        &&& self.value matches Some(v) ==> v.fits(es, tail)
    }

    /// Is the value written without quotes?
    pub open spec fn unquoted(self) -> bool {
        self.value matches Some(v) && v.kind == AttrValueKind::Unquoted
    }
}

/// How attributes are written.
pub open spec fn attrs_source(attrs: Seq<AttrText>) -> Seq<char>
    decreases attrs.len(),
{
    if attrs.len() == 0 {
        Seq::empty()
    } else {
        attrs[0].source() + attrs_source(attrs.drop_first())
    }
}

/// May the attributes stand before `tail`?
pub open spec fn attrs_fit(attrs: Seq<AttrText>, es: Seq<EntityView>, tail: Seq<char>) -> bool
    decreases attrs.len(),
{
    attrs.len() > 0 ==> {
        let rest = attrs.drop_first();
        &&& attrs[0].fits(es, attrs_source(rest) + tail)
        &&& attrs_fit(rest, es, tail)
    }
}

/// The attributes that are meant.
pub open spec fn attrs_meaning(attrs: Seq<AttrText>, es: Seq<EntityView>) -> Seq<AttributeView> {
    attrs.map_values(|a: AttrText| a.meaning(es))
}

/// Of attributes with one name, only the first.
pub open spec fn first_ones(list: Seq<AttributeView>) -> Seq<AttributeView>
    decreases list.len(),
{
    if list.len() == 0 {
        Seq::empty()
    } else {
        let init = first_ones(list.drop_last());
        if has_attr(init, list.last().name) {
            init
        } else {
            init.push(list.last())
        }
    }
}

/// The report of an error.
pub open spec fn error(msg: Seq<char>) -> SinkEvent {
    SinkEvent::Token(TokenView::ParseError(msg))
}

/// The reports of attributes whose names have occurred before in the tag.
pub open spec fn repeated(list: Seq<AttributeView>) -> Seq<SinkEvent> {
    Seq::new(
        (list.len() - first_ones(list).len()) as nat,
        |i: int| error("Duplicate attribute"@),
    )
}

impl TagText {
    pub open spec fn source(self) -> Seq<char> {
        self.start() + (self.name + (attrs_source(self.attrs) + self.end()))
    }

    pub open spec fn start(self) -> Seq<char> {
        match self.kind {
            TagKind::StartTag => seq!['<'],
            TagKind::EndTag => seq!['<', '/'],
        }
    }

    pub open spec fn end(self) -> Seq<char> {
        self.gap + (if self.closed {
            seq!['/', '>']
        } else {
            seq!['>']
        })
    }

    /// Is this a tag that is written without mistakes, but for attributes that are repeated?
    pub open spec fn fits(self, es: Seq<EntityView>) -> bool {
        &&& self.name.len() > 0
        &&& is_letter(self.name[0])
        &&& forall|i: int|
            0 <= i < self.name.len() ==> !gap(#[trigger] self.name[i]) && self.name[i] != '/'
                && self.name[i] != '>' && self.name[i] != '\0' && self.name[i] != '\r'
        &&& attrs_fit(self.attrs, es, self.end())
        &&& blank(self.gap)
        &&& self.closed && self.attrs.len() > 0 && self.attrs.last().unquoted() ==> self.gap.len()
            > 0
    }

    /// The tag that is meant: its name in small letters, and its attributes in order, the
    /// first of each name.
    pub open spec fn meaning(self, es: Seq<EntityView>) -> TagView {
        TagView {
            kind: self.kind,
            name: lower_text(self.name),
            self_closing: self.closed,
            attrs: first_ones(attrs_meaning(self.attrs, es)),
        }
    }

    /// What is emitted: the errors, the tag, and, if it is a start tag, the question to the
    /// sink, with its answer.
    pub open spec fn events(self, es: Seq<EntityView>, answer: Option<State>) -> Seq<SinkEvent> {
        let tag = self.meaning(es);
        let token = seq![SinkEvent::Token(TokenView::TagToken(tag))];
        repeated(attrs_meaning(self.attrs, es)) + (match self.kind {
            TagKind::StartTag => token.push(SinkEvent::Asked(answer)),
            TagKind::EndTag => (if self.attrs.len() > 0 {
                seq![error("Attributes on an end tag"@)]
            } else {
                Seq::empty()
            }) + (if self.closed {
                seq![error("Self-closing end tag"@)]
            } else {
                Seq::empty()
            }) + token,
        })
    }
}

/// Inside a tag of which the name and the attributes in `list` have been read, the last of
/// them perhaps not to its end.
spec fn in_tag_at(
    f: Flat,
    kind: TagKind,
    name: Seq<char>,
    list: Seq<AttributeView>,
    state: State,
    rest: Seq<char>,
) -> Flat {
    let done = first_ones(list.drop_last());
    Flat {
        m: Machine {
            state,
            tag_kind: kind,
            tag_name: name,
            self_closing: false,
            attrs: if list.len() == 0 {
                Seq::empty()
            } else {
                done
            },
            attr_name: if list.len() == 0 {
                Seq::empty()
            } else {
                list.last().name
            },
            attr_value: if list.len() == 0 {
                Seq::empty()
            } else {
                list.last().value
            },
            ..f.m
        },
        out: f.out + (if list.len() == 0 {
            Seq::empty()
        } else {
            repeated(list.drop_last())
        }),
        rest,
        ..f
    }
}

/// The state after white space in a tag.
spec fn after_gap(s: State) -> State {
    match s {
        State::AttributeName => State::AfterAttributeName,
        State::AfterAttributeName => State::AfterAttributeName,
        State::BeforeAttributeValue => State::BeforeAttributeValue,
        _ => State::BeforeAttributeName,
    }
}

/// A state in which white space can stand between the parts of a tag.
spec fn takes_gap(s: State) -> bool {
    match s {
        State::TagName => true,
        State::BeforeAttributeName => true,
        State::AttributeName => true,
        State::AfterAttributeName => true,
        State::BeforeAttributeValue => true,
        State::AttributeValue(AttrValueKind::Unquoted) => true,
        State::AfterAttributeValueQuoted => true,
        _ => false,
    }
}

/// Reading a character that changes nothing but the state.
#[verifier::spinoff_prover]
#[verifier::rlimit(30)]
proof fn lemma_move(f: Flat, c: char, s: State, rest: Seq<char>, answers: Seq<Option<State>>)
    requires
        f.now(f.m, seq![c] + rest).wf(),
        f.m.between(),
        c != '\r',
        crate::tokenizer::reading::reads_one(f.m.state, c),
        on_char(f.m, c, first_answer(answers)) == f.m.to(s),
        may_answer(answers),
    ensures
        f.now(f.m.to(s), rest).wf(),
        flat_run(f.now(f.m, seq![c] + rest), answers) == flat_run(f.now(f.m.to(s), rest), answers),
{
    broadcast use group_flat;

    let g = f.now(f.m, seq![c] + rest);
    assert(g.rest.drop_first() =~= rest);
    assert(f.m.log =~= Seq::<SinkEvent>::empty());
    assert(f.out + Seq::<SinkEvent>::empty() =~= f.out);
    lemma_read_on(g, answers);
    assert(g.then_with(f.m.to(s), rest) =~= f.now(f.m.to(s), rest));
}

/// Reading white space.
proof fn lemma_gap(f: Flat, s: Seq<char>, rest: Seq<char>, answers: Seq<Option<State>>)
    requires
        f.now(f.m, s + rest).wf(),
        f.m.between(),
        takes_gap(f.m.state),
        blank(s),
        may_answer(answers),
    ensures
        ({
            let m = if s.len() == 0 {
                f.m
            } else {
                f.m.to(after_gap(f.m.state))
            };
            &&& f.now(m, rest).wf()
            &&& flat_run(f.now(f.m, s + rest), answers) == flat_run(f.now(m, rest), answers)
        }),
    decreases s.len(),
{
    if s.len() == 0 {
        assert(s + rest =~= rest);
    } else {
        let c = s[0];
        let more = s.drop_first();
        let state = after_gap(f.m.state);
        assert(s + rest =~= seq![c] + (more + rest));
        assert(gap(c));
        assert(on_char(f.m, c, first_answer(answers)) == f.m.to(state)) by {
            reveal(on_char);
        }
        lemma_move(f, c, state, more + rest, answers);
        let g = f.now(f.m.to(state), more + rest);
        assert forall|i: int| 0 <= i < more.len() implies gap(#[trigger] more[i]) by {
            assert(more[i] == s[i + 1]);
        }
        lemma_gap(g, more, rest, answers);
        assert(g.m.to(after_gap(state)) == g.m);
    }
}

/// The attribute with the name `name` so far, and without a value.
spec fn named_attr(name: Seq<char>) -> AttributeView {
    AttributeView { name, value: Seq::empty() }
}

/// Reading the first character of the name of an attribute.
#[verifier::spinoff_prover]
#[verifier::rlimit(40)]
proof fn lemma_name_begins(
    f: Flat,
    kind: TagKind,
    name: Seq<char>,
    list: Seq<AttributeView>,
    state: State,
    c: char,
    rest: Seq<char>,
    answers: Seq<Option<State>>,
)
    requires
        in_tag_at(f, kind, name, list, state, seq![c] + rest).wf(),
        f.m.idle(),
        state == State::BeforeAttributeName || state == State::AfterAttributeName,
        name_char(c),
        list.len() > 0 ==> list.last().name.len() > 0,
        may_answer(answers),
    ensures
        ({
            let next = list.push(named_attr(seq![lower(c)]));
            let h = in_tag_at(f, kind, name, next, State::AttributeName, rest);
            &&& h.wf()
            &&& flat_run(in_tag_at(f, kind, name, list, state, seq![c] + rest), answers)
                == flat_run(h, answers)
        }),
{
    broadcast use group_flat;

    let g = in_tag_at(f, kind, name, list, state, seq![c] + rest);
    let next = list.push(named_attr(seq![lower(c)]));
    let h = in_tag_at(f, kind, name, next, State::AttributeName, rest);
    let none = Seq::<SinkEvent>::empty();
    let m = on_char(g.m, c, first_answer(answers));
    assert(next.drop_last() =~= list);
    assert(g.rest.drop_first() =~= rest);
    assert(g.m.log =~= none);
    lemma_few_ones(list.drop_last());
    assert(m == Machine { state: State::AttributeName, ..g.m.finish_attr().push_name(lower(c)) })
        by {
        reveal(on_char);
    }
    lemma_read_on(g, answers);
    assert(Seq::<char>::empty().push(lower(c)) =~= seq![lower(c)]);
    assert(repeated(Seq::<AttributeView>::empty()) =~= none);
    assert(f.m.attr_value =~= Seq::<char>::empty());
    if list.len() > 0 {
        let done = first_ones(list.drop_last());
        if has_attr(done, list.last().name) {
            assert(repeated(list) =~= repeated(list.drop_last()).push(error("Duplicate attribute"@)));
        } else {
            assert(repeated(list) =~= repeated(list.drop_last()));
            assert(done.push(list.last()) == first_ones(list));
            assert(list.last() == AttributeView { name: list.last().name, value: list.last().value });
        }
    }
    assert(g.then_with(m, rest).out =~= h.out);
    assert(g.then_with(m, rest).m =~= h.m);
}

/// The first ones are no more than all.
proof fn lemma_few_ones(list: Seq<AttributeView>)
    ensures
        first_ones(list).len() <= list.len(),
    decreases list.len(),
{
    if list.len() > 0 {
        lemma_few_ones(list.drop_last());
    }
}

/// Reading on in the name of an attribute, from its `k`th character on.
#[verifier::spinoff_prover]
#[verifier::rlimit(40)]
proof fn lemma_name_goes_on(
    f: Flat,
    kind: TagKind,
    name: Seq<char>,
    list: Seq<AttributeView>,
    s: Seq<char>,
    k: int,
    rest: Seq<char>,
    answers: Seq<Option<State>>,
)
    requires
        0 < k <= s.len(),
        in_tag_at(
            f,
            kind,
            name,
            list.push(named_attr(lower_text(s.take(k)))),
            State::AttributeName,
            s.skip(k) + rest,
        ).wf(),
        f.m.idle(),
        forall|i: int| 0 <= i < s.len() ==> name_char(#[trigger] s[i]),
        may_answer(answers),
    ensures
        ({
            let h = in_tag_at(
                f,
                kind,
                name,
                list.push(named_attr(lower_text(s))),
                State::AttributeName,
                rest,
            );
            &&& h.wf()
            &&& flat_run(
                in_tag_at(
                    f,
                    kind,
                    name,
                    list.push(named_attr(lower_text(s.take(k)))),
                    State::AttributeName,
                    s.skip(k) + rest,
                ),
                answers,
            ) == flat_run(h, answers)
        }),
    decreases s.len() - k,
{
    broadcast use group_flat;

    let now = list.push(named_attr(lower_text(s.take(k))));
    if k == s.len() {
        assert(s.take(k) =~= s);
        assert(s.skip(k) + rest =~= rest);
    } else {
        let c = s[k];
        let more = s.skip(k + 1) + rest;
        let next = list.push(named_attr(lower_text(s.take(k + 1))));
        let g = in_tag_at(f, kind, name, now, State::AttributeName, s.skip(k) + rest);
        let h = in_tag_at(f, kind, name, next, State::AttributeName, more);
        assert(g.rest[0] == c);
        assert(g.rest.drop_first() =~= more);
        assert(now.drop_last() =~= list);
        assert(next.drop_last() =~= list);
        assert(lower_text(s.take(k)).push(lower(c)) =~= lower_text(s.take(k + 1)));
        let m = on_char(g.m, c, first_answer(answers));
        assert(name_char(c));
        assert(m == g.m.push_name(lower(c))) by {
            reveal(on_char);
        }
        lemma_read_on(g, answers);
        assert(g.m.log =~= Seq::<SinkEvent>::empty());
        assert(g.out + Seq::<SinkEvent>::empty() =~= g.out);
        assert(g.then_with(m, more) =~= h);
        lemma_name_goes_on(f, kind, name, list, s, k + 1, rest, answers);
    }
}

/// The state after the value of an attribute.
spec fn after_value(kind: AttrValueKind) -> State {
    match kind {
        AttrValueKind::Unquoted => State::AttributeValue(AttrValueKind::Unquoted),
        _ => State::AfterAttributeValueQuoted,
    }
}

/// Reading the value of an attribute, from the `=` on.
#[verifier::spinoff_prover]
#[verifier::rlimit(40)]
proof fn lemma_value(f: Flat, v: ValueText, rest: Seq<char>, answers: Seq<Option<State>>)
    requires
        f.now(f.m, v.source() + rest).wf(),
        f.m.between(),
        f.m.state == State::AttributeName,
        f.m.attr_value.len() == 0,
        v.fits(f.m.entities, rest),
        may_answer(answers),
    ensures
        ({
            let m = Machine {
                state: after_value(v.kind),
                attr_value: meaning(v.bits, f.m.entities),
                ..f.m
            };
            &&& f.now(m, rest).wf()
            &&& flat_run(f.now(f.m, v.source() + rest), answers) == flat_run(
                f.now(m, rest),
                answers,
            )
        }),
{
    let q = quote(v.kind);
    let r3 = source(v.bits) + (q + rest);
    let r2 = q + r3;
    let r1 = v.after + r2;
    let r0 = seq!['='] + r1;
    assert(v.source() + rest =~= v.before + r0);
    lemma_gap(f, v.before, r0, answers);
    let m0 = if v.before.len() == 0 {
        f.m
    } else {
        f.m.to(State::AfterAttributeName)
    };
    let m1 = f.m.to(State::BeforeAttributeValue);
    let f0 = f.now(m0, r0);
    assert(on_char(m0, '=', first_answer(answers)) == m0.to(State::BeforeAttributeValue)) by {
        reveal(on_char);
    }
    lemma_move(f0, '=', State::BeforeAttributeValue, r1, answers);
    assert(m0.to(State::BeforeAttributeValue) == m1);
    let f1 = f.now(m1, r1);
    lemma_gap(f1, v.after, r2, answers);
    assert(m1.to(State::BeforeAttributeValue) == m1);
    let f2 = f.now(m1, r2);
    let state = State::AttributeValue(v.kind);
    let m3 = f.m.to(state);
    let f3 = f.now(m3, r3);
    let value = meaning(v.bits, f.m.entities);
    let m4 = Machine { attr_value: value, ..m3 };
    assert(m3.attr_value + value =~= value);
    match v.kind {
        AttrValueKind::Unquoted => {
            assert(r2 =~= r3);
            assert(q + rest =~= rest);
            lemma_unquoted_begins(f2, v.bits, rest, answers);
            assert(f3.with_chars(value, rest) =~= f.now(m4, rest));
            assert(f2.m.to(state) == m3);
        },
        _ => {
            let c = q[0];
            assert(on_char(m1, c, first_answer(answers)) == m1.to(state)) by {
                reveal(on_char);
            }
            assert(r2 =~= seq![c] + r3);
            lemma_move(f2, c, state, r3, answers);
            assert(m1.to(state) == m3);
            lemma_bits(f3, v.bits, q + rest, answers);
            let f4 = f.now(m4, q + rest);
            assert(f3.with_chars(value, q + rest) =~= f4);
            assert(q + rest =~= seq![c] + rest);
            assert(on_char(m4, c, first_answer(answers)) == m4.to(
                State::AfterAttributeValueQuoted,
            )) by {
                reveal(on_char);
            }
            lemma_move(f4, c, State::AfterAttributeValueQuoted, rest, answers);
        },
    }
}

/// Reading a value without quotes.
#[verifier::spinoff_prover]
#[verifier::rlimit(40)]
proof fn lemma_unquoted_begins(f: Flat, bits: Seq<Bit>, rest: Seq<char>, answers: Seq<Option<State>>)
    requires
        f.wf(),
        f.m.between(),
        f.m.state == State::BeforeAttributeValue,
        f.m.attr_value.len() == 0,
        f.rest == source(bits) + rest,
        bits.len() > 0,
        fit(bits, f.m.entities, State::AttributeValue(AttrValueKind::Unquoted), rest),
        may_answer(answers),
    ensures
        ({
            let g = f.now(f.m.to(State::AttributeValue(AttrValueKind::Unquoted)), rest);
            let h = g.with_chars(meaning(bits, f.m.entities), rest);
            &&& h.wf()
            &&& flat_run(f, answers) == flat_run(h, answers)
        }),
{
    broadcast use group_flat;

    let state = State::AttributeValue(AttrValueKind::Unquoted);
    let es = f.m.entities;
    let a = first_answer(answers);
    let c = f.rest[0];
    let tail = source(bits.drop_first()) + rest;
    assert(f.rest =~= bits[0].source() + tail);
    assert(f.m.log =~= Seq::<SinkEvent>::empty());
    assert(f.out + Seq::<SinkEvent>::empty() =~= f.out);
    let none = Seq::<char>::empty();
    let g = f.now(f.m.to(state), rest);
    match bits[0] {
        Bit::Char(d) => {
            assert(c == d);
            let m = f.m.push_value(c).to(state);
            assert(on_char(f.m, c, a) == m) by {
                reveal(on_char);
            }
            assert(f.rest.drop_first() =~= tail);
            lemma_read_on(f, answers);
            let f1 = f.now(m, tail);
            assert(f.then_with(m, tail) =~= f1);
            lemma_bits(f1, bits.drop_first(), rest, answers);
            let more = meaning(bits.drop_first(), es);
            assert(m.attr_value + more =~= f.m.attr_value + (seq![c] + more));
            assert(f1.with_chars(more, rest) =~= g.with_chars(meaning(bits, es), rest));
        },
        _ => {
            assert(c == '&');
            let m = f.m.reconsume(state, c);
            assert(on_char(f.m, c, a) == m) by {
                reveal(on_char);
            }
            let after = f.rest.drop_first();
            lemma_read_on(f, answers);
            let f1 = f.now(m, after);
            assert(f.then_with(m, after) =~= f1);
            let f2 = f.now(f.m.to(state), f.rest);
            lemma_ampersand_again(f1, f2, answers);
            assert(f2.now(f2.m, source(bits) + rest) =~= f2);
            lemma_bits(f2, bits, rest, answers);
            assert(f2.with_chars(meaning(bits, es), rest) =~= g.with_chars(meaning(bits, es), rest));
        },
    }
}

/// An ampersand that is read once more does what it does when it is read from the input.
#[verifier::spinoff_prover]
#[verifier::rlimit(40)]
proof fn lemma_ampersand_again(f: Flat, g: Flat, answers: Seq<Option<State>>)
    requires
        f.wf(),
        g.rest.len() > 0,
        g.rest[0] == '&',
        g.m.between(),
        g.m.state == State::AttributeValue(AttrValueKind::Unquoted),
        f == (Flat {
            m: Machine { pending: Some('&'), ..g.m },
            rest: g.rest.drop_first(),
            ..g
        }),
        may_answer(answers),
    ensures
        g.wf(),
        flat_run(f, answers) == flat_run(g, answers),
{
    broadcast use group_flat;

    let a = first_answer(answers);
    let m = on_char(g.m, '&', a);
    let h = g.then_with(m, g.rest.drop_first());
    crate::tokenizer::chunks::lemma_may_answer(answers);
    assert(g.m.wf());
    reveal(on_char);
    lemma_read_on(g, answers);
    crate::tokenizer::chunks::lemma_flat_step(f, a, a);
    assert(f.advance(a) == (h, true)) by {
        reveal(Flat::advance);
        assert((Machine { pending: None, ..f.m }) == g.m);
    }
    assert(g.m.log =~= Seq::<SinkEvent>::empty());
    assert(h.out =~= f.out);
}

/// The state after an attribute.
spec fn after_attr(a: AttrText) -> State {
    match a.value {
        None => State::AttributeName,
        Some(v) => after_value(v.kind),
    }
}

/// Reading an attribute.
#[verifier::spinoff_prover]
#[verifier::rlimit(40)]
proof fn lemma_attr(
    f: Flat,
    kind: TagKind,
    name: Seq<char>,
    list: Seq<AttributeView>,
    state: State,
    a: AttrText,
    rest: Seq<char>,
    answers: Seq<Option<State>>,
)
    requires
        in_tag_at(f, kind, name, list, state, a.source() + rest).wf(),
        f.m.idle(),
        takes_gap(state),
        state != State::BeforeAttributeValue,
        a.fits(f.m.entities, rest),
        list.len() > 0 ==> list.last().name.len() > 0,
        may_answer(answers),
    ensures
        ({
            let h = in_tag_at(
                f,
                kind,
                name,
                list.push(a.meaning(f.m.entities)),
                after_attr(a),
                rest,
            );
            &&& h.wf()
            &&& flat_run(in_tag_at(f, kind, name, list, state, a.source() + rest), answers)
                == flat_run(h, answers)
        }),
{
    let es = f.m.entities;
    let r2 = a.value_source() + rest;
    let r1 = a.name + r2;
    let g = in_tag_at(f, kind, name, list, state, a.gap + r1);
    assert(a.source() + rest =~= a.gap + r1);
    lemma_gap(g, a.gap, r1, answers);
    let s = after_gap(state);
    let g1 = in_tag_at(f, kind, name, list, s, r1);
    assert(g.now(g.m.to(s), r1) =~= g1);
    let c = a.name[0];
    let r = a.name.skip(1) + r2;
    assert(r1 =~= seq![c] + r);
    assert(name_char(c));
    lemma_name_begins(f, kind, name, list, s, c, r, answers);
    assert(lower_text(a.name.take(1)) =~= seq![lower(c)]);
    lemma_name_goes_on(f, kind, name, list, a.name, 1, r2, answers);
    let full = list.push(named_attr(lower_text(a.name)));
    let g2 = in_tag_at(f, kind, name, full, State::AttributeName, r2);
    match a.value {
        None => {
            assert(r2 =~= rest);
        },
        Some(v) => {
            lemma_value(g2, v, rest, answers);
            let last = list.push(a.meaning(es));
            let h = in_tag_at(f, kind, name, last, after_attr(a), rest);
            assert(full.drop_last() =~= list);
            assert(last.drop_last() =~= list);
            let m = Machine {
                state: after_value(v.kind),
                attr_value: meaning(v.bits, es),
                ..g2.m
            };
            assert(g2.now(m, rest) =~= h);
        },
    }
}

/// Reading the beginning of a tag, with the first letter of its name.
#[verifier::spinoff_prover]
#[verifier::rlimit(40)]
proof fn lemma_tag_begins(
    f: Flat,
    t: TagText,
    rest: Seq<char>,
    answers: Seq<Option<State>>,
)
    requires
        f.wf(),
        f.m.idle(),
        f.m.state == State::Data,
        t.fits(f.m.entities),
        may_answer(answers),
    ensures
        ({
            let h = in_tag_at(
                f,
                t.kind,
                lower_text(t.name.take(1)),
                Seq::empty(),
                State::TagName,
                t.name.skip(1) + rest,
            );
            &&& h.wf()
            &&& flat_run(f.now(f.m, t.start() + (t.name + rest)), answers) == flat_run(h, answers)
        }),
{
    broadcast use group_flat;

    let a = first_answer(answers);
    let r = t.name + rest;
    let c = t.name[0];
    let end = t.name.skip(1) + rest;
    let f0 = f.now(f.m, t.start() + r);
    let s = match t.kind {
        TagKind::StartTag => State::TagOpen,
        TagKind::EndTag => State::EndTagOpen,
    };
    assert(on_char(f.m, '<', a) == f.m.to(State::TagOpen)) by {
        reveal(on_char);
    }
    match t.kind {
        TagKind::StartTag => {
            lemma_move(f0, '<', State::TagOpen, r, answers);
        },
        TagKind::EndTag => {
            assert(t.start() + r =~= seq!['<'] + (seq!['/'] + r));
            lemma_move(f0, '<', State::TagOpen, seq!['/'] + r, answers);
            let f1 = f.now(f.m.to(State::TagOpen), seq!['/'] + r);
            assert(on_char(f1.m, '/', a) == f1.m.to(State::EndTagOpen)) by {
                reveal(on_char);
            }
            lemma_move(f1, '/', State::EndTagOpen, r, answers);
            assert(f1.m.to(State::EndTagOpen) == f.m.to(s));
        },
    }
    let g = f.now(f.m.to(s), r);
    assert(r[0] == c);
    assert(r.drop_first() =~= end);
    let m = g.m.create_tag(t.kind, lower(c)).to(State::TagName);
    assert(on_char(g.m, c, a) == m) by {
        reveal(on_char);
    }
    lemma_read_on(g, answers);
    assert(lower_text(t.name.take(1)) =~= seq![lower(c)]);
    let h = in_tag_at(f, t.kind, seq![lower(c)], Seq::empty(), State::TagName, end);
    assert(f.m.attr_name =~= Seq::<char>::empty());
    assert(f.m.attr_value =~= Seq::<char>::empty());
    assert(f.m.log =~= Seq::<SinkEvent>::empty());
    assert(f.out + Seq::<SinkEvent>::empty() =~= f.out);
    assert(g.then_with(m, end) =~= h);
}

/// Reading on in the name of a tag, from its `k`th character on.
#[verifier::spinoff_prover]
#[verifier::rlimit(40)]
proof fn lemma_tag_name(
    f: Flat,
    t: TagText,
    k: int,
    rest: Seq<char>,
    answers: Seq<Option<State>>,
)
    requires
        0 < k <= t.name.len(),
        in_tag_at(
            f,
            t.kind,
            lower_text(t.name.take(k)),
            Seq::empty(),
            State::TagName,
            t.name.skip(k) + rest,
        ).wf(),
        f.m.idle(),
        t.fits(f.m.entities),
        may_answer(answers),
    ensures
        ({
            let h = in_tag_at(f, t.kind, lower_text(t.name), Seq::empty(), State::TagName, rest);
            &&& h.wf()
            &&& flat_run(
                in_tag_at(
                    f,
                    t.kind,
                    lower_text(t.name.take(k)),
                    Seq::empty(),
                    State::TagName,
                    t.name.skip(k) + rest,
                ),
                answers,
            ) == flat_run(h, answers)
        }),
    decreases t.name.len() - k,
{
    broadcast use group_flat;

    if k == t.name.len() {
        assert(t.name.take(k) =~= t.name);
        assert(t.name.skip(k) + rest =~= rest);
    } else {
        let c = t.name[k];
        let more = t.name.skip(k + 1) + rest;
        let g = in_tag_at(
            f,
            t.kind,
            lower_text(t.name.take(k)),
            Seq::empty(),
            State::TagName,
            t.name.skip(k) + rest,
        );
        let h = in_tag_at(
            f,
            t.kind,
            lower_text(t.name.take(k + 1)),
            Seq::empty(),
            State::TagName,
            more,
        );
        assert(g.rest[0] == c);
        assert(g.rest.drop_first() =~= more);
        assert(lower_text(t.name.take(k)).push(lower(c)) =~= lower_text(t.name.take(k + 1)));
        let m = g.m.push_tag(lower(c));
        assert(on_char(g.m, c, first_answer(answers)) == m) by {
            reveal(on_char);
        }
        lemma_read_on(g, answers);
        assert(g.m.log =~= Seq::<SinkEvent>::empty());
        assert(g.out + Seq::<SinkEvent>::empty() =~= g.out);
        assert(g.then_with(m, more) =~= h);
        lemma_tag_name(f, t, k + 1, rest, answers);
    }
}

/// The state after attributes, if there are any.
spec fn after_attrs(attrs: Seq<AttrText>, state: State) -> State {
    if attrs.len() == 0 {
        state
    } else {
        after_attr(attrs.last())
    }
}

/// Reading attributes.
proof fn lemma_attrs(
    f: Flat,
    kind: TagKind,
    name: Seq<char>,
    list: Seq<AttributeView>,
    state: State,
    attrs: Seq<AttrText>,
    rest: Seq<char>,
    answers: Seq<Option<State>>,
)
    requires
        in_tag_at(f, kind, name, list, state, attrs_source(attrs) + rest).wf(),
        f.m.idle(),
        takes_gap(state),
        state != State::BeforeAttributeValue,
        attrs_fit(attrs, f.m.entities, rest),
        list.len() > 0 ==> list.last().name.len() > 0,
        may_answer(answers),
    ensures
        ({
            let h = in_tag_at(
                f,
                kind,
                name,
                list + attrs_meaning(attrs, f.m.entities),
                after_attrs(attrs, state),
                rest,
            );
            &&& h.wf()
            &&& flat_run(
                in_tag_at(f, kind, name, list, state, attrs_source(attrs) + rest),
                answers,
            ) == flat_run(h, answers)
        }),
    decreases attrs.len(),
{
    let es = f.m.entities;
    if attrs.len() == 0 {
        assert(attrs_source(attrs) + rest =~= rest);
        assert(list + attrs_meaning(attrs, es) =~= list);
    } else {
        let a = attrs[0];
        let more = attrs.drop_first();
        let r = attrs_source(more) + rest;
        assert(attrs_source(attrs) + rest =~= a.source() + r);
        lemma_attr(f, kind, name, list, state, a, r, answers);
        lemma_attrs(
            f,
            kind,
            name,
            list.push(a.meaning(es)),
            after_attr(a),
            more,
            rest,
            answers,
        );
        assert(list.push(a.meaning(es)) + attrs_meaning(more, es) =~= list + attrs_meaning(
            attrs,
            es,
        ));
        if more.len() > 0 {
            assert(more.last() == attrs.last());
        } else {
            assert(attrs.last() == a);
        }
    }
}

/// After a tag: the machine has forgotten the tag, but for the name of a start tag, and is in
/// the data state, or in the one that the sink has asked for.
pub open spec fn tagged(f: Flat, t: TagText, answer: Option<State>) -> Flat {
    let tag = t.meaning(f.m.entities);
    Flat {
        m: Machine {
            state: match (t.kind, answer) {
                (TagKind::StartTag, Some(s)) => s,
                _ => State::Data,
            },
            tag_kind: t.kind,
            tag_name: Seq::empty(),
            self_closing: t.closed,
            attrs: Seq::empty(),
            last_start_tag: match t.kind {
                TagKind::StartTag => Some(tag.name),
                TagKind::EndTag => f.m.last_start_tag,
            },
            ..f.m
        },
        out: f.out + t.events(f.m.entities, answer),
        rest: Seq::empty(),
        ..f
    }
}

/// Reading the `>` at the end of a tag.
#[verifier::spinoff_prover]
#[verifier::rlimit(60)]
proof fn lemma_tag_emitted(f: Flat, t: TagText, state: State, answers: Seq<Option<State>>)
    requires
        ({
            let list = attrs_meaning(t.attrs, f.m.entities);
            &&& in_tag_at(f, t.kind, lower_text(t.name), list, state, seq!['>']).wf()
            &&& list.len() > 0 ==> list.last().name.len() > 0
        }),
        f.m.idle(),
        !f.at_eof,
        t.closed ==> state == State::SelfClosingStartTag,
        !t.closed ==> takes_gap(state) && state != State::BeforeAttributeValue,
        may_answer(answers),
    ensures
        flat_run(
            in_tag_at(
                f,
                t.kind,
                lower_text(t.name),
                attrs_meaning(t.attrs, f.m.entities),
                state,
                seq!['>'],
            ),
            answers,
        ) == tagged(f, t, first_answer(answers)),
{
    broadcast use group_flat;

    let es = f.m.entities;
    let a = first_answer(answers);
    let list = attrs_meaning(t.attrs, es);
    let name = lower_text(t.name);
    let g = in_tag_at(f, t.kind, name, list, state, seq!['>']);
    let goal = tagged(f, t, a);
    let none = Seq::<SinkEvent>::empty();
    let empty = Seq::<char>::empty();
    let m0 = if t.closed {
        g.m.set_self_closing()
    } else {
        g.m
    };
    let m = m0.emit_tag(State::Data, a);
    assert(on_char(g.m, '>', a) == m) by {
        reveal(on_char);
    }
    assert(g.rest.drop_first() =~= empty);
    assert(g.m.log =~= none);
    lemma_read_one(g, answers);
    lemma_few_ones(list.drop_last());
    lemma_some_ones(list);
    assert(repeated(Seq::<AttributeView>::empty()) =~= none);
    assert(list =~= Seq::<AttributeView>::empty() || list.len() > 0);
    if list.len() > 0 {
        let done = first_ones(list.drop_last());
        if has_attr(done, list.last().name) {
            assert(repeated(list) =~= repeated(list.drop_last()).push(error("Duplicate attribute"@)));
        } else {
            assert(repeated(list) =~= repeated(list.drop_last()));
        }
    }
    let h = g.then_with(m, empty);
    let done = m0.to(State::Data).finish_attr();
    assert(done.attrs =~= first_ones(list));
    assert(done.attr_name =~= empty && f.m.attr_name =~= empty);
    assert(done.attr_value =~= empty && f.m.attr_value =~= empty);
    assert(done.tag() =~= t.meaning(es));
    assert(h.out =~= goal.out);
    assert(h.m =~= goal.m);
    if t.kind == TagKind::StartTag {
        assert(goal.out.last() is Asked);
        assert(goal.out.len() > g.out.len());
    } else {
        assert(goal.out.last() is Token);
    }
    lemma_stop(h, more_answers(answers));
    lemma_stop(h, answers);
}

/// Where there are attributes, there are first ones.
proof fn lemma_some_ones(list: Seq<AttributeView>)
    ensures
        first_ones(list).len() == 0 <==> list.len() == 0,
    decreases list.len(),
{
    if list.len() > 0 {
        lemma_some_ones(list.drop_last());
    }
}

/// Reading the end of a tag.
#[verifier::spinoff_prover]
#[verifier::rlimit(40)]
proof fn lemma_tag_ends(f: Flat, t: TagText, state: State, answers: Seq<Option<State>>)
    requires
        ({
            let list = attrs_meaning(t.attrs, f.m.entities);
            &&& in_tag_at(f, t.kind, lower_text(t.name), list, state, t.end()).wf()
            &&& list.len() > 0 ==> list.last().name.len() > 0
        }),
        f.m.idle(),
        !f.at_eof,
        takes_gap(state),
        state != State::BeforeAttributeValue,
        blank(t.gap),
        t.closed && t.gap.len() == 0 ==> state != State::AttributeValue(AttrValueKind::Unquoted),
        may_answer(answers),
    ensures
        flat_run(
            in_tag_at(
                f,
                t.kind,
                lower_text(t.name),
                attrs_meaning(t.attrs, f.m.entities),
                state,
                t.end(),
            ),
            answers,
        ) == tagged(f, t, first_answer(answers)),
{
    let list = attrs_meaning(t.attrs, f.m.entities);
    let name = lower_text(t.name);
    let g = in_tag_at(f, t.kind, name, list, state, t.end());
    let r = if t.closed {
        seq!['/', '>']
    } else {
        seq!['>']
    };
    lemma_gap(g, t.gap, r, answers);
    let s = if t.gap.len() == 0 {
        state
    } else {
        after_gap(state)
    };
    let g1 = in_tag_at(f, t.kind, name, list, s, r);
    assert(g.now(g.m, t.end()) =~= g);
    assert(g.m.to(s) =~= g1.m);
    assert(g.now(g1.m, r) =~= g1);
    if t.closed {
        let closing = State::SelfClosingStartTag;
        assert(r =~= seq!['/'] + seq!['>']);
        assert(on_char(g1.m, '/', first_answer(answers)) == g1.m.to(closing)) by {
            reveal(on_char);
        }
        lemma_move(g1, '/', closing, seq!['>'], answers);
        let g2 = in_tag_at(f, t.kind, name, list, closing, seq!['>']);
        assert(g1.now(g1.m, r) =~= g1);
        assert(g1.now(g1.m.to(closing), seq!['>']) =~= g2);
        lemma_tag_emitted(f, t, closing, answers);
    } else {
        lemma_tag_emitted(f, t, s, answers);
    }
}

/// Every tag that is written without mistakes becomes one tag: of its kind, with its name in
/// small letters, with its attributes in order, each with its own name in small letters and
/// with the value that is written for it, and closing itself if it says so. An attribute whose
/// name has occurred before in the tag is left out and reported, and so are attributes and a
/// `/` in an end tag. Nothing else is emitted. After a start tag the sink is asked for a
/// change of state.
pub proof fn law_tags(cfg: Config, t: TagText, answers: Seq<Option<State>>)
    requires
        cfg.idle(),
        !cfg.at_eof,
        cfg.m.state == State::Data,
        t.fits(cfg.m.entities),
        may_answer(answers),
    ensures
        cfg.fed(t.source(), answers).flat() == tagged(cfg.flat(), t, first_answer(answers)),
{
    let f = cfg.flat();
    let es = cfg.m.entities;
    let text = t.source();
    let rest = attrs_source(t.attrs) + t.end();
    let none = Seq::<AttributeView>::empty();
    let list = attrs_meaning(t.attrs, es);
    assert(text[0] == '<');
    lemma_begin(cfg, text, answers);
    assert(f.wf()) by {
        assert(f.now(f.m, text).wf());
    }
    lemma_tag_begins(f, t, rest, answers);
    lemma_tag_name(f, t, 1, rest, answers);
    lemma_attrs(
        f,
        t.kind,
        lower_text(t.name),
        none,
        State::TagName,
        t.attrs,
        t.end(),
        answers,
    );
    assert(none + list =~= list);
    if t.attrs.len() > 0 {
        lemma_last_fits(t.attrs, es, t.end());
        assert(list.last() == t.attrs.last().meaning(es));
    }
    lemma_tag_ends(f, t, after_attrs(t.attrs, State::TagName), answers);
}

/// The last of attributes that fit has a name.
proof fn lemma_last_fits(attrs: Seq<AttrText>, es: Seq<EntityView>, tail: Seq<char>)
    requires
        attrs.len() > 0,
        attrs_fit(attrs, es, tail),
    ensures
        attrs.last().name.len() > 0,
    decreases attrs.len(),
{
    if attrs.len() > 1 {
        lemma_last_fits(attrs.drop_first(), es, tail);
        assert(attrs.drop_first().last() == attrs.last());
    }
}

/// Is this a name of small letters?
pub open spec fn small(s: Seq<char>) -> bool {
    &&& s.len() > 0
    &&& forall|i: int| 0 <= i < s.len() ==> 'a' <= #[trigger] s[i] <= 'z'
}

/// A name of small letters stays as it is.
proof fn lemma_small(s: Seq<char>)
    requires
        small(s),
    ensures
        lower_text(s) == s,
        is_letter(s[0]),
        forall|i: int| 0 <= i < s.len() ==> name_char(#[trigger] s[i]),
{
    assert forall|i: int| 0 <= i < s.len() implies name_char(#[trigger] s[i]) && lower(s[i])
        == s[i] by {}
    assert(lower_text(s) =~= s);
}

/// Two names after each other in a start tag are two attributes without values, and both
/// of them get into the tag, in order.
#[verifier::spinoff_prover]
pub proof fn law_two_attributes(
    cfg: Config,
    name: Seq<char>,
    g1: Seq<char>,
    n1: Seq<char>,
    g2: Seq<char>,
    n2: Seq<char>,
    answers: Seq<Option<State>>,
)
    requires
        cfg.idle(),
        !cfg.at_eof,
        cfg.m.state == State::Data,
        may_answer(answers),
        small(name),
        small(n1),
        small(n2),
        n1 != n2,
        g1.len() > 0 && blank(g1),
        g2.len() > 0 && blank(g2),
    ensures
        cfg.fed(seq!['<'] + name + g1 + n1 + g2 + n2 + seq!['>'], answers).flat().out
            == cfg.flat().out + seq![
            SinkEvent::Token(
                TokenView::TagToken(
                    TagView {
                        kind: TagKind::StartTag,
                        name,
                        self_closing: false,
                        attrs: seq![
                            AttributeView { name: n1, value: Seq::empty() },
                            AttributeView { name: n2, value: Seq::empty() },
                        ],
                    },
                ),
            ),
            SinkEvent::Asked(first_answer(answers)),
        ],
{
    let es = cfg.m.entities;
    let none = Seq::<char>::empty();
    let x1 = AttrText { gap: g1, name: n1, value: None };
    let x2 = AttrText { gap: g2, name: n2, value: None };
    let attrs = seq![x1, x2];
    let last = seq![x2];
    let t = TagText { kind: TagKind::StartTag, name, attrs, gap: none, closed: false };
    lemma_small(name);
    lemma_small(n1);
    lemma_small(n2);
    assert(attrs.drop_first() =~= last);
    assert(last.drop_first() =~= Seq::<AttrText>::empty());
    assert(attrs_source(last.drop_first()) =~= none);
    assert(attrs_source(last) =~= g2 + n2);
    assert(attrs_source(attrs) =~= g1 + n1 + g2 + n2);
    assert(attrs_fit(last.drop_first(), es, t.end()));
    assert(attrs_fit(last, es, t.end()));
    assert(attrs_fit(attrs, es, t.end()));
    assert(t.source() =~= seq!['<'] + name + g1 + n1 + g2 + n2 + seq!['>']);
    law_tags(cfg, t, answers);
    let m1 = AttributeView { name: n1, value: none };
    let m2 = AttributeView { name: n2, value: none };
    let list = attrs_meaning(attrs, es);
    assert(list =~= seq![m1, m2]);
    assert(first_ones(list) == seq![m1, m2]) by {
        let l1 = seq![m1];
        assert(list.drop_last() =~= l1);
        assert(l1.drop_last() =~= Seq::<AttributeView>::empty());
        assert(first_ones(l1.drop_last()) =~= Seq::<AttributeView>::empty());
        assert(first_ones(l1) =~= l1);
        assert(!has_attr(l1, n2));
        assert(first_ones(list) =~= seq![m1, m2]);
    }
    assert(repeated(list) =~= Seq::<SinkEvent>::empty());
    assert(t.events(es, first_answer(answers)) =~= seq![
        SinkEvent::Token(TokenView::TagToken(t.meaning(es))),
        SinkEvent::Asked(first_answer(answers)),
    ]);
}

/// A reference by name in an attribute value stands for the characters of its entry in the
/// table, with quotes of either kind and without.
#[verifier::spinoff_prover]
pub proof fn law_references_in_values(
    cfg: Config,
    name: Seq<char>,
    attr: Seq<char>,
    kind: AttrValueKind,
    i: int,
    answers: Seq<Option<State>>,
)
    requires
        cfg.idle(),
        !cfg.at_eof,
        cfg.m.state == State::Data,
        may_answer(answers),
        small(name),
        small(attr),
        stands_alone(cfg.m.entities, i),
    ensures
        ({
            let e = cfg.m.entities[i];
            let value = quote(kind) + seq!['&'] + e.name + quote(kind);
            let text = seq!['<'] + name + seq![' '] + attr + seq!['='] + value + seq!['>'];
            cfg.fed(text, answers).flat().out == cfg.flat().out + seq![
                SinkEvent::Token(
                    TokenView::TagToken(
                        TagView {
                            kind: TagKind::StartTag,
                            name,
                            self_closing: false,
                            attrs: seq![AttributeView { name: attr, value: entity_chars(e) }],
                        },
                    ),
                ),
                SinkEvent::Asked(first_answer(answers)),
            ]
        }),
{
    let es = cfg.m.entities;
    let e = es[i];
    let none = Seq::<char>::empty();
    let bits = seq![Bit::Named(e.name)];
    let v = ValueText { before: none, after: none, kind, bits };
    let x = AttrText { gap: seq![' '], name: attr, value: Some(v) };
    let attrs = seq![x];
    let t = TagText { kind: TagKind::StartTag, name, attrs, gap: none, closed: false };
    let state = State::AttributeValue(kind);
    let value = quote(kind) + seq!['&'] + e.name + quote(kind);
    lemma_small(name);
    lemma_small(attr);
    assert(bits.drop_first() =~= Seq::<Bit>::empty());
    assert(source(bits.drop_first()) =~= none);
    assert(meaning(bits.drop_first(), es) =~= none);
    assert(source(bits) =~= seq!['&'] + e.name);
    assert(attrs.drop_first() =~= Seq::<AttrText>::empty());
    assert(attrs_source(attrs.drop_first()) =~= none);
    let tail = quote(kind) + (none + t.end());
    assert(tail.len() > 0);
    lemma_stands_alone(es, i, state, none + tail);
    assert(fit(bits.drop_first(), es, state, tail));
    assert(fit(bits, es, state, tail));
    assert(v.fits(es, none + t.end()));
    assert(attrs_fit(attrs.drop_first(), es, t.end()));
    assert(attrs_fit(attrs, es, t.end()));
    assert(v.source() =~= seq!['='] + value);
    assert(attrs_source(attrs) =~= seq![' '] + attr + seq!['='] + value);
    let text = seq!['<'] + name + seq![' '] + attr + seq!['='] + value + seq!['>'];
    assert(t.source() =~= text);
    law_tags(cfg, t, answers);
    assert(meaning(bits, es) =~= entity_chars(e));
    let m1 = AttributeView { name: attr, value: entity_chars(e) };
    let list = attrs_meaning(attrs, es);
    assert(list =~= seq![m1]);
    assert(first_ones(list) == seq![m1]) by {
        assert(list.drop_last() =~= Seq::<AttributeView>::empty());
        assert(first_ones(list.drop_last()) =~= Seq::<AttributeView>::empty());
        assert(first_ones(list) =~= list);
    }
    assert(repeated(list) =~= Seq::<SinkEvent>::empty());
    assert(t.events(es, first_answer(answers)) =~= seq![
        SinkEvent::Token(TokenView::TagToken(t.meaning(es))),
        SinkEvent::Asked(first_answer(answers)),
    ]);
}

} // verus!
