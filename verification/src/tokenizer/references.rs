//! What character references stand for, in text and in attribute values.

use vstd::prelude::*;
use crate::tokenizer::char_ref::{
    CharRefState, CharRefView, EntityView, FoundView, add_digit, add_to_name, begins_name, cr_eof, cr_go,
    cr_step, cr_take, digit_value, find_entity, new_char_ref, numeric_char,
};
use crate::tokenizer::chunks::{
    Flat, flat_run, lemma_flat_step, lemma_flat_step_char_ref, lemma_may_answer,
};
use crate::tokenizer::config::{Config, is_bad_char};
use crate::tokenizer::interface::SinkEvent;
use crate::tokenizer::laws::may_answer;
use crate::tokenizer::machine::{Machine, takes_char_ref};
use crate::tokenizer::reading::{
    group_flat, lemma_begin, lemma_read_on, lemma_stop, said, said_all,
};
use crate::tokenizer::rules::on_char;
use crate::tokenizer::run::first_answer;
use crate::tokenizer::states::{AttrValueKind, RawKind, State};
use crate::util::str::is_alnum;

verus! {

/// A part of text, or of an attribute value, as it is written.
pub enum Bit {
    /// A character that stands for itself.
    Char(char),
    /// A reference by name. The semicolon is part of the name.
    Named(Seq<char>),
    /// A reference by number, with the `x` before hexadecimal digits, if they are.
    Number(Option<char>, Seq<char>),
}

/// The value of a digit.
pub open spec fn worth(c: char) -> nat {
    if '0' <= c <= '9' {
        (c as nat - '0' as nat) as nat
    } else if 'a' <= c <= 'f' {
        (c as nat - 'a' as nat + 10) as nat
    } else {
        (c as nat - 'A' as nat + 10) as nat
    }
}

/// Is `c` a digit, hexadecimal or decimal?
pub open spec fn is_digit(c: char, hex: bool) -> bool {
    '0' <= c <= '9' || hex && ('a' <= c <= 'f' || 'A' <= c <= 'F')
}

/// The base of a number.
pub open spec fn base_of(hex: bool) -> nat {
    if hex {
        16
    } else {
        10
    }
}

/// The number that digits write.
pub open spec fn number(digits: Seq<char>, hex: bool) -> nat
    decreases digits.len(),
{
    if digits.len() == 0 {
        0
    } else {
        number(digits.drop_last(), hex) * base_of(hex) + worth(digits.last())
    }
}

/// Is `n` the number of a character that may be referred to without an error? Control
/// characters but for some white space, surrogates and characters that are for no use in
/// text may not.
pub open spec fn is_clean(n: nat) -> bool {
    &&& n <= 0x10FFFF
    &&& n == 0x09 || n == 0x0A || n == 0x0C || 0x20 <= n <= 0x7E || 0xA0 <= n
    &&& !(0xD800 <= n <= 0xDFFF)
    &&& !(0xFDD0 <= n <= 0xFDEF)
    &&& n % 0x10000 < 0xFFFE
}

/// The characters that an entry of the table stands for.
pub open spec fn entity_chars(e: EntityView) -> Seq<char> {
    match e.second {
        Some(d) => seq![e.first, d],
        None => seq![e.first],
    }
}

impl Bit {
    /// How the part is written.
    pub open spec fn source(self) -> Seq<char> {
        match self {
            Bit::Char(c) => seq![c],
            Bit::Named(name) => seq!['&'] + name,
            Bit::Number(Some(x), digits) => seq!['&', '#', x] + digits + seq![';'],
            Bit::Number(None, digits) => seq!['&', '#'] + digits + seq![';'],
        }
    }

    /// The characters that the part stands for.
    pub open spec fn meaning(self, es: Seq<EntityView>) -> Seq<char> {
        match self {
            Bit::Char(c) => seq![c],
            Bit::Named(name) => entity_chars(find_entity(es, name)->0),
            Bit::Number(x, digits) => seq![number(digits, x is Some) as char],
        }
    }

    /// May the part stand in the state `s`, before `tail`?
    pub open spec fn fits(self, es: Seq<EntityView>, s: State, tail: Seq<char>) -> bool {
        match self {
            Bit::Char(c) => ordinary(s, c),
            Bit::Named(name) => {
                &&& name.len() >= 2
                &&& name.last() == ';'
                &&& forall|i: int| 0 <= i < name.len() - 1 ==> is_alnum(#[trigger] name[i])
                &&& find_entity(es, name) is Some
                &&& tail.len() > 0
                &&& !begins_name(es, name.push(tail[0]))
            },
            Bit::Number(x, digits) => {
                &&& x matches Some(c) ==> c == 'x' || c == 'X'
                &&& digits.len() > 0
                &&& forall|i: int| 0 <= i < digits.len() ==> is_digit(#[trigger] digits[i], x is Some)
                &&& is_clean(number(digits, x is Some))
            },
        }
    }
}

/// Does `c` stand for itself in the state `s`, and is it no mistake there?
pub open spec fn ordinary(s: State, c: char) -> bool {
    &&& c != '\r' && c != '\0' && c != '&'
    &&& match s {
        State::AttributeValue(AttrValueKind::DoubleQuoted) => c != '"',
        State::AttributeValue(AttrValueKind::SingleQuoted) => c != '\'',
        State::AttributeValue(AttrValueKind::Unquoted) => c != '\t' && c != '\n' && c != '\x0C'
            && c != ' ' && c != '>' && c != '"' && c != '\'' && c != '<' && c != '=' && c != '`',
        _ => c != '<',
    }
}

/// How parts are written.
pub open spec fn source(bits: Seq<Bit>) -> Seq<char>
    decreases bits.len(),
{
    if bits.len() == 0 {
        Seq::empty()
    } else {
        bits[0].source() + source(bits.drop_first())
    }
}

/// The characters that parts stand for.
pub open spec fn meaning(bits: Seq<Bit>, es: Seq<EntityView>) -> Seq<char>
    decreases bits.len(),
{
    if bits.len() == 0 {
        Seq::empty()
    } else {
        bits[0].meaning(es) + meaning(bits.drop_first(), es)
    }
}

/// May the parts stand in the state `s`, before `tail`?
pub open spec fn fit(bits: Seq<Bit>, es: Seq<EntityView>, s: State, tail: Seq<char>) -> bool
    decreases bits.len(),
{
    bits.len() > 0 ==> {
        let rest = bits.drop_first();
        &&& bits[0].fits(es, s, source(rest) + tail)
        &&& fit(rest, es, s, tail)
    }
}

impl Flat {
    /// After characters have been put where characters of this state go: among the text, or
    /// at the end of the attribute value.
    pub open spec fn with_chars(self, chars: Seq<char>, rest: Seq<char>) -> Flat {
        match self.m.state {
            State::AttributeValue(_) => Flat {
                m: Machine { attr_value: self.m.attr_value + chars, ..self.m },
                rest,
                ..self
            },
            _ => Flat { out: self.out + said_all(chars), rest, ..self },
        }
    }
}

/// One look at the input inside a character reference.
proof fn lemma_look(f: Flat, answers: Seq<Option<State>>)
    requires
        f.wf(),
        f.m.char_ref is Some,
        f.rest.len() > 0,
        may_answer(answers),
    ensures
        f.step_char_ref().0.wf(),
        flat_run(f, answers) == flat_run(f.step_char_ref().0, answers),
{
    let a = first_answer(answers);
    lemma_may_answer(answers);
    lemma_flat_step(f, a, a);
    lemma_flat_step_char_ref(f, a);
    reveal(Flat::advance);
}

/// A name that is found is a name of the table.
proof fn lemma_found(es: Seq<EntityView>, name: Seq<char>)
    requires
        find_entity(es, name) is Some,
    ensures
        exists|i: int| 0 <= i < es.len() && (#[trigger] es[i]).name == name,
    decreases es.len(),
{
    if es[0].name != name {
        lemma_found(es.drop_first(), name);
        let i = choose|i: int|
            0 <= i < es.drop_first().len() && (#[trigger] es.drop_first()[i]).name == name;
        assert(es[i + 1].name == name);
    }
}

/// The beginning of a name of the table begins a name.
proof fn lemma_begins(es: Seq<EntityView>, name: Seq<char>, k: int)
    requires
        find_entity(es, name) is Some,
        0 <= k <= name.len(),
    ensures
        begins_name(es, name.take(k)),
{
    lemma_found(es, name);
    let i = choose|i: int| 0 <= i < es.len() && (#[trigger] es[i]).name == name;
    assert(name.take(k).is_prefix_of(es[i].name));
}

/// The machine without its character reference is the machine before it.
proof fn lemma_around_ref(m: Machine, t: CharRefView)
    requires
        m.between(),
        m.seen == '\0',
    ensures
        (Machine { char_ref: None, ..with_ref(m, t) }) == m,
        forall|c: char| #[trigger] m.ate(c) == m,
{
}

/// The machine while the reference `t` is being read.
spec fn with_ref(m: Machine, t: CharRefView) -> Machine {
    Machine { char_ref: Some(t), ..m }
}

impl Flat {
    /// While the reference `t` is being read.
    spec fn reading(self, t: CharRefView, rest: Seq<char>) -> Flat {
        self.now(with_ref(self.m, t), rest)
    }
}

/// A look that leaves the reference unfinished.
proof fn lemma_look_on(
    f: Flat,
    t: CharRefView,
    rest: Seq<char>,
    t2: CharRefView,
    rest2: Seq<char>,
    answers: Seq<Option<State>>,
)
    requires
        f.m.between(),
        f.reading(t, rest).wf(),
        rest.len() > 0,
        may_answer(answers),
        cr_step(t, f.m, rest[0]) == cr_take(t2, f.m, rest[0]) && rest2 == rest.drop_first()
            || cr_step(t, f.m, rest[0]) == cr_go(t2, f.m) && rest2 == rest,
    ensures
        f.reading(t2, rest2).wf(),
        flat_run(f.reading(t, rest), answers) == flat_run(f.reading(t2, rest2), answers),
{
    broadcast use group_flat;

    let g = f.reading(t, rest);
    lemma_look(g, answers);
    lemma_around_ref(f.m, t);
    assert(f.out + Seq::<SinkEvent>::empty() =~= f.out);
    assert(f.m.log =~= Seq::<SinkEvent>::empty());
    assert(Seq::<char>::empty() + rest2 =~= rest2);
    let h = f.reading(t2, rest2);
    assert(g.step_char_ref().0 =~= h);
}

/// A look that finishes the reference, without an error.
proof fn lemma_look_done(
    f: Flat,
    t: CharRefView,
    rest: Seq<char>,
    chars: Seq<char>,
    rest2: Seq<char>,
    answers: Seq<Option<State>>,
)
    requires
        f.m.between(),
        f.reading(t, rest).wf(),
        rest.len() > 0,
        may_answer(answers),
        1 <= chars.len() <= 2,
        ({
            let s = cr_step(t, f.m, rest[0]);
            &&& s.m == f.m
            &&& s.result == Some(chars)
            &&& rest2 == s.back + (if s.eat {
                rest.drop_first()
            } else {
                rest
            })
        }),
    ensures
        f.with_chars(chars, rest2).wf(),
        flat_run(f.reading(t, rest), answers) == flat_run(f.with_chars(chars, rest2), answers),
{
    broadcast use group_flat;

    let g = f.reading(t, rest);
    lemma_look(g, answers);
    lemma_around_ref(f.m, t);
    assert(f.m.log =~= Seq::<SinkEvent>::empty());
    let m = f.m.put_char_ref(chars);
    let h = f.with_chars(chars, rest2);
    assert(g.step_char_ref().0 == g.then_with(m, rest2));
    if chars.len() == 1 {
        assert(said_all(chars) =~= seq![said(chars[0])]);
        assert(f.m.attr_value + chars =~= f.m.attr_value.push(chars[0]));
    } else {
        assert(said_all(chars) =~= seq![said(chars[0]), said(chars[1])]);
        assert(f.m.attr_value + chars =~= f.m.attr_value.push(chars[0]).push(chars[1]));
    }
    assert(f.out + Seq::<SinkEvent>::empty() =~= f.out);
    assert(g.then_with(m, rest2).out =~= h.out);
    assert(g.then_with(m, rest2).m =~= h.m);
}

/// Reading the name of a reference, from its `k`th character on.
#[verifier::spinoff_prover]
#[verifier::rlimit(30)]
proof fn lemma_named(
    f: Flat,
    t: CharRefView,
    name: Seq<char>,
    k: int,
    tail: Seq<char>,
    answers: Seq<Option<State>>,
)
    requires
        f.m.between(),
        0 <= k <= name.len(),
        f.reading(t, name.skip(k) + tail).wf(),
        Bit::Named(name).fits(f.m.entities, f.m.state, tail),
        t.state == CharRefState::Named,
        t.name == name.take(k),
        k == name.len() ==> t.found == Some(
            FoundView {
                len: name.len(),
                first: (find_entity(f.m.entities, name)->0).first,
                second: (find_entity(f.m.entities, name)->0).second,
            },
        ),
        may_answer(answers),
    ensures
        f.with_chars(entity_chars(find_entity(f.m.entities, name)->0), tail).wf(),
        flat_run(f.reading(t, name.skip(k) + tail), answers) == flat_run(
            f.with_chars(entity_chars(find_entity(f.m.entities, name)->0), tail),
            answers,
        ),
    decreases name.len() - k,
{
    let es = f.m.entities;
    let e = find_entity(es, name)->0;
    let rest = name.skip(k) + tail;
    if k < name.len() {
        let c = name[k];
        let t2 = add_to_name(t, f.m, c);
        assert(rest[0] == c);
        assert(rest.drop_first() =~= name.skip(k + 1) + tail);
        assert(name.take(k).push(c) =~= name.take(k + 1));
        assert(name.take(name.len() as int) =~= name);
        lemma_begins(es, name, k + 1);
        lemma_look_on(f, t, rest, t2, name.skip(k + 1) + tail, answers);
        lemma_named(f, t2, name, k + 1, tail, answers);
    } else {
        assert(rest =~= tail);
        assert(t.name =~= name);
        let c = tail[0];
        let s = cr_step(t, f.m, c);
        assert(name.skip(name.len() as int) + rest =~= tail);
        assert(s.result == Some(entity_chars(e)));
        lemma_look_done(f, t, rest, entity_chars(e), tail, answers);
    }
}

/// A number with fewer digits is no larger.
proof fn lemma_number_grows(digits: Seq<char>, k: int, hex: bool)
    requires
        0 <= k <= digits.len(),
    ensures
        number(digits.take(k), hex) <= number(digits, hex),
    decreases digits.len() - k,
{
    if k == digits.len() {
        assert(digits.take(k) =~= digits);
    } else {
        assert(digits.take(k + 1).drop_last() =~= digits.take(k));
        lemma_number_grows(digits, k + 1, hex);
        let n = number(digits.take(k), hex);
        assert(n * base_of(hex) >= n) by (nonlinear_arith)
            requires
                base_of(hex) >= 1,
        ;
    }
}

/// The last sixteen bits of a number, as a remainder.
proof fn lemma_clean(n: u32)
    requires
        is_clean(n as nat),
    ensures
        n & 0xFFFE != 0xFFFE,
{
    assert(n % 0x10000 < 0xFFFE ==> n & 0xFFFE != 0xFFFE) by (bit_vector);
}

/// What a digit is worth, as the reference reads it.
proof fn lemma_digit(c: char, hex: bool)
    requires
        is_digit(c, hex),
    ensures
        digit_value(c, base_of(hex) as u32) == Some(worth(c) as u32),
        worth(c) < base_of(hex),
{
}

/// Reading the digits of a reference, from the `k`th on, and the semicolon after them.
#[verifier::spinoff_prover]
#[verifier::rlimit(30)]
proof fn lemma_digits(
    f: Flat,
    t: CharRefView,
    digits: Seq<char>,
    k: int,
    tail: Seq<char>,
    answers: Seq<Option<State>>,
)
    requires
        f.m.between(),
        0 <= k <= digits.len(),
        f.reading(t, digits.skip(k) + seq![';'] + tail).wf(),
        Bit::Number(t.hex_marker, digits).fits(f.m.entities, f.m.state, tail),
        t.state == CharRefState::Numeric,
        !t.num_too_big,
        t.num == number(digits.take(k), t.hex_marker is Some),
        t.seen_digit == (k > 0),
        may_answer(answers),
    ensures
        ({
            let n = number(digits, t.hex_marker is Some);
            &&& f.with_chars(seq![n as char], tail).wf()
            &&& flat_run(f.reading(t, digits.skip(k) + seq![';'] + tail), answers) == flat_run(
                f.with_chars(seq![n as char], tail),
                answers,
            )
        }),
    decreases digits.len() - k,
{
    let hex = t.hex_marker is Some;
    let n = number(digits, hex);
    let rest = digits.skip(k) + seq![';'] + tail;
    if k < digits.len() {
        let c = digits[k];
        assert(rest[0] == c);
        assert(rest.drop_first() =~= digits.skip(k + 1) + seq![';'] + tail);
        assert(digits.take(k + 1).drop_last() =~= digits.take(k));
        assert(digits.take(k + 1).last() == c);
        lemma_number_grows(digits, k + 1, hex);
        assert(is_digit(c, hex));
        lemma_digit(c, hex);
        let v = worth(c) as u32;
        let t2 = add_digit(t, v);
        assert(t.num * t.base() + v == number(digits.take(k + 1), hex));
        assert(t2.num == number(digits.take(k + 1), hex));
        lemma_look_on(f, t, rest, t2, digits.skip(k + 1) + seq![';'] + tail, answers);
        lemma_digits(f, t2, digits, k + 1, tail, answers);
    } else {
        assert(digits.take(k) =~= digits);
        let rest2 = seq![';'] + tail;
        assert(rest =~= rest2);
        assert(rest[0] == ';');
        let t2 = CharRefView { state: CharRefState::NumericSemicolon, ..t };
        assert(digit_value(';', t.base()) is None);
        lemma_look_on(f, t, rest, t2, rest, answers);
        lemma_clean(n as u32);
        lemma_around_ref(f.m, t2);
        assert(f.m.ate(';') == f.m);
        assert(numeric_char(t.num, false) == (n as char, false));
        assert(Seq::<char>::empty() + rest.drop_first() =~= tail);
        lemma_look_done(f, t2, rest, seq![n as char], tail, answers);
    }
}

/// The character that cannot begin a reference in this state.
spec fn addnl_of(s: State) -> Option<char> {
    match s {
        State::AttributeValue(AttrValueKind::DoubleQuoted) => Some('"'),
        State::AttributeValue(AttrValueKind::SingleQuoted) => Some('\''),
        State::AttributeValue(AttrValueKind::Unquoted) => Some('>'),
        _ => None,
    }
}

/// Reading the ampersand of a reference.
#[verifier::spinoff_prover]
#[verifier::rlimit(30)]
proof fn lemma_ampersand(f: Flat, rest: Seq<char>, answers: Seq<Option<State>>)
    requires
        f.wf(),
        f.m.between(),
        takes_char_ref(f.m.state),
        may_answer(answers),
    ensures
        f.reading(new_char_ref(addnl_of(f.m.state)), rest).wf(),
        flat_run(f.now(f.m, seq!['&'] + rest), answers) == flat_run(
            f.reading(new_char_ref(addnl_of(f.m.state)), rest),
            answers,
        ),
{
    broadcast use group_flat;

    let g = f.now(f.m, seq!['&'] + rest);
    let h = f.reading(new_char_ref(addnl_of(f.m.state)), rest);
    reveal(on_char);
    assert(f.out + Seq::<SinkEvent>::empty() =~= f.out);
    assert(f.m.log =~= Seq::<SinkEvent>::empty());
    assert(g.rest.drop_first() =~= rest);
    lemma_read_on(g, answers);
    assert(g.then_with(on_char(g.m, '&', first_answer(answers)), rest) =~= h);
}

/// Reading a character that stands for itself.
#[verifier::spinoff_prover]
#[verifier::rlimit(30)]
proof fn lemma_ordinary(f: Flat, c: char, tail: Seq<char>, answers: Seq<Option<State>>)
    requires
        f.wf(),
        f.m.between(),
        takes_char_ref(f.m.state),
        ordinary(f.m.state, c),
        may_answer(answers),
    ensures
        f.with_chars(seq![c], tail).wf(),
        flat_run(f.now(f.m, seq![c] + tail), answers) == flat_run(
            f.with_chars(seq![c], tail),
            answers,
        ),
{
    broadcast use group_flat;

    let g = f.now(f.m, seq![c] + tail);
    reveal(on_char);
    assert(f.out + Seq::<SinkEvent>::empty() =~= f.out);
    assert(f.m.log =~= Seq::<SinkEvent>::empty());
    assert(g.rest.drop_first() =~= tail);
    lemma_read_on(g, answers);
    assert(said_all(seq![c]) =~= seq![said(c)]);
    assert(f.m.attr_value + seq![c] =~= f.m.attr_value.push(c));
    let m = on_char(g.m, c, first_answer(answers));
    let h = f.with_chars(seq![c], tail);
    assert(g.then_with(m, tail).out =~= h.out);
    assert(g.then_with(m, tail).m =~= h.m);
}

/// Reading one part.
#[verifier::spinoff_prover]
#[verifier::rlimit(30)]
proof fn lemma_bit(f: Flat, bit: Bit, tail: Seq<char>, answers: Seq<Option<State>>)
    requires
        f.wf(),
        f.m.between(),
        takes_char_ref(f.m.state),
        bit.fits(f.m.entities, f.m.state, tail),
        may_answer(answers),
    ensures
        f.with_chars(bit.meaning(f.m.entities), tail).wf(),
        flat_run(f.now(f.m, bit.source() + tail), answers) == flat_run(
            f.with_chars(bit.meaning(f.m.entities), tail),
            answers,
        ),
{
    let text = bit.source() + tail;
    let t = new_char_ref(addnl_of(f.m.state));
    match bit {
        Bit::Char(c) => {
            lemma_ordinary(f, c, tail, answers);
        },
        Bit::Named(name) => {
            let rest = name + tail;
            assert(text =~= seq!['&'] + rest);
            lemma_ampersand(f, rest, answers);
            assert(is_alnum(name[0]));
            assert(rest[0] == name[0]);
            let t2 = CharRefView { state: CharRefState::Named, ..t };
            assert(rest =~= name.skip(0) + tail);
            assert(t2.name =~= name.take(0));
            lemma_look_on(f, t, rest, t2, rest, answers);
            lemma_named(f, t2, name, 0, tail, answers);
        },
        Bit::Number(x, digits) => {
            let end = digits + seq![';'] + tail;
            let rest2 = match x {
                Some(c) => seq![c] + end,
                None => end,
            };
            let rest = seq!['#'] + rest2;
            assert(text =~= seq!['&'] + rest);
            lemma_ampersand(f, rest, answers);
            let t2 = CharRefView { state: CharRefState::Octothorpe, ..t };
            assert(rest.drop_first() =~= rest2);
            assert(rest[0] == '#');
            lemma_look_on(f, t, rest, t2, rest2, answers);
            let t3 = CharRefView { state: CharRefState::Numeric, hex_marker: x, ..t };
            assert(digits.skip(0) + seq![';'] + tail =~= end);
            assert(digits.take(0) =~= Seq::<char>::empty());
            if x is Some {
                assert(rest2[0] == x->0);
                assert(rest2.drop_first() =~= end);
            } else {
                assert(rest2[0] == digits[0]);
                assert(is_digit(digits[0], false));
            }
            lemma_look_on(f, t2, rest2, t3, end, answers);
            lemma_digits(f, t3, digits, 0, tail, answers);
        },
    }
}

/// Reading parts.
#[verifier::spinoff_prover]
pub proof fn lemma_bits(f: Flat, bits: Seq<Bit>, tail: Seq<char>, answers: Seq<Option<State>>)
    requires
        f.wf(),
        f.m.between(),
        takes_char_ref(f.m.state),
        fit(bits, f.m.entities, f.m.state, tail),
        may_answer(answers),
    ensures
        f.with_chars(meaning(bits, f.m.entities), tail).wf(),
        flat_run(f.now(f.m, source(bits) + tail), answers) == flat_run(
            f.with_chars(meaning(bits, f.m.entities), tail),
            answers,
        ),
    decreases bits.len(),
{
    let es = f.m.entities;
    if bits.len() == 0 {
        assert(source(bits) + tail =~= tail);
        assert(said_all(Seq::<char>::empty()) =~= Seq::<SinkEvent>::empty());
        assert(f.with_chars(meaning(bits, es), tail) =~= f.now(f.m, tail));
    } else {
        let more = bits.drop_first();
        let rest = source(more) + tail;
        assert(source(bits) + tail =~= bits[0].source() + rest);
        lemma_bit(f, bits[0], rest, answers);
        let g = f.with_chars(bits[0].meaning(es), rest);
        assert(g =~= g.now(g.m, rest));
        lemma_bits(g, more, tail, answers);
        let x = bits[0].meaning(es);
        let y = meaning(more, es);
        assert(said_all(x + y) =~= said_all(x) + said_all(y));
        assert(f.out + said_all(x) + said_all(y) =~= f.out + said_all(x + y));
        assert(f.m.attr_value + x + y =~= f.m.attr_value + (x + y));
        assert(g.with_chars(y, tail) =~= f.with_chars(x + y, tail));
    }
}

/// In text, where references are decoded, every character that has no meaning of its own
/// stands for itself, a reference by name stands for the characters of the table, and a
/// reference by number for the character with that number. That is what is emitted, and
/// nothing else changes. The text ends with a character that is no reference, since it is
/// not known before what a reference at the end of the input is.
#[verifier::spinoff_prover]
pub proof fn law_text_is_decoded(cfg: Config, bits: Seq<Bit>, answers: Seq<Option<State>>)
    requires
        cfg.idle(),
        cfg.m.state == State::Data || cfg.m.state == State::RawData(RawKind::Rcdata),
        may_answer(answers),
        bits.len() > 0,
        bits.last() is Char,
        fit(bits, cfg.m.entities, cfg.m.state, Seq::empty()),
        cfg.bom ==> source(bits)[0] != '\u{feff}',
    ensures
        ({
            let f = cfg.flat();
            let post = cfg.fed(source(bits), answers).flat();
            &&& post.out == f.out + said_all(meaning(bits, cfg.m.entities))
            &&& post.m == f.m
            &&& post.rest.len() == 0
        }),
{
    let f = cfg.flat();
    let text = source(bits);
    let none = Seq::<char>::empty();
    assert(text.len() > 0) by {
        assert(bits[0].source().len() > 0);
    }
    lemma_begin(cfg, text, answers);
    assert(text + none =~= text);
    assert(f.wf()) by {
        assert(f.now(f.m, text).wf());
    }
    lemma_bits(f, bits, none, answers);
    lemma_stop(f.with_chars(meaning(bits, f.m.entities), none), answers);
}

/// Looking a name up in the table: what is found is an entry with that name, and where
/// nothing is found there is none.
pub proof fn law_what_is_found_has_the_name(es: Seq<EntityView>, name: Seq<char>)
    ensures
        match find_entity(es, name) {
            Some(e) => e.name == name && es.contains(e),
            None => forall|i: int| 0 <= i < es.len() ==> (#[trigger] es[i]).name != name,
        },
    decreases es.len(),
{
    if es.len() > 0 {
        if es[0].name == name {
            assert(es.contains(es[0]));
        } else {
            let rest = es.drop_first();
            law_what_is_found_has_the_name(rest, name);
            match find_entity(rest, name) {
                Some(e) => {
                    let i = choose|i: int| 0 <= i < rest.len() && rest[i] == e;
                    assert(es[i + 1] == e);
                },
                None => {
                    assert forall|i: int| 0 <= i < es.len() implies (#[trigger] es[i]).name
                        != name by {
                        if i > 0 {
                            assert(rest[i - 1] == es[i]);
                        }
                    }
                },
            }
        }
    }
}

/// Can the name of the entry `i` be written as a reference, whatever comes after it? It ends
/// with a semicolon, and begins no other name of the table.
pub open spec fn stands_alone(es: Seq<EntityView>, i: int) -> bool {
    let name = es[i].name;
    &&& 0 <= i < es.len()
    &&& name.len() >= 2
    &&& name.last() == ';'
    &&& forall|k: int| 0 <= k < name.len() - 1 ==> is_alnum(#[trigger] name[k])
    &&& forall|j: int| 0 <= j < es.len() && name.is_prefix_of((#[trigger] es[j]).name) ==> j == i
}

/// The name of such an entry is a reference that fits everywhere, and stands for the
/// characters of the entry.
pub proof fn lemma_stands_alone(es: Seq<EntityView>, i: int, s: State, tail: Seq<char>)
    requires
        stands_alone(es, i),
        tail.len() > 0,
    ensures
        Bit::Named(es[i].name).fits(es, s, tail),
        Bit::Named(es[i].name).meaning(es) == entity_chars(es[i]),
{
    let name = es[i].name;
    law_what_is_found_has_the_name(es, name);
    match find_entity(es, name) {
        Some(e) => {
            let j = choose|j: int| 0 <= j < es.len() && es[j] == e;
            assert(name.is_prefix_of(es[j].name));
        },
        None => {},
    }
    let longer = name.push(tail[0]);
    if begins_name(es, longer) {
        let j = choose|j: int| 0 <= j < es.len() && longer.is_prefix_of((#[trigger] es[j]).name);
        assert(name =~= es[j].name.take(name.len() as int)) by {
            assert(longer =~= es[j].name.take(longer.len() as int));
            assert forall|k: int| 0 <= k < name.len() implies name[k] == es[j].name[k] by {
                assert(longer[k] == name[k]);
            }
        }
        assert(name.is_prefix_of(es[j].name));
        assert(longer.len() <= es[i].name.len());
    }
}

/// A reference by name in text stands for the characters of its entry in the table, whatever
/// character comes after it.
pub proof fn law_references_in_text(cfg: Config, i: int, c: char, answers: Seq<Option<State>>)
    requires
        cfg.idle(),
        cfg.m.state == State::Data || cfg.m.state == State::RawData(RawKind::Rcdata),
        may_answer(answers),
        stands_alone(cfg.m.entities, i),
        ordinary(cfg.m.state, c),
    ensures
        ({
            let e = cfg.m.entities[i];
            let f = cfg.flat();
            let post = cfg.fed(seq!['&'] + e.name + seq![c], answers).flat();
            &&& post.out == f.out + said_all(entity_chars(e)) + seq![said(c)]
            &&& post.m == f.m
            &&& post.rest.len() == 0
        }),
{
    let es = cfg.m.entities;
    let e = es[i];
    let none = Seq::<char>::empty();
    let bits = seq![Bit::Named(e.name), Bit::Char(c)];
    let last = seq![Bit::Char(c)];
    assert(bits.drop_first() =~= last);
    assert(last.drop_first() =~= Seq::<Bit>::empty());
    assert(source(last.drop_first()) =~= none);
    assert(meaning(last.drop_first(), es) =~= none);
    assert(source(last) =~= seq![c]);
    assert(meaning(last, es) =~= seq![c]);
    assert(source(bits) =~= seq!['&'] + e.name + seq![c]);
    lemma_stands_alone(es, i, cfg.m.state, source(last) + none);
    assert(last[0].fits(es, cfg.m.state, source(last.drop_first()) + none));
    assert(fit(last.drop_first(), es, cfg.m.state, none));
    assert(fit(last, es, cfg.m.state, none));
    assert(fit(bits, es, cfg.m.state, none));
    law_text_is_decoded(cfg, bits, answers);
    assert(meaning(bits, es) =~= entity_chars(e).push(c));
    assert(said_all(meaning(bits, es)) =~= said_all(entity_chars(e)) + seq![said(c)]);
    let f = cfg.flat();
    assert(f.out + said_all(meaning(bits, es)) =~= f.out + said_all(entity_chars(e)) + seq![said(c)]);
}

/// Which character a number stands for: the one with that number, unless there is none with
/// it or it is for control. A number without a character stands for U+FFFD. There is an
/// error exactly if the number is not that of a character that text may hold.
pub proof fn law_numbers(n: u32, too_big: bool)
    ensures
        ({
            let (c, bad) = numeric_char(n, too_big);
            &&& bad <==> too_big || !is_clean(n as nat)
            &&& !bad ==> c as u32 == n
            &&& c != '\0'
            &&& too_big || n == 0 || n > 0x10FFFF || 0xD800 <= n <= 0xDFFF ==> c == '\u{fffd}'
            &&& !too_big && n <= 0x10FFFF && n != 0 && !(0xD800 <= n <= 0xDFFF) && !(0x80 <= n
                <= 0x9F) ==> c as u32 == n
            &&& !too_big && 0x80 <= n <= 0x9F ==> c as u32 == n || 0xA0 <= c as u32 <= 0x2122
        }),
{
    assert((n & 0xFFFE == 0xFFFE) == (n % 0x10000 >= 0xFFFE)) by (bit_vector);
}

/// The characters that are an error in the input are those that are an error as the number of
/// a reference, but for two: U+0000 is dealt with by itself in the input, and a carriage
/// return ends a line there.
pub proof fn law_bad_characters_are_bad_numbers(c: char)
    ensures
        numeric_char(c as u32, false).1 <==> is_bad_char(c) || c == '\0' || c == '\r',
{
    let n = c as u32;
    assert((n & 0xFFFE == 0xFFFE) == (n % 0x10000 >= 0xFFFE)) by (bit_vector);
}

/// Different numbers of characters stand for different characters, unless one of them is a
/// control character.
pub proof fn law_numbers_differ(n: u32, k: u32)
    requires
        0 < n < k <= 0x10FFFF,
        !(0x80 <= n <= 0x9F) && !(0xD800 <= n <= 0xDFFF),
        !(0x80 <= k <= 0x9F) && !(0xD800 <= k <= 0xDFFF),
    ensures
        numeric_char(n, false).0 != numeric_char(k, false).0,
{
    law_numbers(n, false);
    law_numbers(k, false);
}

/// Nothing of what is read for a reference gets lost. While it is being read, the characters
/// that were taken are remembered, up to the first digit of a number. If it turns out to be no
/// reference, all of them are put back. If it is one by name, what was taken after the name is
/// put back. A number takes its digits and a semicolon, if there is one, and nothing else.
#[verifier::spinoff_prover]
#[verifier::rlimit(30)]
pub proof fn law_references_lose_nothing(t: CharRefView, m: Machine, c: char)
    requires
        t.wf(),
    ensures
        ({
            let s = cr_step(t, m, c);
            match s.result {
                None => {
                    &&& s.back.len() == 0
                    &&& s.eat && !s.t.seen_digit ==> s.t.held() == t.held().push(c)
                    &&& s.eat && s.t.seen_digit && t.state == CharRefState::Numeric
                        ==> digit_value(c, t.base()) is Some
                    &&& !s.eat && !s.t.seen_digit ==> s.t.held() == t.held()
                },
                Some(chars) => if chars.len() == 0 {
                    !s.eat && s.back == t.held()
                } else if t.state == CharRefState::Named {
                    &&& !s.eat
                    &&& t.found matches Some(f) && s.back == t.name.skip(f.len as int)
                } else {
                    &&& t.seen_digit
                    &&& s.back.len() == 0
                    &&& s.eat <==> c == ';'
                },
            }
        }),
{
    let s = cr_step(t, m, c);
    assert(Seq::<char>::empty().push('#') =~= seq!['#']);
    assert(seq!['#'].push(c) =~= seq!['#', c]);
    if t.state == CharRefState::Begin {
        assert(t.name =~= Seq::<char>::empty());
    }
}

/// The same at the end of the input.
pub proof fn law_references_lose_nothing_at_the_end(t: CharRefView, m: Machine)
    requires
        t.wf(),
    ensures
        ({
            let s = cr_eof(t, m);
            &&& !s.eat
            &&& s.result matches Some(chars) && {
                if chars.len() == 0 {
                    s.back == t.held()
                } else if t.state == CharRefState::Named {
                    t.found matches Some(f) && s.back == t.name.skip(f.len as int)
                } else {
                    t.seen_digit && s.back.len() == 0
                }
            }
        }),
{
    if t.state == CharRefState::Begin {
        assert(t.name =~= Seq::<char>::empty());
    }
}

/// When a name can go no further, the longest name that was found counts. It stands for the
/// characters of the table, but for one case: in an attribute value, a name without a
/// semicolon is no reference if a letter, a digit or `=` comes after it. Where no name was
/// found, there is no reference.
#[verifier::spinoff_prover]
pub proof fn law_which_names_are_references(t: CharRefView, m: Machine, c: char)
    requires
        t.wf(),
        t.state == CharRefState::Named,
        !is_alnum(c) && c != ';',
    ensures
        ({
            let s = cr_step(t, m, c);
            match t.found {
                None => s.result == Some(Seq::<char>::empty()) && s.m.log == m.log,
                Some(f) => {
                    let next = (t.name.push(c))[f.len as int];
                    let semicolon = t.name[f.len - 1] == ';';
                    let kept = t.addnl_allowed is Some && !semicolon && (next == '=' || is_alnum(
                        next,
                    ));
                    &&& kept ==> s.result == Some(Seq::<char>::empty())
                    &&& !kept ==> (s.result matches Some(chars) && chars.len() > 0 && chars[0]
                        == f.first && (f.second matches Some(d) ==> chars == seq![f.first, d]) && (
                    f.second is None ==> chars == seq![f.first]))
                    &&& !kept && semicolon ==> s.m.log == m.log
                    &&& !kept && !semicolon ==> s.m.log.len() == m.log.len() + 1
                },
            }
        }),
{
}

/// The characters that a reference stands for are put into the attribute value, in order, if
/// one is being read, and otherwise are emitted. An ampersand that begins no reference stands
/// for itself.
pub proof fn law_references_are_put_in_place(m: Machine, chars: Seq<char>)
    requires
        chars.len() <= 2,
    ensures
        ({
            let n = m.put_char_ref(chars);
            let text = if chars.len() == 0 {
                seq!['&']
            } else {
                chars
            };
            if m.state is AttributeValue {
                &&& n.attr_value == m.attr_value + text
                &&& n.log == m.log
            } else {
                &&& n.attr_value == m.attr_value
                &&& crate::tokenizer::chunks::flat(n.log) == crate::tokenizer::chunks::flat(m.log)
                    + said_all(text)
            }
        }),
{
    broadcast use group_flat;

    let n = m.put_char_ref(chars);
    let text = if chars.len() == 0 {
        seq!['&']
    } else {
        chars
    };
    if m.state is AttributeValue {
        assert(n.attr_value =~= m.attr_value + text);
    } else {
        assert(crate::tokenizer::chunks::flat(n.log) =~= crate::tokenizer::chunks::flat(m.log)
            + said_all(text));
    }
}

} // verus!
