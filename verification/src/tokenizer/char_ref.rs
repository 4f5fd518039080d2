//! Character references: `&amp;`, `&#38;`, `&#x26;` and the like.
//!
//! While a reference is being read, this machine runs in place of the main one. It
//! looks at one character of the input at a time, and takes it only if it can
//! belong to the reference. What it took in vain it puts back.

use vstd::prelude::*;
use crate::tokenizer::actions::Tokenizer;
use crate::tokenizer::buffer_queue::put_front;
use crate::tokenizer::config::{Config, is_bad_char};
use crate::tokenizer::interface::TokenSink;
use crate::tokenizer::machine::Machine;
use crate::util::maybe_owned::MaybeOwned;
use crate::util::str::{char_str, from_chars, is_alnum, is_ascii_alnum, is_prefix};

verus! {

/// `char::from_u32`: the character with the number `i`, if there is one. There is
/// none for a surrogate, nor above U+10FFFF.
pub assume_specification[ char::from_u32 ](i: u32) -> (r: Option<char>)
    ensures
        r == (if i < 0xD800 || 0xE000 <= i <= 0x10FFFF {
            Some(i as char)
        } else {
            None
        }),
;

/// A named character reference: the name, without the ampersand and with the
/// semicolon if it has one, and the one or two characters that it stands for.
#[derive(Debug)]
pub struct Entity {
    pub name: Vec<char>,
    pub first: char,
    pub second: Option<char>,
}

/// The contents of an `Entity`.
#[verifier::ext_equal]
pub struct EntityView {
    pub name: Seq<char>,
    pub first: char,
    pub second: Option<char>,
}

impl View for Entity {
    type V = EntityView;

    open spec fn view(&self) -> EntityView {
        EntityView { name: self.name@, first: self.first, second: self.second }
    }
}

/// The contents of a list of named references.
pub open spec fn entities_view(es: Seq<Entity>) -> Seq<EntityView> {
    es.map_values(|e: Entity| e@)
}

/// Is `s` the beginning of the name of a reference?
pub open spec fn begins_name(es: Seq<EntityView>, s: Seq<char>) -> bool {
    exists|i: int| 0 <= i < es.len() && s.is_prefix_of((#[trigger] es[i]).name)
}

/// The first reference with the name `s`.
pub open spec fn find_entity(es: Seq<EntityView>, s: Seq<char>) -> Option<EntityView>
    decreases es.len(),
{
    if es.len() == 0 {
        None
    } else if es[0].name == s {
        Some(es[0])
    } else {
        find_entity(es.drop_first(), s)
    }
}

/// How far a character reference has been read.
#[derive(Clone, Copy, PartialEq, Eq, Structural, Debug)]
pub enum CharRefState {
    /// After the ampersand.
    Begin,
    /// After `&#`.
    Octothorpe,
    /// Inside the digits.
    Numeric,
    /// After the digits.
    NumericSemicolon,
    /// Inside a name that may still be known.
    Named,
    /// Inside a name that is not known.
    BogusName,
}

/// The longest known name found so far.
#[derive(Clone, Copy, Debug)]
pub struct Found {
    /// How many characters the name has.
    pub len: usize,
    pub first: char,
    pub second: Option<char>,
}

/// The contents of a `Found`.
pub struct FoundView {
    pub len: nat,
    pub first: char,
    pub second: Option<char>,
}

/// The contents of an optional `Found`.
pub open spec fn found_view(f: Option<Found>) -> Option<FoundView> {
    match f {
        Some(f) => Some(FoundView { len: f.len as nat, first: f.first, second: f.second }),
        None => None,
    }
}

/// What is remembered of a character reference that is being read.
#[verifier::ext_equal]
pub struct CharRefView {
    pub state: CharRefState,
    /// A character that cannot begin a reference here. There is one if and only if
    /// the reference stands in an attribute value.
    pub addnl_allowed: Option<char>,
    pub num: u32,
    /// The number is above every character, and is no longer kept up.
    pub num_too_big: bool,
    pub seen_digit: bool,
    /// The `x` or `X` before hexadecimal digits.
    pub hex_marker: Option<char>,
    /// The characters of the name that were taken.
    pub name: Seq<char>,
    pub found: Option<FoundView>,
}

/// A reference of which the ampersand was read.
pub open spec fn new_char_ref(addnl_allowed: Option<char>) -> CharRefView {
    CharRefView {
        state: CharRefState::Begin,
        addnl_allowed,
        num: 0,
        num_too_big: false,
        seen_digit: false,
        hex_marker: None,
        name: Seq::empty(),
        found: None,
    }
}

impl CharRefView {
    /// The invariant of a reference that is being read.
    pub open spec fn wf(self) -> bool {
        &&& !self.num_too_big ==> self.num <= 0x10FFFF
        &&& self.found matches Some(f) ==> 0 < f.len <= self.name.len()
        &&& self.hex_marker matches Some(c) ==> c == 'x' || c == 'X'
        &&& self.state == CharRefState::Begin ==> self.name.len() == 0
        &&& self.state == CharRefState::Begin || self.state == CharRefState::Octothorpe
            ==> !self.seen_digit
        &&& self.state == CharRefState::NumericSemicolon ==> self.seen_digit
    }

    /// The characters that were taken and can still turn out not to belong to the
    /// reference.
    pub open spec fn held(self) -> Seq<char> {
        match self.state {
            CharRefState::Begin => Seq::empty(),
            CharRefState::Octothorpe => seq!['#'],
            CharRefState::Numeric => if self.seen_digit {
                Seq::empty()
            } else {
                self.marks()
            },
            CharRefState::NumericSemicolon => Seq::empty(),
            CharRefState::Named => self.name,
            CharRefState::BogusName => self.name,
        }
    }

    /// What stands between the ampersand and the digits.
    pub open spec fn marks(self) -> Seq<char> {
        match self.hex_marker {
            Some(c) => seq!['#', c],
            None => seq!['#'],
        }
    }

    pub open spec fn base(self) -> u32 {
        if self.hex_marker is Some {
            16
        } else {
            10
        }
    }
}

/// The value of a digit in a base of at most 16.
pub open spec fn digit_value(c: char, base: u32) -> Option<u32> {
    let n = if '0' <= c <= '9' {
        Some((c as u32 - 0x30) as u32)
    } else if 'a' <= c <= 'f' {
        Some((c as u32 - 0x57) as u32)
    } else if 'A' <= c <= 'F' {
        Some((c as u32 - 0x37) as u32)
    } else {
        None
    };
    match n {
        Some(v) => if v < base {
            n
        } else {
            None
        },
        None => None,
    }
}

/// The characters that the numbers from 0x80 to 0x9F stand for: those that the
/// encoding windows-1252 has there.
pub open spec fn c1_replacement(n: u32) -> Option<char> {
    if n == 0x80 {
        Some('\u{20ac}')
    } else if n == 0x82 {
        Some('\u{201a}')
    } else if n == 0x83 {
        Some('\u{0192}')
    } else if n == 0x84 {
        Some('\u{201e}')
    } else if n == 0x85 {
        Some('\u{2026}')
    } else if n == 0x86 {
        Some('\u{2020}')
    } else if n == 0x87 {
        Some('\u{2021}')
    } else if n == 0x88 {
        Some('\u{02c6}')
    } else if n == 0x89 {
        Some('\u{2030}')
    } else if n == 0x8a {
        Some('\u{0160}')
    } else if n == 0x8b {
        Some('\u{2039}')
    } else if n == 0x8c {
        Some('\u{0152}')
    } else if n == 0x8e {
        Some('\u{017d}')
    } else if n == 0x91 {
        Some('\u{2018}')
    } else if n == 0x92 {
        Some('\u{2019}')
    } else if n == 0x93 {
        Some('\u{201c}')
    } else if n == 0x94 {
        Some('\u{201d}')
    } else if n == 0x95 {
        Some('\u{2022}')
    } else if n == 0x96 {
        Some('\u{2013}')
    } else if n == 0x97 {
        Some('\u{2014}')
    } else if n == 0x98 {
        Some('\u{02dc}')
    } else if n == 0x99 {
        Some('\u{2122}')
    } else if n == 0x9a {
        Some('\u{0161}')
    } else if n == 0x9b {
        Some('\u{203a}')
    } else if n == 0x9c {
        Some('\u{0153}')
    } else if n == 0x9e {
        Some('\u{017e}')
    } else if n == 0x9f {
        Some('\u{0178}')
    } else {
        None
    }
}

/// The character that a number stands for, and whether the number is an error.
pub open spec fn numeric_char(n: u32, too_big: bool) -> (char, bool) {
    if n > 0x10FFFF || too_big || n == 0 || 0xD800 <= n <= 0xDFFF {
        ('\u{fffd}', true)
    } else if 0x80 <= n <= 0x9F {
        match c1_replacement(n) {
            Some(c) => (c, true),
            None => (n as char, true),
        }
    } else if 0x01 <= n <= 0x08 || n == 0x0B || 0x0D <= n <= 0x1F || n == 0x7F || 0xFDD0 <= n
        <= 0xFDEF || n & 0xFFFE == 0xFFFE {
        (n as char, true)
    } else {
        (n as char, false)
    }
}

/// The digit for a value below 16.
pub open spec fn hex_digit(v: nat) -> char {
    if v < 10 {
        (0x30 + v) as char
    } else {
        (0x37 + v) as char
    }
}

/// `n` in hexadecimal capitals, with zeros before it up to `width` digits.
pub open spec fn hex_text(n: nat, width: nat) -> Seq<char>
    decreases n + width,
{
    if n == 0 && width == 0 {
        Seq::empty()
    } else {
        hex_text(
            n / 16,
            if width == 0 {
                0
            } else {
                (width - 1) as nat
            },
        ).push(hex_digit(n % 16))
    }
}

/// What one look at the input does to a reference: what is remembered of it and of
/// the main machine, whether the character looked at is taken, what is put back,
/// and, if the reference is done, which characters it stands for.
#[verifier::ext_equal]
pub struct CharRefStep {
    pub t: CharRefView,
    pub m: Machine,
    pub eat: bool,
    pub back: Seq<char>,
    pub result: Option<Seq<char>>,
}

/// Go on reading, without taking the character.
pub open spec fn cr_go(t: CharRefView, m: Machine) -> CharRefStep {
    CharRefStep { t, m, eat: false, back: Seq::empty(), result: None }
}

/// Take the character `c`, and go on reading.
pub open spec fn cr_take(t: CharRefView, m: Machine, c: char) -> CharRefStep {
    CharRefStep { t, m: m.ate(c), eat: true, back: Seq::empty(), result: None }
}

/// It is no reference: put back what was taken.
pub open spec fn cr_none(t: CharRefView, m: Machine, back: Seq<char>) -> CharRefStep {
    CharRefStep { t, m, eat: false, back, result: Some(Seq::empty()) }
}

impl Machine {
    /// Take note of a character that was taken for a reference.
    pub open spec fn ate(self, c: char) -> Machine {
        Machine { ignore_lf: false, ..self.saw(c) }
    }

    /// Report a number that is an error.
    pub open spec fn number_error(self, t: CharRefView) -> Machine {
        if numeric_char(t.num, t.num_too_big).1 {
            self.error_text(
                if self.exact {
                    "Invalid numeric character reference value 0x"@ + hex_text(t.num as nat, 6)
                } else {
                    "Invalid numeric character reference"@
                },
            )
        } else {
            self
        }
    }

    /// Report a name that is not known, and that a semicolon ends.
    pub open spec fn name_error(self, name: Seq<char>) -> Machine {
        self.error_text(
            if self.exact {
                "Invalid character reference &"@ + name + ";"@
            } else {
                "Invalid character reference"@
            },
        )
    }
}

/// The character of the number that was read.
pub open spec fn numeric_result(t: CharRefView) -> Option<Seq<char>> {
    Some(seq![numeric_char(t.num, t.num_too_big).0])
}

/// There are no digits.
pub open spec fn cr_no_digits(t: CharRefView, m: Machine) -> CharRefStep {
    cr_none(t, m.error_text("Numeric character reference without digits"@), t.marks())
}

/// The name cannot go on with `end`, or nothing comes after it.
pub open spec fn cr_finish_named(
    t: CharRefView,
    m: Machine,
    end: Option<char>,
) -> CharRefStep {
    match t.found {
        None => match end {
            Some(c) => if is_alnum(c) {
                cr_go(CharRefView { state: CharRefState::BogusName, ..t }, m)
            } else if c == ';' && t.name.len() > 0 {
                cr_none(t, m.name_error(t.name), t.name)
            } else {
                cr_none(t, m, t.name)
            },
            None => cr_none(t, m, t.name),
        },
        Some(f) => {
            let last = t.name[f.len - 1];
            let after = if f.len == t.name.len() {
                end
            } else {
                Some(t.name[f.len as int])
            };
            let in_attr = t.addnl_allowed is Some;
            if last != ';' && in_attr && after == Some('=') {
                cr_none(
                    t,
                    m.error_text("Equals sign after character reference in attribute"@),
                    t.name,
                )
            } else if last != ';' && in_attr && after is Some && is_alnum(after->0) {
                cr_none(t, m, t.name)
            } else {
                CharRefStep {
                    t,
                    m: if last != ';' {
                        m.error_text("Character reference does not end with semicolon"@)
                    } else {
                        m
                    },
                    eat: false,
                    back: t.name.skip(f.len as int),
                    result: Some(
                        match f.second {
                            Some(d) => seq![f.first, d],
                            None => seq![f.first],
                        },
                    ),
                }
            }
        },
    }
}

/// What the next character of the input does to a reference.
pub open spec fn cr_step(t: CharRefView, m: Machine, c: char) -> CharRefStep {
    match t.state {
        CharRefState::Begin => if c == '\t' || c == '\n' || c == '\r' || c == '\x0C' || c == ' '
            || c == '<' || c == '&' || t.addnl_allowed == Some(c) {
            cr_none(t, m, Seq::empty())
        } else if c == '#' {
            cr_take(CharRefView { state: CharRefState::Octothorpe, ..t }, m, c)
        } else {
            cr_go(CharRefView { state: CharRefState::Named, ..t }, m)
        },
        CharRefState::Octothorpe => if c == 'x' || c == 'X' {
            cr_take(
                CharRefView { state: CharRefState::Numeric, hex_marker: Some(c), ..t },
                m,
                c,
            )
        } else {
            cr_go(CharRefView { state: CharRefState::Numeric, hex_marker: None, ..t }, m)
        },
        CharRefState::Numeric => match digit_value(c, t.base()) {
            Some(n) => cr_take(add_digit(t, n), m, c),
            None => if t.seen_digit {
                cr_go(CharRefView { state: CharRefState::NumericSemicolon, ..t }, m)
            } else {
                cr_no_digits(t, m)
            },
        },
        CharRefState::NumericSemicolon => if c == ';' {
            CharRefStep {
                t,
                m: m.ate(c).number_error(t),
                eat: true,
                back: Seq::empty(),
                result: numeric_result(t),
            }
        } else {
            CharRefStep {
                t,
                m: m.error_text(
                    "Semicolon missing after numeric character reference"@,
                ).number_error(t),
                eat: false,
                back: Seq::empty(),
                result: numeric_result(t),
            }
        },
        CharRefState::Named => if (is_alnum(c) || c == ';') && begins_name(
            m.entities,
            t.name.push(c),
        ) {
            cr_take(add_to_name(t, m, c), m, c)
        } else {
            cr_finish_named(t, m, Some(c))
        },
        CharRefState::BogusName => if is_alnum(c) {
            cr_take(CharRefView { name: t.name.push(c), ..t }, m, c)
        } else if c == ';' {
            cr_none(t, m.name_error(t.name), t.name)
        } else {
            cr_none(t, m, t.name)
        },
    }
}

/// A number with a digit added.
pub open spec fn add_digit(t: CharRefView, n: u32) -> CharRefView {
    let v = t.num * t.base() + n;
    CharRefView {
        num: if t.num_too_big {
            t.num
        } else {
            v as u32
        },
        num_too_big: t.num_too_big || v > 0x10FFFF,
        seen_digit: true,
        ..t
    }
}

/// A name with a character added.
pub open spec fn add_to_name(t: CharRefView, m: Machine, c: char) -> CharRefView {
    let name = t.name.push(c);
    CharRefView {
        name,
        found: match find_entity(m.entities, name) {
            Some(e) => Some(FoundView { len: name.len(), first: e.first, second: e.second }),
            None => t.found,
        },
        ..t
    }
}

/// What the end of the input does to a reference.
pub open spec fn cr_eof(t: CharRefView, m: Machine) -> CharRefStep {
    match t.state {
        CharRefState::Begin => cr_none(t, m, Seq::empty()),
        CharRefState::Octothorpe => cr_none(
            t,
            m.error_text("EOF after '#' in character reference"@),
            seq!['#'],
        ),
        CharRefState::Numeric => if t.seen_digit {
            cr_eof_number(t, m)
        } else {
            cr_no_digits(t, m)
        },
        CharRefState::NumericSemicolon => cr_eof_number(t, m),
        CharRefState::Named => cr_finish_named(t, m, None),
        CharRefState::BogusName => cr_none(t, m, t.name),
    }
}

/// The end of the input after the digits of a number.
pub open spec fn cr_eof_number(t: CharRefView, m: Machine) -> CharRefStep {
    CharRefStep {
        t,
        m: m.error_text("EOF in numeric character reference"@).number_error(t),
        eat: false,
        back: Seq::empty(),
        result: numeric_result(t),
    }
}

/// How a look at the input went.
#[derive(Clone, Copy, PartialEq, Eq, Structural, Debug)]
pub enum Status {
    /// There is no input to look at.
    Stuck,
    /// The reference is to be read further.
    Progress,
    /// The reference is done.
    Done,
}

/// A character reference that is being read.
#[derive(Debug)]
pub struct CharRefTokenizer {
    state: CharRefState,
    addnl_allowed: Option<char>,
    num: u32,
    num_too_big: bool,
    seen_digit: bool,
    hex_marker: Option<char>,
    name_buf: Vec<char>,
    found: Option<Found>,
    result: Option<CharRef>,
}

/// The characters that a reference stands for.
#[derive(Clone, Copy, Debug)]
pub struct CharRef {
    /// The resulting character(s).
    pub chars: [char; 2],
    /// How many slots in `chars` are valid?
    pub num_chars: u8,
}

impl View for CharRef {
    type V = Seq<char>;

    open spec fn view(&self) -> Seq<char> {
        self.chars@.take(self.num_chars as int)
    }
}

impl View for CharRefTokenizer {
    type V = CharRefView;

    closed spec fn view(&self) -> CharRefView {
        CharRefView {
            state: self.state,
            addnl_allowed: self.addnl_allowed,
            num: self.num,
            num_too_big: self.num_too_big,
            seen_digit: self.seen_digit,
            hex_marker: self.hex_marker,
            name: self.name_buf@,
            found: found_view(self.found),
        }
    }
}

impl CharRefTokenizer {
    /// The reference is not done.
    pub closed spec fn wf(&self) -> bool {
        self.result is None
    }

    /// The characters that a reference stands for that is done.
    pub closed spec fn outcome(&self) -> Option<Seq<char>> {
        match self.result {
            Some(r) => if r.num_chars <= 2 {
                Some(r@)
            } else {
                None
            },
            None => None,
        }
    }

    /// A reference of which the ampersand was read.
    pub fn new(addnl_allowed: Option<char>) -> (r: CharRefTokenizer)
        ensures
            r@ == new_char_ref(addnl_allowed),
            r.wf(),
    {
        CharRefTokenizer {
            state: CharRefState::Begin,
            addnl_allowed,
            num: 0,
            num_too_big: false,
            seen_digit: false,
            hex_marker: None,
            name_buf: Vec::new(),
            found: None,
            result: None,
        }
    }

    /// What a reference that is done stands for. No characters if it turned out to be
    /// none.
    pub fn get_result(&self) -> (r: CharRef)
        requires
            self.outcome() is Some,
        ensures
            r@ == self.outcome()->0,
            r.num_chars <= 2,
    {
        match self.result {
            Some(r) => r,
            None => CharRef { chars: ['\0', '\0'], num_chars: 0 },
        }
    }
}

/// Is `name` the beginning of the name of a reference?
pub fn begins_known_name(es: &Vec<Entity>, name: &Vec<char>) -> (r: bool)
    ensures
        r == begins_name(entities_view(es@), name@),
{
    let ghost view = entities_view(es@);
    let mut i: usize = 0;
    while i < es.len()
        invariant
            i <= es@.len(),
            view == entities_view(es@),
            forall|j: int| 0 <= j < i ==> !name@.is_prefix_of((#[trigger] view[j]).name),
        decreases es@.len() - i,
    {
        assert(view[i as int] == es@[i as int]@);
        if is_prefix(name, &es[i].name) {
            return true;
        }
        i += 1;
    }
    false
}

/// The characters of the first reference with the name `name`.
pub fn lookup_entity(es: &Vec<Entity>, name: &Vec<char>) -> (r: Option<(char, Option<char>)>)
    ensures
        r == (match find_entity(entities_view(es@), name@) {
            Some(e) => Some((e.first, e.second)),
            None => None,
        }),
{
    let ghost view = entities_view(es@);
    let mut i: usize = 0;
    assert(view.skip(0) =~= view);
    while i < es.len()
        invariant
            i <= es@.len(),
            view == entities_view(es@),
            find_entity(view, name@) == find_entity(view.skip(i as int), name@),
        decreases es@.len() - i,
    {
        let chars = &es[i].name;
        assert(view[i as int] == es@[i as int]@);
        assert(view.skip(i as int)[0] == view[i as int]);
        assert(view.skip(i as int).drop_first() =~= view.skip(i + 1));
        if chars.len() == name.len() && is_prefix(name, chars) {
            assert(chars@ =~= name@);
            return Some((es[i].first, es[i].second));
        }
        assert(chars@ != name@) by {
            if chars@ == name@ {
                assert(name@ =~= chars@.subrange(0, name@.len() as int));
            }
        }
        i += 1;
    }
    assert(view.skip(i as int) =~= Seq::<EntityView>::empty());
    None
}

/// The value of a digit in a base of at most 16.
pub fn to_digit(c: char, base: u32) -> (r: Option<u32>)
    ensures
        r == digit_value(c, base),
{
    let n: u32 = if '0' <= c && c <= '9' {
        c as u32 - 0x30
    } else if 'a' <= c && c <= 'f' {
        c as u32 - 0x57
    } else if 'A' <= c && c <= 'F' {
        c as u32 - 0x37
    } else {
        return None;
    };
    if n < base {
        Some(n)
    } else {
        None
    }
}

/// The characters that the numbers from 0x80 to 0x9F stand for.
fn replace_c1(n: u32) -> (r: Option<char>)
    ensures
        r == c1_replacement(n),
{
    match n {
        0x80 => Some('\u{20ac}'),
        0x82 => Some('\u{201a}'),
        0x83 => Some('\u{0192}'),
        0x84 => Some('\u{201e}'),
        0x85 => Some('\u{2026}'),
        0x86 => Some('\u{2020}'),
        0x87 => Some('\u{2021}'),
        0x88 => Some('\u{02c6}'),
        0x89 => Some('\u{2030}'),
        0x8a => Some('\u{0160}'),
        0x8b => Some('\u{2039}'),
        0x8c => Some('\u{0152}'),
        0x8e => Some('\u{017d}'),
        0x91 => Some('\u{2018}'),
        0x92 => Some('\u{2019}'),
        0x93 => Some('\u{201c}'),
        0x94 => Some('\u{201d}'),
        0x95 => Some('\u{2022}'),
        0x96 => Some('\u{2013}'),
        0x97 => Some('\u{2014}'),
        0x98 => Some('\u{02dc}'),
        0x99 => Some('\u{2122}'),
        0x9a => Some('\u{0161}'),
        0x9b => Some('\u{203a}'),
        0x9c => Some('\u{0153}'),
        0x9e => Some('\u{017e}'),
        0x9f => Some('\u{0178}'),
        _ => None,
    }
}

/// The character that a number stands for, and whether the number is an error.
fn char_of_number(n: u32, too_big: bool) -> (r: (char, bool))
    ensures
        r == numeric_char(n, too_big),
{
    if n > 0x10FFFF || too_big || n == 0 || (0xD800 <= n && n <= 0xDFFF) {
        return ('\u{fffd}', true);
    }
    let plain = match char::from_u32(n) {
        Some(c) => c,
        None => '\u{fffd}',
    };
    if 0x80 <= n && n <= 0x9F {
        match replace_c1(n) {
            Some(c) => (c, true),
            None => (plain, true),
        }
    } else {
        let error = (0x01 <= n && n <= 0x08) || n == 0x0B || (0x0D <= n && n <= 0x1F) || n == 0x7F
            || (0xFDD0 <= n && n <= 0xFDEF) || (n & 0xFFFE) == 0xFFFE;
        (plain, error)
    }
}

/// `n` in hexadecimal capitals, with zeros before it up to `width` digits.
fn to_hex(n: u32, width: u32) -> (r: String)
    requires
        width <= 8,
    ensures
        r@ == hex_text(n as nat, width as nat),
    decreases n + width,
{
    if n == 0 && width == 0 {
        return String::new();
    }
    let mut s = to_hex(
        n / 16,
        if width == 0 {
            0
        } else {
            width - 1
        },
    );
    let d: u8 = (n % 16) as u8;
    s.push(
        if d < 10 {
            (0x30 + d) as char
        } else {
            (0x37 + d) as char
        },
    );
    s
}

/// The characters that can belong to a reference are never reported as bad.
proof fn lemma_printable(c: char)
    requires
        0x20 <= c as u32 && (c as u32) < 0x7F,
    ensures
        !is_bad_char(c),
{
    let n = c as u32;
    assert(n < 0x7F ==> n & 0xFFFE != 0xFFFE) by (bit_vector);
}

impl CharRefTokenizer {
    /// Did a look at the input with the outcome `r` do what `s` says?
    spec fn did(&self, s: CharRefStep, r: Status) -> bool {
        match s.result {
            None => r == Status::Progress && self.wf() && self@ == s.t,
            Some(chars) => r == Status::Done && self.outcome() == Some(chars),
        }
    }

    /// It is no reference.
    fn finish_none(&mut self) -> (r: Status)
        ensures
            r == Status::Done,
            final(self).outcome() == Some(Seq::<char>::empty()),
    {
        self.result = Some(CharRef { chars: ['\0', '\0'], num_chars: 0 });
        assert(self.result->0@ =~= Seq::<char>::empty());
        Status::Done
    }

    /// The reference stands for one character.
    fn finish_one(&mut self, c: char) -> (r: Status)
        ensures
            r == Status::Done,
            final(self).outcome() == Some(seq![c]),
    {
        self.result = Some(CharRef { chars: [c, '\0'], num_chars: 1 });
        assert(self.result->0@ =~= seq![c]);
        Status::Done
    }

    /// The reference stands for two characters.
    fn finish_two(&mut self, c: char, d: char) -> (r: Status)
        ensures
            r == Status::Done,
            final(self).outcome() == Some(seq![c, d]),
    {
        self.result = Some(CharRef { chars: [c, d], num_chars: 2 });
        assert(self.result->0@ =~= seq![c, d]);
        Status::Done
    }

    /// Look at the input once, and take the next character if it can belong to the
    /// reference.
    pub fn step<'sink, Sink: TokenSink>(&mut self, tokenizer: &mut Tokenizer<'sink, Sink>) -> (r:
        Status)
        requires
            old(self).wf(),
            old(self)@.wf(),
            old(tokenizer).inv(),
            old(tokenizer).config().m.pending is None,
        ensures
            old(tokenizer).kept(final(tokenizer)),
            *final(final(tokenizer).sink) == *final(old(tokenizer).sink),
            ({
                let cfg = old(tokenizer).config();
                if cfg.input.len() == 0 {
                    &&& r == Status::Stuck
                    &&& final(self)@ == old(self)@
                    &&& final(self).wf()
                    &&& final(tokenizer).config() == cfg
                } else {
                    let s = cr_step(old(self)@, cfg.m, cfg.input[0][0]);
                    &&& final(tokenizer).config() == cfg.after_look(s)
                    &&& s.result is None ==> r == Status::Progress && final(self)@ == s.t
                        && final(self).wf()
                    &&& s.result is Some ==> r == Status::Done && final(self).outcome()
                        == s.result
                }
            }),
    {
        let c = match tokenizer.peek() {
            None => {
                return Status::Stuck;
            },
            Some(c) => c,
        };
        match self.state {
            CharRefState::Begin => self.step_begin(tokenizer, c),
            CharRefState::Octothorpe => self.step_octothorpe(tokenizer, c),
            CharRefState::Numeric => self.step_numeric(tokenizer, c),
            CharRefState::NumericSemicolon => self.step_numeric_semicolon(tokenizer, c),
            CharRefState::Named => self.step_named(tokenizer, c),
            CharRefState::BogusName => self.step_bogus_name(tokenizer, c),
        }
    }

    /// A look after the ampersand.
    fn step_begin<'sink, Sink: TokenSink>(
        &mut self,
        tokenizer: &mut Tokenizer<'sink, Sink>,
        c: char,
    ) -> (r: Status)
        requires
            old(self).wf(),
            old(self)@.wf(),
            old(self)@.state == CharRefState::Begin,
            old(tokenizer).inv(),
            old(tokenizer).config().m.pending is None,
            old(tokenizer).config().input.len() > 0,
            c == old(tokenizer).config().input[0][0],
        ensures
            old(tokenizer).kept(final(tokenizer)),
            *final(final(tokenizer).sink) == *final(old(tokenizer).sink),
            final(tokenizer).config() == old(tokenizer).config().after_look(
                cr_step(old(self)@, old(tokenizer).config().m, c),
            ),
            final(self).did(cr_step(old(self)@, old(tokenizer).config().m, c), r),
    {
        if c == '\t' || c == '\n' || c == '\r' || c == '\x0C' || c == ' ' || c == '<' || c == '&'
            || self.addnl_allowed == Some(c) {
            return self.finish_none();
        }
        if c == '#' {
            proof {
                lemma_printable(c);
            }
            tokenizer.discard_char();
            self.state = CharRefState::Octothorpe;
        } else {
            self.state = CharRefState::Named;
        }
        Status::Progress
    }

    /// A look after `&#`.
    fn step_octothorpe<'sink, Sink: TokenSink>(
        &mut self,
        tokenizer: &mut Tokenizer<'sink, Sink>,
        c: char,
    ) -> (r: Status)
        requires
            old(self).wf(),
            old(self)@.wf(),
            old(self)@.state == CharRefState::Octothorpe,
            old(tokenizer).inv(),
            old(tokenizer).config().m.pending is None,
            old(tokenizer).config().input.len() > 0,
            c == old(tokenizer).config().input[0][0],
        ensures
            old(tokenizer).kept(final(tokenizer)),
            *final(final(tokenizer).sink) == *final(old(tokenizer).sink),
            final(tokenizer).config() == old(tokenizer).config().after_look(
                cr_step(old(self)@, old(tokenizer).config().m, c),
            ),
            final(self).did(cr_step(old(self)@, old(tokenizer).config().m, c), r),
    {
        if c == 'x' || c == 'X' {
            proof {
                lemma_printable(c);
            }
            tokenizer.discard_char();
            self.hex_marker = Some(c);
        } else {
            self.hex_marker = None;
        }
        self.state = CharRefState::Numeric;
        Status::Progress
    }

    /// A look inside the digits.
    fn step_numeric<'sink, Sink: TokenSink>(
        &mut self,
        tokenizer: &mut Tokenizer<'sink, Sink>,
        c: char,
    ) -> (r: Status)
        requires
            old(self).wf(),
            old(self)@.wf(),
            old(self)@.state == CharRefState::Numeric,
            old(tokenizer).inv(),
            old(tokenizer).config().m.pending is None,
            old(tokenizer).config().input.len() > 0,
            c == old(tokenizer).config().input[0][0],
        ensures
            old(tokenizer).kept(final(tokenizer)),
            *final(final(tokenizer).sink) == *final(old(tokenizer).sink),
            final(tokenizer).config() == old(tokenizer).config().after_look(
                cr_step(old(self)@, old(tokenizer).config().m, c),
            ),
            final(self).did(cr_step(old(self)@, old(tokenizer).config().m, c), r),
    {
        let base: u32 = if self.hex_marker.is_some() {
            16
        } else {
            10
        };
        match to_digit(c, base) {
            Some(n) => {
                proof {
                    lemma_printable(c);
                }
                tokenizer.discard_char();
                if !self.num_too_big {
                    self.num = self.num * base + n;
                    if self.num > 0x10FFFF {
                        self.num_too_big = true;
                    }
                }
                self.seen_digit = true;
                Status::Progress
            },
            None => if self.seen_digit {
                self.state = CharRefState::NumericSemicolon;
                Status::Progress
            } else {
                self.no_digits(tokenizer)
            },
        }
    }

    /// A look after the digits.
    fn step_numeric_semicolon<'sink, Sink: TokenSink>(
        &mut self,
        tokenizer: &mut Tokenizer<'sink, Sink>,
        c: char,
    ) -> (r: Status)
        requires
            old(self).wf(),
            old(self)@.wf(),
            old(self)@.state == CharRefState::NumericSemicolon,
            old(tokenizer).inv(),
            old(tokenizer).config().m.pending is None,
            old(tokenizer).config().input.len() > 0,
            c == old(tokenizer).config().input[0][0],
        ensures
            old(tokenizer).kept(final(tokenizer)),
            *final(final(tokenizer).sink) == *final(old(tokenizer).sink),
            final(tokenizer).config() == old(tokenizer).config().after_look(
                cr_step(old(self)@, old(tokenizer).config().m, c),
            ),
            final(self).did(cr_step(old(self)@, old(tokenizer).config().m, c), r),
    {
        if c == ';' {
            proof {
                lemma_printable(c);
            }
            tokenizer.discard_char();
        } else {
            tokenizer.emit_error(
                MaybeOwned::Slice("Semicolon missing after numeric character reference"),
            );
        }
        self.finish_numeric(tokenizer)
    }

    /// A look inside a name that may still be known.
    fn step_named<'sink, Sink: TokenSink>(
        &mut self,
        tokenizer: &mut Tokenizer<'sink, Sink>,
        c: char,
    ) -> (r: Status)
        requires
            old(self).wf(),
            old(self)@.wf(),
            old(self)@.state == CharRefState::Named,
            old(tokenizer).inv(),
            old(tokenizer).config().m.pending is None,
            old(tokenizer).config().input.len() > 0,
            c == old(tokenizer).config().input[0][0],
        ensures
            old(tokenizer).kept(final(tokenizer)),
            *final(final(tokenizer).sink) == *final(old(tokenizer).sink),
            final(tokenizer).config() == old(tokenizer).config().after_look(
                cr_step(old(self)@, old(tokenizer).config().m, c),
            ),
            final(self).did(cr_step(old(self)@, old(tokenizer).config().m, c), r),
    {
        if is_ascii_alnum(c) || c == ';' {
            let ghost name = self.name_buf@;
            self.name_buf.push(c);
            if tokenizer.begins_known_name(&self.name_buf) {
                proof {
                    lemma_printable(c);
                }
                match tokenizer.lookup_entity(&self.name_buf) {
                    Some((first, second)) => {
                        self.found = Some(Found { len: self.name_buf.len(), first, second });
                    },
                    None => {},
                }
                tokenizer.discard_char();
                return Status::Progress;
            }
            self.name_buf.pop();
            assert(self.name_buf@ =~= name);
        }
        self.finish_named(tokenizer, Some(c))
    }

    /// A look inside a name that is not known.
    fn step_bogus_name<'sink, Sink: TokenSink>(
        &mut self,
        tokenizer: &mut Tokenizer<'sink, Sink>,
        c: char,
    ) -> (r: Status)
        requires
            old(self).wf(),
            old(self)@.wf(),
            old(self)@.state == CharRefState::BogusName,
            old(tokenizer).inv(),
            old(tokenizer).config().m.pending is None,
            old(tokenizer).config().input.len() > 0,
            c == old(tokenizer).config().input[0][0],
        ensures
            old(tokenizer).kept(final(tokenizer)),
            *final(final(tokenizer).sink) == *final(old(tokenizer).sink),
            final(tokenizer).config() == old(tokenizer).config().after_look(
                cr_step(old(self)@, old(tokenizer).config().m, c),
            ),
            final(self).did(cr_step(old(self)@, old(tokenizer).config().m, c), r),
    {
        if is_ascii_alnum(c) {
            proof {
                lemma_printable(c);
            }
            tokenizer.discard_char();
            self.name_buf.push(c);
            Status::Progress
        } else {
            if c == ';' {
                self.name_error(tokenizer);
            }
            self.unconsume_name(tokenizer);
            self.finish_none()
        }
    }

    /// Put the name back.
    fn unconsume_name<'sink, Sink: TokenSink>(&self, tokenizer: &mut Tokenizer<'sink, Sink>)
        requires
            old(tokenizer).inv(),
        ensures
            old(tokenizer).kept(final(tokenizer)),
            *final(final(tokenizer).sink) == *final(old(tokenizer).sink),
            final(tokenizer).config() == (Config {
                input: put_front(old(tokenizer).config().input, self@.name),
                ..old(tokenizer).config()
            }),
    {
        let name = from_chars(&self.name_buf, 0, self.name_buf.len());
        assert(name@ =~= self.name_buf@);
        tokenizer.unconsume(name.as_str());
    }

    /// Report a name that is not known.
    fn name_error<'sink, Sink: TokenSink>(&self, tokenizer: &mut Tokenizer<'sink, Sink>)
        requires
            old(tokenizer).inv(),
        ensures
            old(tokenizer).kept(final(tokenizer)),
            *final(final(tokenizer).sink) == *final(old(tokenizer).sink),
            final(tokenizer).config() == old(tokenizer).config().with(
                old(tokenizer).config().m.name_error(self@.name),
            ),
    {
        let msg = if tokenizer.exact_errors() {
            let name = from_chars(&self.name_buf, 0, self.name_buf.len());
            assert(name@ =~= self.name_buf@);
            let mut s = "Invalid character reference &".to_string();
            s.append(name.as_str());
            s.append(";");
            MaybeOwned::Owned(s)
        } else {
            MaybeOwned::Slice("Invalid character reference")
        };
        tokenizer.emit_error(msg);
    }

    /// There are no digits: put back what stands before them.
    fn no_digits<'sink, Sink: TokenSink>(&mut self, tokenizer: &mut Tokenizer<'sink, Sink>) -> (r:
        Status)
        requires
            old(self)@.wf(),
            old(tokenizer).inv(),
        ensures
            old(tokenizer).kept(final(tokenizer)),
            *final(final(tokenizer).sink) == *final(old(tokenizer).sink),
            final(tokenizer).config() == old(tokenizer).config().after_look(
                cr_no_digits(old(self)@, old(tokenizer).config().m),
            ),
            r == Status::Done,
            final(self).outcome() == Some(Seq::<char>::empty()),
    {
        tokenizer.emit_error(MaybeOwned::Slice("Numeric character reference without digits"));
        let mut marks = char_str('#');
        match self.hex_marker {
            Some(c) => {
                marks.push(c);
                assert(marks@ =~= seq!['#', c]);
            },
            None => {},
        }
        tokenizer.unconsume(marks.as_str());
        self.finish_none()
    }

    /// The number is complete.
    fn finish_numeric<'sink, Sink: TokenSink>(
        &mut self,
        tokenizer: &mut Tokenizer<'sink, Sink>,
    ) -> (r: Status)
        requires
            old(tokenizer).inv(),
        ensures
            old(tokenizer).kept(final(tokenizer)),
            *final(final(tokenizer).sink) == *final(old(tokenizer).sink),
            final(tokenizer).config() == old(tokenizer).config().with(
                old(tokenizer).config().m.number_error(old(self)@),
            ),
            r == Status::Done,
            final(self).outcome() == numeric_result(old(self)@),
    {
        let (c, error) = char_of_number(self.num, self.num_too_big);
        if error {
            let msg = if tokenizer.exact_errors() {
                let mut s = "Invalid numeric character reference value 0x".to_string();
                s.append(to_hex(self.num, 6).as_str());
                MaybeOwned::Owned(s)
            } else {
                MaybeOwned::Slice("Invalid numeric character reference")
            };
            tokenizer.emit_error(msg);
        }
        self.finish_one(c)
    }

    /// The name cannot go on with `end`, or nothing comes after it.
    fn finish_named<'sink, Sink: TokenSink>(
        &mut self,
        tokenizer: &mut Tokenizer<'sink, Sink>,
        end: Option<char>,
    ) -> (r: Status)
        requires
            old(self).wf(),
            old(self)@.wf(),
            old(tokenizer).inv(),
        ensures
            old(tokenizer).kept(final(tokenizer)),
            *final(final(tokenizer).sink) == *final(old(tokenizer).sink),
            ({
                let s = cr_finish_named(old(self)@, old(tokenizer).config().m, end);
                &&& final(tokenizer).config() == old(tokenizer).config().after_look(s)
                &&& final(self).did(s, r)
            }),
    {
        let found = match self.found {
            None => {
                match end {
                    Some(c) => {
                        if is_ascii_alnum(c) {
                            self.state = CharRefState::BogusName;
                            return Status::Progress;
                        }
                        if c == ';' && self.name_buf.len() > 0 {
                            self.name_error(tokenizer);
                        }
                    },
                    None => {},
                }
                self.unconsume_name(tokenizer);
                return self.finish_none();
            },
            Some(f) => f,
        };
        let last = self.name_buf[found.len - 1];
        let after = if found.len == self.name_buf.len() {
            end
        } else {
            Some(self.name_buf[found.len])
        };
        if last != ';' {
            if self.addnl_allowed.is_some() {
                match after {
                    Some(c) => {
                        if c == '=' {
                            tokenizer.emit_error(
                                MaybeOwned::Slice(
                                    "Equals sign after character reference in attribute",
                                ),
                            );
                            self.unconsume_name(tokenizer);
                            return self.finish_none();
                        }
                        if is_ascii_alnum(c) {
                            self.unconsume_name(tokenizer);
                            return self.finish_none();
                        }
                    },
                    None => {},
                }
            }
            tokenizer.emit_error(
                MaybeOwned::Slice("Character reference does not end with semicolon"),
            );
        }
        let rest = from_chars(&self.name_buf, found.len, self.name_buf.len());
        assert(rest@ =~= self.name_buf@.skip(found.len as int));
        tokenizer.unconsume(rest.as_str());
        match found.second {
            Some(d) => self.finish_two(found.first, d),
            None => self.finish_one(found.first),
        }
    }

    /// The input ends inside the reference.
    pub fn end_of_file<'sink, Sink: TokenSink>(&mut self, tokenizer: &mut Tokenizer<'sink, Sink>)
        requires
            old(self).wf(),
            old(self)@.wf(),
            old(tokenizer).inv(),
        ensures
            old(tokenizer).kept(final(tokenizer)),
            *final(final(tokenizer).sink) == *final(old(tokenizer).sink),
            ({
                let s = cr_eof(old(self)@, old(tokenizer).config().m);
                &&& final(tokenizer).config() == old(tokenizer).config().after_look(s)
                &&& s.result is Some
                &&& final(self).outcome() == s.result
            }),
    {
        match self.state {
            CharRefState::Begin => {
                self.finish_none();
            },
            CharRefState::Octothorpe => {
                tokenizer.emit_error(MaybeOwned::Slice("EOF after '#' in character reference"));
                tokenizer.unconsume(char_str('#').as_str());
                self.finish_none();
            },
            CharRefState::Numeric if !self.seen_digit => {
                self.no_digits(tokenizer);
            },
            CharRefState::Numeric | CharRefState::NumericSemicolon => {
                tokenizer.emit_error(MaybeOwned::Slice("EOF in numeric character reference"));
                self.finish_numeric(tokenizer);
            },
            CharRefState::Named => {
                self.finish_named(tokenizer, None);
            },
            CharRefState::BogusName => {
                self.unconsume_name(tokenizer);
                self.finish_none();
            },
        }
    }
}

} // verus!
