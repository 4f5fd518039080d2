//! Text helpers over `char`, `str` and `String`.

use vstd::prelude::*;

verus! {

/// `String::push`: the text grows by the one character, at its end.
pub assume_specification[ String::push ](s: &mut String, c: char)
    ensures
        final(s)@ == old(s)@.push(c),
;

/// `String::clear`: the text becomes empty.
pub assume_specification[ String::clear ](s: &mut String)
    ensures
        final(s)@ == Seq::<char>::empty(),
;

/// Is `c` one of `A` to `Z`?
pub open spec fn is_upper(c: char) -> bool {
    'A' <= c <= 'Z'
}

/// Is `c` one of `a` to `z`?
pub open spec fn is_lower(c: char) -> bool {
    'a' <= c <= 'z'
}

/// Is `c` an ASCII letter, of either case?
pub open spec fn is_letter(c: char) -> bool {
    is_upper(c) || is_lower(c)
}

/// `c`, with an ASCII capital mapped to its small letter.
pub open spec fn lower(c: char) -> char {
    if is_upper(c) {
        (c as u8 + 32) as char
    } else {
        c
    }
}

/// A text with every ASCII capital mapped to its small letter.
pub open spec fn lower_text(s: Seq<char>) -> Seq<char> {
    s.map_values(|c: char| lower(c))
}

/// Is `c` an ASCII letter or digit?
pub open spec fn is_alnum(c: char) -> bool {
    is_letter(c) || '0' <= c <= '9'
}

/// Is `c` white space in the sense of HTML: tab, line feed, form feed,
/// carriage return or space?
pub open spec fn is_space(c: char) -> bool {
    c == '\t' || c == '\n' || c == '\x0C' || c == '\r' || c == ' '
}

/// An empty string.
pub fn empty_str() -> (r: String)
    ensures
        r@ == Seq::<char>::empty(),
{
    String::new()
}

/// If `c` is an ASCII letter, its small form; otherwise nothing.
pub fn lower_ascii_letter(c: char) -> (r: Option<char>)
    ensures
        r == (if is_letter(c) {
            Some(lower(c))
        } else {
            None
        }),
{
    if 'a' <= c && c <= 'z' {
        Some(c)
    } else if 'A' <= c && c <= 'Z' {
        Some((c as u8 + 32) as char)
    } else {
        None
    }
}

/// `c` in small form if it is an ASCII capital, and `c` itself otherwise.
pub fn lower_ascii(c: char) -> (r: char)
    ensures
        r == lower(c),
{
    match lower_ascii_letter(c) {
        Some(cl) => cl,
        None => c,
    }
}

/// Is `c` an ASCII letter or digit?
pub fn is_ascii_alnum(c: char) -> (r: bool)
    ensures
        r == is_alnum(c),
{
    ('a' <= c && c <= 'z') || ('A' <= c && c <= 'Z') || ('0' <= c && c <= '9')
}

/// Is `c` HTML white space?
pub fn is_ascii_whitespace(c: char) -> (r: bool)
    ensures
        r == is_space(c),
{
    c == '\t' || c == '\n' || c == '\x0C' || c == '\r' || c == ' '
}

/// The characters of `s`, in order.
pub fn to_chars(s: &str) -> (r: Vec<char>)
    ensures
        r@ == s@,
{
    let mut v: Vec<char> = Vec::new();
    for c in it: s.chars()
        invariant
            it.seq() == s@,
            v@ == s@.take(it.index() as int),
    {
        v.push(c);
        assert(s@.take(it.index() as int + 1) == s@.take(it.index() as int).push(c));
    }
    assert(s@.take(s@.len() as int) == s@);
    v
}

/// The characters `v[from..to]`.
pub fn part_of(v: &Vec<char>, from: usize, to: usize) -> (r: Vec<char>)
    requires
        from <= to <= v@.len(),
    ensures
        r@ == v@.subrange(from as int, to as int),
{
    let mut part: Vec<char> = Vec::new();
    let mut i: usize = from;
    while i < to
        invariant
            from <= i <= to <= v@.len(),
            part@ == v@.subrange(from as int, i as int),
        decreases to - i,
    {
        part.push(v[i]);
        assert(v@.subrange(from as int, i + 1) == v@.subrange(from as int, i as int).push(
            v@[i as int],
        ));
        i += 1;
    }
    part
}

/// The text that the characters `v[from..to]` spell.
pub fn from_chars(v: &Vec<char>, from: usize, to: usize) -> (r: String)
    requires
        from <= to <= v@.len(),
    ensures
        r@ == v@.subrange(from as int, to as int),
{
    let mut s = String::new();
    let mut i: usize = from;
    while i < to
        invariant
            from <= i <= to <= v@.len(),
            s@ == v@.subrange(from as int, i as int),
        decreases to - i,
    {
        s.push(v[i]);
        assert(v@.subrange(from as int, i + 1) == v@.subrange(from as int, i as int).push(
            v@[i as int],
        ));
        i += 1;
    }
    s
}

/// A string of the one character `c`.
pub fn char_str(c: char) -> (r: String)
    ensures
        r@ == seq![c],
{
    let mut s = String::new();
    s.push(c);
    s
}

/// Is `s` the beginning of `t`?
pub fn is_prefix(s: &Vec<char>, t: &Vec<char>) -> (r: bool)
    ensures
        r == s@.is_prefix_of(t@),
{
    if s.len() > t.len() {
        return false;
    }
    let mut i: usize = 0;
    while i < s.len()
        invariant
            i <= s@.len() <= t@.len(),
            forall|j: int| 0 <= j < i ==> s@[j] == t@[j],
        decreases s@.len() - i,
    {
        if s[i] != t[i] {
            assert(s@[i as int] != t@.subrange(0, s@.len() as int)[i as int]);
            return false;
        }
        i += 1;
    }
    assert(s@ =~= t@.subrange(0, s@.len() as int));
    true
}

/// Do the two texts agree, character for character?
pub fn same_text(a: &str, b: &str) -> (r: bool)
    ensures
        r == (a@ == b@),
{
    let x = to_chars(a);
    let y = to_chars(b);
    if x.len() != y.len() {
        return false;
    }
    let mut i: usize = 0;
    while i < x.len()
        invariant
            i <= x@.len(),
            x@ == a@,
            y@ == b@,
            x@.len() == y@.len(),
            forall|j: int| 0 <= j < i ==> x@[j] == y@[j],
        decreases x@.len() - i,
    {
        if x[i] != y[i] {
            return false;
        }
        i += 1;
    }
    assert(a@ =~= b@);
    true
}

/// Do the two texts agree once ASCII capitals are mapped to small letters?
pub fn same_text_ignore_case(a: &str, b: &str) -> (r: bool)
    ensures
        r == (lower_text(a@) == lower_text(b@)),
{
    let x = to_chars(a);
    let y = to_chars(b);
    if x.len() != y.len() {
        assert(lower_text(a@).len() != lower_text(b@).len());
        return false;
    }
    let mut i: usize = 0;
    while i < x.len()
        invariant
            i <= x@.len(),
            x@ == a@,
            y@ == b@,
            x@.len() == y@.len(),
            forall|j: int| 0 <= j < i ==> lower(x@[j]) == lower(y@[j]),
        decreases x@.len() - i,
    {
        if lower_ascii(x[i]) != lower_ascii(y[i]) {
            assert(lower_text(a@)[i as int] != lower_text(b@)[i as int]);
            return false;
        }
        i += 1;
    }
    assert(lower_text(a@) =~= lower_text(b@));
    true
}

/// Take the text out of `s`, and leave `s` empty.
pub fn take_str(s: &mut String) -> (r: String)
    ensures
        r@ == old(s)@,
        final(s)@ == Seq::<char>::empty(),
{
    let mut t = String::new();
    std::mem::swap(s, &mut t);
    t
}

/// The length of the longest start of `s` whose characters are all white
/// space, or all not, whichever the first one is.
pub open spec fn run_len(s: Seq<char>) -> nat
    recommends
        s.len() > 0,
    decreases s.len(),
{
    if s.len() <= 1 || is_space(s[0]) != is_space(s[1]) {
        1
    } else {
        1 + run_len(s.drop_first())
    }
}

/// What `char_run` finds in a non-empty text: the run is not empty, is a start
/// of the text, is of one kind, and is followed by the other kind, if by
/// anything.
pub proof fn lemma_run_len(s: Seq<char>)
    requires
        s.len() > 0,
    ensures
        1 <= run_len(s) <= s.len(),
        forall|i: int| 0 <= i < run_len(s) ==> is_space(#[trigger] s[i]) == is_space(s[0]),
        run_len(s) < s.len() ==> is_space(s[run_len(s) as int]) != is_space(s[0]),
    decreases s.len(),
{
    if !(s.len() <= 1 || is_space(s[0]) != is_space(s[1])) {
        let t = s.drop_first();
        lemma_run_len(t);
        assert forall|i: int| 0 <= i < run_len(s) implies is_space(#[trigger] s[i]) == is_space(
            s[0],
        ) by {
            if i > 0 {
                assert(t[i - 1] == s[i]);
            }
        }
        if run_len(s) < s.len() {
            assert(t[run_len(t) as int] == s[run_len(s) as int]);
        }
    }
}

/// How many characters from the start of `buf` are alike in being white space
/// or not, and which of the two they are. Nothing if `buf` is empty.
pub fn char_run(buf: &Vec<char>) -> (r: Option<(usize, bool)>)
    ensures
        r == (if buf@.len() == 0 {
            None::<(usize, bool)>
        } else {
            Some((run_len(buf@) as usize, is_space(buf@[0])))
        }),
        buf@.len() > 0 ==> 1 <= run_len(buf@) <= buf@.len(),
{
    if buf.len() == 0 {
        return None;
    }
    let kind = is_ascii_whitespace(buf[0]);
    let mut i: usize = 1;
    proof {
        lemma_run_len(buf@);
    }
    while i < buf.len() && is_ascii_whitespace(buf[i]) == kind
        invariant
            1 <= i <= buf@.len(),
            kind == is_space(buf@[0]),
            i <= run_len(buf@) <= buf@.len(),
            forall|j: int|
                0 <= j < run_len(buf@) ==> is_space(#[trigger] buf@[j]) == is_space(buf@[0]),
            run_len(buf@) < buf@.len() ==> is_space(buf@[run_len(buf@) as int]) != is_space(
                buf@[0],
            ),
        decreases buf@.len() - i,
    {
        i += 1;
    }
    Some((i, kind))
}

/// Mapping to small letters: no capital is left, each capital has become the letter as far
/// from `a` as it was from `A`, and nothing else has changed. So doing it twice is doing it
/// once.
pub proof fn law_small_letters(s: Seq<char>)
    ensures
        lower_text(s).len() == s.len(),
        forall|i: int|
            0 <= i < s.len() ==> {
                let c = s[i];
                let d = #[trigger] lower_text(s)[i];
                &&& !('A' <= d <= 'Z')
                &&& 'A' <= c <= 'Z' ==> 'a' <= d <= 'z' && d as int - 'a' as int == c as int
                    - 'A' as int
                &&& !('A' <= c <= 'Z') ==> d == c
            },
        lower_text(lower_text(s)) == lower_text(s),
{
    let t = lower_text(s);
    assert forall|i: int| 0 <= i < s.len() implies lower(#[trigger] t[i]) == t[i] by {
        assert(t[i] == lower(s[i]));
    }
    assert(lower_text(t) =~= t);
}

/// The letters are what becomes one of the small letters, and nothing is a letter and a digit.
pub proof fn law_letters(c: char)
    ensures
        is_letter(c) <==> 'a' <= lower(c) <= 'z',
        is_letter(c) ==> is_alnum(c) && is_alnum(lower(c)),
        is_alnum(c) && !is_letter(c) <==> '0' <= c <= '9',
        is_space(c) ==> !is_alnum(c) && lower(c) == c,
{
}

} // verus!
