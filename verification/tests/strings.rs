#![allow(non_snake_case)]

use html5ever::tokenizer::{append_strings, option_push_char};
use html5ever::util::atom::Atom;
use html5ever::util::maybe_owned::MaybeOwned;
use html5ever::util::smallcharset::SmallCharSet;
use html5ever::util::str::{
    char_run, char_str, empty_str, from_chars, is_ascii_alnum, is_ascii_whitespace, is_prefix,
    lower_ascii, lower_ascii_letter, same_text, same_text_ignore_case, take_str, to_chars,
};

#[test]
fn push_to_None_gives_singleton() {
    let mut s: Option<String> = None;
    option_push_char(&mut s, 'x');
    assert_eq!(s, Some("x".to_string()));
}

#[test]
fn push_to_empty_appends() {
    let mut s: Option<String> = Some(String::new());
    option_push_char(&mut s, 'x');
    assert_eq!(s, Some("x".to_string()));
}

#[test]
fn push_to_nonempty_appends() {
    let mut s: Option<String> = Some("y".to_string());
    option_push_char(&mut s, 'x');
    assert_eq!(s, Some("yx".to_string()));
}

#[test]
fn append_appends() {
    let mut s = "foo".to_string();
    append_strings(&mut s, "bar".to_string());
    assert_eq!(s, "foobar".to_string());
}

#[test]
fn append_to_empty_does_not_copy() {
    let mut lhs: String = "".to_string();
    let rhs: Vec<u8> = b"foo".to_vec();
    let ptr_old = rhs.as_ptr();

    append_strings(&mut lhs, String::from_utf8(rhs).unwrap());
    assert_eq!(lhs, "foo".to_string());

    let ptr_new = lhs.into_bytes().as_ptr();
    assert_eq!(ptr_old, ptr_new);
}

#[test]
fn letters_are_lowered() {
    assert_eq!(lower_ascii_letter('A'), Some('a'));
    assert_eq!(lower_ascii_letter('Z'), Some('z'));
    assert_eq!(lower_ascii_letter('m'), Some('m'));
    assert_eq!(lower_ascii_letter('@'), None);
    assert_eq!(lower_ascii_letter('['), None);
    assert_eq!(lower_ascii_letter('\u{c4}'), None);
    assert_eq!(lower_ascii('Q'), 'q');
    assert_eq!(lower_ascii('\u{c4}'), '\u{c4}');
}

#[test]
fn characters_are_told_apart() {
    assert!(is_ascii_alnum('a') && is_ascii_alnum('Z') && is_ascii_alnum('0'));
    assert!(!is_ascii_alnum('_') && !is_ascii_alnum('\u{e4}'));
    for c in ['\t', '\n', '\x0C', '\r', ' '] {
        assert!(is_ascii_whitespace(c));
    }
    assert!(!is_ascii_whitespace('\u{a0}'));
    assert!(!is_ascii_whitespace('\x0B'));
}

#[test]
fn texts_are_compared() {
    assert!(same_text("abc", "abc"));
    assert!(!same_text("abc", "abd"));
    assert!(!same_text("abc", "ab"));
    assert!(same_text_ignore_case("DocType", "doctype"));
    assert!(!same_text_ignore_case("\u{c4}", "\u{e4}"));
    assert!(is_prefix(&to_chars("ab"), &to_chars("abc")));
    assert!(is_prefix(&to_chars(""), &to_chars("abc")));
    assert!(!is_prefix(&to_chars("abcd"), &to_chars("abc")));
    assert!(!is_prefix(&to_chars("b"), &to_chars("abc")));
}

#[test]
fn texts_are_taken_apart() {
    let v = to_chars("h\u{e9}llo");
    assert_eq!(v.len(), 5);
    assert_eq!(from_chars(&v, 1, 4), "\u{e9}ll");
    assert_eq!(char_str('x'), "x");
    assert_eq!(empty_str(), "");
    let mut s = "text".to_string();
    assert_eq!(take_str(&mut s), "text");
    assert_eq!(s, "");
}

#[test]
fn runs_of_white_space_are_found() {
    assert_eq!(char_run(&to_chars("")), None);
    assert_eq!(char_run(&to_chars("  \n")), Some((3, true)));
    assert_eq!(char_run(&to_chars("  \nfoo")), Some((3, true)));
    assert_eq!(char_run(&to_chars("foo  ")), Some((3, false)));
    assert_eq!(char_run(&to_chars("x")), Some((1, false)));
}

#[test]
fn atoms_compare_by_text() {
    let a = Atom::Static("div");
    let b = Atom::from_slice("div");
    let c = Atom::from_slice("span");
    assert!(a == b);
    assert!(b == a);
    assert!(a != c);
    assert!(a == Atom::Static("div"));
    assert_eq!(a.as_slice(), "div");
    assert_eq!(c.as_slice(), "span");
    assert!(c.clone() == c);
    assert_eq!(c.clone().as_slice(), "span");
}

#[test]
fn messages_have_text() {
    assert_eq!(MaybeOwned::Slice("a").as_slice(), "a");
    assert_eq!(MaybeOwned::Owned("b".to_string()).as_slice(), "b");
}

#[test]
fn small_sets_hold_what_was_put_in() {
    let set = SmallCharSet::empty().with('\0').with('<').with('&');
    assert!(set.contains('\0') && set.contains('<') && set.contains('&'));
    assert!(!set.contains('>'));
    assert!(!set.contains('|'));
    assert!(!set.contains('\u{fffd}'));
}
