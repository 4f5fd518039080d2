//! What the C interface makes of the tokens.
//!
//! A C program hands over a table of functions. Here stands which of them are called
//! for a token, in which order, and with what.

use vstd::prelude::*;
use libc::{c_int, size_t};
use crate::tokenizer::interface::{AttributeView, Tag, TagKind, TagView, Token, TokenView, opt_text};

verus! {

/// A truth value for C.
pub open spec fn c_truth(x: bool) -> c_int {
    if x {
        1
    } else {
        0
    }
}

/// A truth value for C.
pub fn c_bool(x: bool) -> (r: c_int)
    ensures
        r == c_truth(x),
{
    match x {
        false => 0,
        true => 1,
    }
}

/// One call to a function of the table.
#[derive(Debug)]
pub enum TokenCall<'a> {
    DoDoctype(Option<&'a str>, Option<&'a str>, Option<&'a str>, c_int),
    DoStartTag(&'a str, c_int, size_t),
    DoTagAttr(&'a str, &'a str),
    DoEndTag(&'a str),
    DoComment(&'a str),
    DoCharacters(&'a str),
    DoNullCharacter,
    DoEof,
    DoError(&'a str),
}

/// The contents of a `TokenCall`.
#[verifier::ext_equal]
pub enum TokenCallView {
    DoDoctype(Option<Seq<char>>, Option<Seq<char>>, Option<Seq<char>>, c_int),
    DoStartTag(Seq<char>, c_int, nat),
    DoTagAttr(Seq<char>, Seq<char>),
    DoEndTag(Seq<char>),
    DoComment(Seq<char>),
    DoCharacters(Seq<char>),
    DoNullCharacter,
    DoEof,
    DoError(Seq<char>),
}

/// The text of an optional slice.
pub open spec fn opt_slice_text(s: Option<&str>) -> Option<Seq<char>> {
    match s {
        Some(t) => Some(t@),
        None => None,
    }
}

impl<'a> View for TokenCall<'a> {
    type V = TokenCallView;

    open spec fn view(&self) -> TokenCallView {
        match *self {
            TokenCall::DoDoctype(name, public, system, force_quirks) => TokenCallView::DoDoctype(
                opt_slice_text(name),
                opt_slice_text(public),
                opt_slice_text(system),
                force_quirks,
            ),
            TokenCall::DoStartTag(name, self_closing, num_attrs) => TokenCallView::DoStartTag(
                name@,
                self_closing,
                num_attrs as nat,
            ),
            TokenCall::DoTagAttr(name, value) => TokenCallView::DoTagAttr(name@, value@),
            TokenCall::DoEndTag(name) => TokenCallView::DoEndTag(name@),
            TokenCall::DoComment(text) => TokenCallView::DoComment(text@),
            TokenCall::DoCharacters(text) => TokenCallView::DoCharacters(text@),
            TokenCall::DoNullCharacter => TokenCallView::DoNullCharacter,
            TokenCall::DoEof => TokenCallView::DoEof,
            TokenCall::DoError(message) => TokenCallView::DoError(message@),
        }
    }
}

/// The contents of a list of calls.
pub open spec fn token_calls_view(calls: Seq<TokenCall<'_>>) -> Seq<TokenCallView> {
    calls.map_values(|c: TokenCall<'_>| c@)
}

/// The calls for a tag. A start tag is followed by one call for each of its attributes,
/// with its name and its value.
pub open spec fn tag_calls(tag: TagView) -> Seq<TokenCallView> {
    match tag.kind {
        TagKind::StartTag => seq![
            TokenCallView::DoStartTag(tag.name, c_truth(tag.self_closing), tag.attrs.len()),
        ] + tag.attrs.map_values(
            |a: AttributeView| TokenCallView::DoTagAttr(a.name, a.value),
        ),
        TagKind::EndTag => seq![TokenCallView::DoEndTag(tag.name)],
    }
}

/// The calls for a token.
pub open spec fn calls_for(token: TokenView) -> Seq<TokenCallView> {
    match token {
        TokenView::DoctypeToken(d) => seq![
            TokenCallView::DoDoctype(
                d.name,
                d.public_id,
                d.system_id,
                c_truth(d.force_quirks),
            ),
        ],
        TokenView::TagToken(tag) => tag_calls(tag),
        TokenView::CommentToken(text) => seq![TokenCallView::DoComment(text)],
        TokenView::CharacterTokens(text) => seq![TokenCallView::DoCharacters(text)],
        TokenView::NullCharacterToken => seq![TokenCallView::DoNullCharacter],
        TokenView::EOFToken => seq![TokenCallView::DoEof],
        TokenView::ParseError(message) => seq![TokenCallView::DoError(message)],
    }
}

/// An optional text as a slice.
fn opt_slice(s: &Option<String>) -> (r: Option<&str>)
    ensures
        opt_slice_text(r) == opt_text(*s),
{
    match s {
        Some(t) => Some(t.as_str()),
        None => None,
    }
}

/// A list of one call.
fn one<'a>(call: TokenCall<'a>) -> (r: Vec<TokenCall<'a>>)
    ensures
        token_calls_view(r@) == seq![call@],
{
    let mut r: Vec<TokenCall<'a>> = Vec::new();
    r.push(call);
    assert(token_calls_view(r@) =~= seq![call@]);
    r
}

/// The calls for a tag.
fn calls_for_tag<'a>(tag: &'a Tag) -> (r: Vec<TokenCall<'a>>)
    ensures
        token_calls_view(r@) == tag_calls(tag@),
{
    match tag.kind {
        TagKind::EndTag => one(TokenCall::DoEndTag(tag.name.as_slice())),
        TagKind::StartTag => {
            let mut calls = one(
                TokenCall::DoStartTag(
                    tag.name.as_slice(),
                    c_bool(tag.self_closing),
                    tag.attrs.len(),
                ),
            );
            let mut i: usize = 0;
            assert(token_calls_view(calls@) =~= tag_calls(tag@).take(1));
            while i < tag.attrs.len()
                invariant
                    tag.kind == TagKind::StartTag,
                    i <= tag.attrs@.len(),
                    token_calls_view(calls@) == tag_calls(tag@).take(i + 1),
                decreases tag.attrs@.len() - i,
            {
                let ghost pre = calls@;
                let call = TokenCall::DoTagAttr(
                    tag.attrs[i].name.as_slice(),
                    tag.attrs[i].value.as_str(),
                );
                calls.push(call);
                proof {
                    assert(token_calls_view(calls@) =~= token_calls_view(pre).push(call@));
                    assert(tag@.attrs[i as int] == tag.attrs@[i as int]@);
                    assert(tag_calls(tag@)[i + 1] == call@);
                    assert(tag_calls(tag@).take(i + 2) =~= tag_calls(tag@).take(i + 1).push(
                        call@,
                    ));
                }
                i += 1;
            }
            assert(tag_calls(tag@).take(i + 1) =~= tag_calls(tag@));
            calls
        },
    }
}

/// The calls for a token, in order.
pub fn token_calls<'a>(token: &'a Token) -> (r: Vec<TokenCall<'a>>)
    ensures
        token_calls_view(r@) == calls_for(token@),
{
    match token {
        Token::DoctypeToken(d) => one(
            TokenCall::DoDoctype(
                opt_slice(&d.name),
                opt_slice(&d.public_id),
                opt_slice(&d.system_id),
                c_bool(d.force_quirks),
            ),
        ),
        Token::TagToken(tag) => calls_for_tag(tag),
        Token::CommentToken(text) => one(TokenCall::DoComment(text.as_str())),
        Token::CharacterTokens(text) => one(TokenCall::DoCharacters(text.as_str())),
        Token::NullCharacterToken => one(TokenCall::DoNullCharacter),
        Token::EOFToken => one(TokenCall::DoEof),
        Token::ParseError(message) => one(TokenCall::DoError(message.as_slice())),
    }
}

/// After a start tag as many calls for attributes follow as it announces, each with the
/// name and the value of its attribute.
pub proof fn law_attributes_are_announced(tag: TagView)
    requires
        tag.kind == TagKind::StartTag,
    ensures
        ({
            let calls = tag_calls(tag);
            &&& calls[0] matches TokenCallView::DoStartTag(_, _, n) && calls.len() == 1 + n
            &&& forall|i: int|
                1 <= i < calls.len() ==> #[trigger] calls[i] == TokenCallView::DoTagAttr(
                    tag.attrs[i - 1].name,
                    tag.attrs[i - 1].value,
                )
        }),
{
}

/// The calls for a start tag say all that the tag says. The first is made with the name of
/// the tag, with a flag that is 1 exactly if the tag closes itself and 0 exactly if it does
/// not, and with the number of attributes. Then comes one call for each attribute.
pub proof fn law_start_tags_are_told_in_full(tag: TagView)
    requires
        tag.kind == TagKind::StartTag,
    ensures
        ({
            let calls = calls_for(TokenView::TagToken(tag));
            &&& calls.len() == 1 + tag.attrs.len()
            &&& calls[0] matches TokenCallView::DoStartTag(name, flag, n) && {
                &&& name == tag.name
                &&& flag == 1 <==> tag.self_closing
                &&& flag == 0 <==> !tag.self_closing
                &&& n == tag.attrs.len()
            }
            &&& forall|i: int|
                0 <= i < tag.attrs.len() ==> (#[trigger] calls[i + 1] matches TokenCallView::DoTagAttr(
                    name,
                    value,
                ) && name == tag.attrs[i].name && value == tag.attrs[i].value)
        }),
{
    law_attributes_are_announced(tag);
}

/// For every other token one call is made: of the function for its kind, and with what the
/// token holds.
pub proof fn law_other_tokens_are_told_in_full(token: TokenView)
    requires
        token matches TokenView::TagToken(tag) ==> tag.kind == TagKind::EndTag,
    ensures
        ({
            let calls = calls_for(token);
            &&& calls.len() == 1
            &&& match calls[0] {
                TokenCallView::DoDoctype(name, public, system, flag) => token
                    matches TokenView::DoctypeToken(d) && {
                    &&& name == d.name
                    &&& public == d.public_id
                    &&& system == d.system_id
                    &&& flag == 1 <==> d.force_quirks
                    &&& flag == 0 <==> !d.force_quirks
                },
                TokenCallView::DoEndTag(name) => token matches TokenView::TagToken(tag) && name
                    == tag.name,
                TokenCallView::DoComment(text) => token == TokenView::CommentToken(text),
                TokenCallView::DoCharacters(text) => token == TokenView::CharacterTokens(text),
                TokenCallView::DoNullCharacter => token == TokenView::NullCharacterToken,
                TokenCallView::DoEof => token == TokenView::EOFToken,
                TokenCallView::DoError(message) => token == TokenView::ParseError(message),
                _ => false,
            }
        }),
{
}

/// Different tokens give different calls: from the calls the token can be told, but for the
/// attributes of an end tag and whether an end tag closes itself.
pub proof fn law_tokens_are_told_apart(s: TokenView, t: TokenView)
    requires
        calls_for(s) == calls_for(t),
    ensures
        s == t || (s matches TokenView::TagToken(x) && t matches TokenView::TagToken(y) && x.kind
            == TagKind::EndTag && y.kind == TagKind::EndTag && x.name == y.name),
{
    let calls = calls_for(s);
    match (s, t) {
        (TokenView::TagToken(x), TokenView::TagToken(y)) => {
            if x.kind == TagKind::StartTag {
                law_start_tags_are_told_in_full(x);
            }
            if y.kind == TagKind::StartTag {
                law_start_tags_are_told_in_full(y);
            }
            if x.kind == TagKind::StartTag && y.kind == TagKind::StartTag {
                assert forall|i: int| 0 <= i < x.attrs.len() implies #[trigger] x.attrs[i]
                    == y.attrs[i] by {
                    assert(calls[i + 1] == calls_for(t)[i + 1]);
                }
                assert(x.attrs =~= y.attrs);
            } else if x.kind == TagKind::EndTag {
                law_other_tokens_are_told_in_full(s);
            } else {
                law_other_tokens_are_told_in_full(t);
            }
        },
        (TokenView::TagToken(x), _) => {
            law_other_tokens_are_told_in_full(t);
            if x.kind == TagKind::StartTag {
                law_start_tags_are_told_in_full(x);
            }
        },
        (_, TokenView::TagToken(y)) => {
            law_other_tokens_are_told_in_full(s);
            if y.kind == TagKind::StartTag {
                law_start_tags_are_told_in_full(y);
            }
        },
        _ => {
            law_other_tokens_are_told_in_full(s);
            law_other_tokens_are_told_in_full(t);
        },
    }
}

} // verus!
