use html5ever::capi::{TokenCall, c_bool, token_calls};
use html5ever::tokenizer::{AttrName, Attribute, Doctype, Tag, TagKind, Token};
use html5ever::util::atom::Atom;
use html5ever::util::maybe_owned::MaybeOwned;

fn calls(token: Token) -> Vec<String> {
    token_calls(&token)
        .iter()
        .map(|c| match c {
            TokenCall::DoDoctype(n, p, s, q) => format!("doctype {:?} {:?} {:?} {}", n, p, s, q),
            TokenCall::DoStartTag(n, c, k) => format!("start {} {} {}", n, c, k),
            TokenCall::DoTagAttr(n, v) => format!("attr {} {}", n, v),
            TokenCall::DoEndTag(n) => format!("end {}", n),
            TokenCall::DoComment(t) => format!("comment {}", t),
            TokenCall::DoCharacters(t) => format!("characters {}", t),
            TokenCall::DoNullCharacter => "null".to_string(),
            TokenCall::DoEof => "eof".to_string(),
            TokenCall::DoError(m) => format!("error {}", m),
        })
        .collect()
}

fn tag(kind: TagKind, self_closing: bool) -> Token {
    Token::TagToken(Tag {
        kind,
        name: Atom::from_slice("img"),
        self_closing,
        attrs: vec![
            Attribute { name: AttrName::new(Atom::from_slice("src")), value: "a".to_string() },
            Attribute { name: AttrName::new(Atom::from_slice("alt")), value: "b".to_string() },
        ],
    })
}

#[test]
fn truth_values() {
    assert_eq!(c_bool(false), 0);
    assert_eq!(c_bool(true), 1);
}

#[test]
fn calls_for_tags() {
    assert_eq!(
        calls(tag(TagKind::StartTag, true)),
        ["start img 1 2", "attr src a", "attr alt b"]
    );
    assert_eq!(calls(tag(TagKind::EndTag, false)), ["end img"]);
}

#[test]
fn calls_for_other_tokens() {
    assert_eq!(
        calls(Token::DoctypeToken(Doctype {
            name: Some("html".to_string()),
            public_id: None,
            system_id: Some(String::new()),
            force_quirks: true,
        })),
        ["doctype Some(\"html\") None Some(\"\") 1"]
    );
    assert_eq!(calls(Token::CommentToken("c".to_string())), ["comment c"]);
    assert_eq!(calls(Token::CharacterTokens("t".to_string())), ["characters t"]);
    assert_eq!(calls(Token::NullCharacterToken), ["null"]);
    assert_eq!(calls(Token::EOFToken), ["eof"]);
    assert_eq!(calls(Token::ParseError(MaybeOwned::Slice("m"))), ["error m"]);
}
