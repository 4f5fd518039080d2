use html5ever::tokenizer::entities::{named_entities, parse_table};
use html5ever::tokenizer::profile::{total_time, wrapped_ns};
use html5ever::tokenizer::states::{RawKind, ScriptEscapeKind, State};
use html5ever::tokenizer::{TagKind, Token, TokenSink, Tokenizer, TokenizerOpts};

/// A sink that writes down what it is given.
struct Log {
    tokens: Vec<String>,
    answers: Vec<(String, State)>,
    last_tag: String,
}

impl Log {
    fn new() -> Log {
        Log { tokens: vec![], answers: vec![], last_tag: String::new() }
    }
}

fn opt(s: &Option<String>) -> String {
    match s {
        Some(t) => t.clone(),
        None => "-".to_string(),
    }
}

impl TokenSink for Log {
    fn process_token(&mut self, token: Token) {
        let line = match token {
            Token::DoctypeToken(d) => format!(
                "doctype {} {} {} {}",
                opt(&d.name),
                opt(&d.public_id),
                opt(&d.system_id),
                d.force_quirks
            ),
            Token::TagToken(t) => {
                let mut s = match t.kind {
                    TagKind::StartTag => "<".to_string(),
                    TagKind::EndTag => "</".to_string(),
                };
                self.last_tag = t.name.as_slice().to_string();
                s.push_str(t.name.as_slice());
                for a in t.attrs.iter() {
                    s.push_str(&format!(" {}={}", a.name.as_slice(), a.value));
                }
                if t.self_closing {
                    s.push_str(" /");
                }
                s.push('>');
                s
            }
            Token::CommentToken(s) => format!("comment {}", s),
            Token::CharacterTokens(s) => {
                assert!(!s.contains('\0'));
                match self.tokens.last_mut() {
                    Some(last) if last.starts_with("text ") => {
                        last.push_str(&s);
                        return;
                    }
                    _ => format!("text {}", s),
                }
            }
            Token::NullCharacterToken => "null".to_string(),
            Token::EOFToken => "eof".to_string(),
            Token::ParseError(e) => format!("error {}", e.as_slice()),
        };
        self.tokens.push(line);
    }

    fn query_state_change(&mut self) -> Option<State> {
        self.answers.iter().find(|a| a.0 == self.last_tag).map(|a| a.1)
    }
}

fn run_with(pieces: &[&str], opts: TokenizerOpts, answers: &[(&str, State)]) -> Vec<String> {
    let mut log = Log::new();
    log.answers = answers.iter().map(|a| (a.0.to_string(), a.1)).collect();
    {
        let mut tok = Tokenizer::new(&mut log, opts);
        for piece in pieces {
            tok.feed(piece.to_string());
        }
        tok.end();
    }
    log.tokens
}

fn run(input: &str) -> Vec<String> {
    run_with(&[input], Default::default(), &[])
}

fn exact() -> TokenizerOpts {
    let mut opts: TokenizerOpts = Default::default();
    opts.exact_errors = true;
    opts
}

fn raw_answers() -> Vec<(&'static str, State)> {
    vec![
        ("title", State::RawData(RawKind::Rcdata)),
        ("style", State::RawData(RawKind::Rawtext)),
        ("script", State::RawData(RawKind::ScriptData)),
        ("plaintext", State::Plaintext),
    ]
}

fn run_raw(input: &str) -> Vec<String> {
    run_with(&[input], Default::default(), &raw_answers())
}

#[test]
fn default_options() {
    let opts: TokenizerOpts = Default::default();
    assert!(!opts.exact_errors);
    assert!(opts.discard_bom);
    assert!(!opts.profile);
    assert_eq!(opts.initial_state, None);
    assert_eq!(opts.last_start_tag_name, None);
}

#[test]
fn empty_input_is_only_eof() {
    assert_eq!(run(""), ["eof"]);
}

#[test]
fn text_and_tags() {
    assert_eq!(run("Hello <B>World</b >!"), ["text Hello ", "<b>", "text World", "</b>", "text !", "eof"]);
    assert_eq!(run("<br/>"), ["<br />", "eof"]);
    assert_eq!(run("<a/b>"), ["error Bad character", "<a b=>", "eof"]);
}

#[test]
fn attributes() {
    assert_eq!(
        run("<a HREF=x title='y' id=\"z\" checked>"),
        ["<a href=x title=y id=z checked=>", "eof"]
    );
    assert_eq!(
        run("<a x=1 X=2 y=3>"),
        ["error Duplicate attribute", "<a x=1 y=3>", "eof"]
    );
    assert_eq!(run("<a x = 1>"), ["<a x=1>", "eof"]);
    assert_eq!(run("<a x='1'y=2>"), ["error Bad character", "<a x=1 y=2>", "eof"]);
    assert_eq!(run("<a =x>"), ["error Bad character", "<a =x=>", "eof"]);
    assert_eq!(run("<a x=>"), ["error Bad character", "<a x=>", "eof"]);
    assert_eq!(run("<a x=a\0b>"), ["error Bad character", "<a x=a\u{fffd}b>", "eof"]);
}

#[test]
fn end_tags_with_attributes_are_errors() {
    assert_eq!(
        run("</a x/>"),
        ["error Attributes on an end tag", "error Self-closing end tag", "</a x= />", "eof"]
    );
}

#[test]
fn stray_signs() {
    assert_eq!(run("a < b"), ["text a ", "error Bad character", "text < b", "eof"]);
    assert_eq!(run("</>x"), ["error Bad character", "text x", "eof"]);
    assert_eq!(run("<?xml?>"), ["error Bad character", "comment ?xml?", "eof"]);
    assert_eq!(run("</ x>"), ["error Bad character", "comment  x", "eof"]);
}

#[test]
fn null_characters() {
    assert_eq!(run("a\0b"), ["text a", "error Bad character", "null", "text b", "eof"]);
    assert_eq!(
        run_raw("<title>a\0</title>"),
        ["<title>", "text a", "error Bad character", "text \u{fffd}", "</title>", "eof"]
    );
    assert_eq!(run("<a\0>"), ["error Bad character", "<a\u{fffd}>", "eof"]);
}

#[test]
fn comments() {
    assert_eq!(run("<!-- a -->"), ["comment  a ", "eof"]);
    assert_eq!(run("<!---->"), ["comment ", "eof"]);
    assert_eq!(run("<!-->"), ["error Bad character", "comment ", "eof"]);
    assert_eq!(run("<!--->"), ["error Bad character", "comment ", "eof"]);
    assert_eq!(run("<!-- a - b -- c --!d -->"), [
        "error Bad character",
        "error Bad character",
        "comment  a - b -- c --!d ",
        "eof"
    ]);
    assert_eq!(run("<!--a--!>"), ["error Bad character", "comment a", "eof"]);
    assert_eq!(run("<!--a--->"), ["error Bad character", "comment a-", "eof"]);
    assert_eq!(run("<!--a"), ["error Unexpected EOF", "comment a", "eof"]);
    assert_eq!(run("<!x>y"), ["error Bad character", "comment x", "text y", "eof"]);
    assert_eq!(run("<!--a\0-->"), ["error Bad character", "comment a\u{fffd}", "eof"]);
}

#[test]
fn doctypes() {
    assert_eq!(run("<!DOCTYPE html>"), ["doctype html - - false", "eof"]);
    assert_eq!(run("<!doctype HTML >"), ["doctype html - - false", "eof"]);
    assert_eq!(
        run("<!DOCTYPE html PUBLIC \"a\" 'b'>"),
        ["doctype html a b false", "eof"]
    );
    assert_eq!(run("<!DOCTYPE html sYsTeM 'b'>"), ["doctype html - b false", "eof"]);
    assert_eq!(
        run("<!DOCTYPE>"),
        ["error Bad character", "error Bad character", "doctype - - - true", "eof"]
    );
    assert_eq!(
        run("<!DOCTYPE html x>"),
        ["error Bad character", "doctype html - - true", "eof"]
    );
    assert_eq!(
        run("<!DOCTYPE html PUBLIC 'a>"),
        ["error Bad character", "doctype html a - true", "eof"]
    );
    assert_eq!(
        run("<!DOCTYPE html"),
        ["error Unexpected EOF", "doctype html - - true", "eof"]
    );
    assert_eq!(
        run("<!DOCTYPE\nhtml\n\nSYSTEM\n''\n>"),
        ["doctype html -  false", "eof"]
    );
}

#[test]
fn numeric_character_references() {
    assert_eq!(run("&#65;&#x42;&#X43;"), ["text ABC", "eof"]);
    assert_eq!(run("&#x80;"), ["error Invalid numeric character reference", "text \u{20ac}", "eof"]);
    assert_eq!(run("&#x9f;"), ["error Invalid numeric character reference", "text \u{178}", "eof"]);
    assert_eq!(run("&#x81;"), ["error Invalid numeric character reference", "text \u{81}", "eof"]);
    assert_eq!(run("&#0;"), ["error Invalid numeric character reference", "text \u{fffd}", "eof"]);
    assert_eq!(run("&#xD800;"), ["error Invalid numeric character reference", "text \u{fffd}", "eof"]);
    assert_eq!(run("&#x110000;"), ["error Invalid numeric character reference", "text \u{fffd}", "eof"]);
    assert_eq!(
        run("&#99999999999999999999;"),
        ["error Invalid numeric character reference", "text \u{fffd}", "eof"]
    );
    assert_eq!(run("&#x10FFFD;"), ["text \u{10fffd}", "eof"]);
    assert_eq!(
        run("&#x10FFFF;"),
        ["error Invalid numeric character reference", "text \u{10ffff}", "eof"]
    );
    assert_eq!(
        run("&#65 "),
        ["error Semicolon missing after numeric character reference", "text A ", "eof"]
    );
    assert_eq!(run("&#;"), ["error Numeric character reference without digits", "text &#;", "eof"]);
    assert_eq!(run("&#xg"), ["error Numeric character reference without digits", "text &#xg", "eof"]);
    assert_eq!(run("&#"), ["error EOF after '#' in character reference", "text &#", "eof"]);
    assert_eq!(run("&#x"), ["error Numeric character reference without digits", "text &#x", "eof"]);
    assert_eq!(run("&#65"), ["error EOF in numeric character reference", "text A", "eof"]);
}

#[test]
fn exact_numeric_errors_show_the_number() {
    assert_eq!(
        run_with(&["&#x80;"], exact(), &[])[0],
        "error Invalid numeric character reference value 0x000080"
    );
    assert_eq!(
        run_with(&["&#xAbCdE1;"], exact(), &[])[0],
        "error Invalid numeric character reference value 0xABCDE1"
    );
}

#[test]
fn named_character_references() {
    assert_eq!(run("&amp;&lt;"), ["text &<", "eof"]);
    assert_eq!(run("&notin;"), ["text \u{2209}", "eof"]);
    assert_eq!(run("&NotEqualTilde;"), ["text \u{2242}\u{338}", "eof"]);
    assert_eq!(
        run("&notit;"),
        ["error Character reference does not end with semicolon", "text \u{ac}it;", "eof"]
    );
    assert_eq!(
        run("&notx"),
        ["error Character reference does not end with semicolon", "text \u{ac}x", "eof"]
    );
    assert_eq!(
        run("&amp"),
        ["error Character reference does not end with semicolon", "text &", "eof"]
    );
    assert_eq!(run("& &<b>"), ["text & &", "<b>", "eof"]);
    assert_eq!(run("&;"), ["text &;", "eof"]);
    assert_eq!(run("&xyz;"), ["error Invalid character reference", "text &xyz;", "eof"]);
    assert_eq!(run("&xyz"), ["text &xyz", "eof"]);
    assert_eq!(run("&no"), ["text &no", "eof"]);
    assert_eq!(
        run_with(&["&xyz;"], exact(), &[])[0],
        "error Invalid character reference &xyz;"
    );
}

#[test]
fn the_table_of_names() {
    let all = named_entities();
    assert_eq!(all.len(), 2231);
    let find = |name: &str| {
        all.iter()
            .find(|e| e.name.iter().collect::<String>() == name)
            .map(|e| (e.first, e.second))
    };
    assert_eq!(find("AElig"), Some(('\u{c6}', None)));
    assert_eq!(find("amp;"), Some(('&', None)));
    assert_eq!(find("zwnj;"), Some(('\u{200c}', None)));
    assert_eq!(find("NotEqualTilde;"), Some(('\u{2242}', Some('\u{338}'))));
    assert_eq!(find("Afr;"), Some(('\u{1d504}', None)));
    assert_eq!(find("nosuch;"), None);
    assert_eq!(run("&Afr;&zwnj;&AElig"), [
        "text \u{1d504}\u{200c}",
        "error Character reference does not end with semicolon",
        "text \u{c6}",
        "eof"
    ]);
}

#[test]
fn tables_are_parsed() {
    let mut v = vec![];
    parse_table(&mut v, "a;:61 bc:62,1F600 d:D800 e:FFFFFFFFF f");
    let got: Vec<(String, char, Option<char>)> =
        v.iter().map(|e| (e.name.iter().collect(), e.first, e.second)).collect();
    assert_eq!(got, vec![
        ("a;".to_string(), 'a', None),
        ("bc".to_string(), 'b', Some('\u{1f600}')),
        ("d".to_string(), '\u{fffd}', None),
        ("e".to_string(), '\u{fffd}', None),
        ("f".to_string(), '\0', None),
    ]);
}

#[test]
fn references_in_attributes() {
    assert_eq!(run("<a x='&amp;'>"), ["<a x=&>", "eof"]);
    assert_eq!(run("<a x=&lt;>"), ["<a x=<>", "eof"]);
    assert_eq!(
        run("<a x='?a=b&not=c'>"),
        [
            "error Equals sign after character reference in attribute",
            "<a x=?a=b&not=c>",
            "eof"
        ]
    );
    assert_eq!(run("<a x='&notx'>"), ["<a x=&notx>", "eof"]);
    assert_eq!(run("<a x='&'>"), ["<a x=&>", "eof"]);
    assert_eq!(run("<a x=&>"), ["<a x=&>", "eof"]);
}

#[test]
fn raw_text() {
    assert_eq!(
        run_raw("<title>a<b>&amp;</titlex></TITLE>"),
        ["<title>", "text a<b>&</titlex>", "</title>", "eof"]
    );
    assert_eq!(
        run_raw("<style>a&amp;</styl></style x>"),
        [
            "<style>",
            "text a&amp;</styl>",
            "error Attributes on an end tag",
            "</style x=>",
            "eof"
        ]
    );
    assert_eq!(run_raw("<plaintext></plaintext>"), ["<plaintext>", "text </plaintext>", "eof"]);
    assert_eq!(run_raw("<title></ti"), ["<title>", "text </ti", "eof"]);
}

#[test]
fn scripts() {
    assert_eq!(
        run_raw("<script>a<b</script>"),
        ["<script>", "text a<b", "</script>", "eof"]
    );
    assert_eq!(
        run_raw("<script><!-- <script> </script> --></script>"),
        ["<script>", "text <!-- <script> </script> -->", "</script>", "eof"]
    );
    assert_eq!(
        run_raw("<script><!-- </script>"),
        ["<script>", "text <!-- ", "</script>", "eof"]
    );
    assert_eq!(
        run_raw("<script><!--a"),
        ["<script>", "text <!--a", "error Unexpected EOF", "eof"]
    );
}

#[test]
fn initial_state_and_last_start_tag() {
    let mut opts: TokenizerOpts = Default::default();
    opts.initial_state = Some(State::RawData(RawKind::Rcdata));
    opts.last_start_tag_name = Some("textarea".to_string());
    assert_eq!(
        run_with(&["<b></textarea><b>"], opts, &[]),
        ["text <b>", "</textarea>", "<b>", "eof"]
    );
}

#[test]
fn line_breaks() {
    assert_eq!(run("a\r\nb\rc\nd\r\r\n"), ["text a\nb\nc\nd\n\n", "eof"]);
    assert_eq!(
        run_with(&["a\r", "\nb", "\r", "\r", "\n", "\n"], Default::default(), &[]),
        ["text a\nb\n\n\n", "eof"]
    );
    assert_eq!(run("<a\r\nb='\r\n'>"), ["<a b=\n>", "eof"]);
}

#[test]
fn byte_order_mark() {
    assert_eq!(run("\u{feff}x"), ["text x", "eof"]);
    assert_eq!(run("x\u{feff}"), ["text x\u{feff}", "eof"]);
    assert_eq!(
        run_with(&["", "\u{feff}", "\u{feff}x"], Default::default(), &[]),
        ["text \u{feff}x", "eof"]
    );
    assert_eq!(
        run_with(&["x", "\u{feff}y"], Default::default(), &[]),
        ["text x\u{feff}y", "eof"]
    );
    let mut opts: TokenizerOpts = Default::default();
    opts.discard_bom = false;
    assert_eq!(run_with(&["\u{feff}x"], opts, &[]), ["text \u{feff}x", "eof"]);
}

#[test]
fn exact_errors_name_character_and_state() {
    assert_eq!(
        run_with(&["<1>"], exact(), &[])[0],
        "error Saw '1' in state TagOpen"
    );
    assert_eq!(
        run_with(&["a\u{1}b"], exact(), &[]),
        ["text a", "error Bad character '\\u{1}'", "text \u{1}b", "eof"]
    );
    assert_eq!(
        run_with(&["<title>\0"], exact(), &raw_answers())[1],
        "error Saw '\\0' in state RawData(Rcdata)"
    );
    assert_eq!(
        run_with(&["<!--"], exact(), &[])[0],
        "error Saw EOF in state CommentStart"
    );
}

#[test]
fn exact_errors_change_nothing_but_errors() {
    for input in [
        "<a x=\"1\"y=b\"c d='<'>&amp;&#x80;</a x>\0<!-->",
        "<!DOCTYPE html PUBLIC x><p>\u{1}a<?b>",
    ] {
        let keep = |v: Vec<String>| -> Vec<String> {
            let mut out: Vec<String> = vec![];
            for t in v.into_iter().filter(|t| !t.starts_with("error ")) {
                if t.starts_with("text ") && out.last().map_or(false, |l| l.starts_with("text ")) {
                    out.last_mut().unwrap().push_str(&t[5..]);
                } else {
                    out.push(t);
                }
            }
            out
        };
        assert_eq!(
            keep(run_with(&[input], exact(), &[])),
            keep(run_with(&[input], Default::default(), &[]))
        );
    }
}

#[test]
fn ends_inside_things() {
    assert_eq!(run("<"), ["error Unexpected EOF", "text <", "eof"]);
    assert_eq!(run("</"), ["error Unexpected EOF", "text </", "eof"]);
    assert_eq!(run("<a x"), ["error Unexpected EOF", "eof"]);
    assert_eq!(run("<!"), ["error Bad character", "comment ", "eof"]);
    assert_eq!(run("<!-"), ["error Bad character", "comment -", "eof"]);
    assert_eq!(run("<!doc"), ["error Bad character", "comment doc", "eof"]);
    assert_eq!(
        run("<!DOCTYPE"),
        ["error Unexpected EOF", "doctype - - - true", "eof"]
    );
    assert_eq!(
        run("<!DOCTYPE a sys"),
        ["error Bad character", "doctype a - - true", "eof"]
    );
}

#[test]
fn cuts_do_not_matter() {
    let docs = [
        "\u{feff}<!DOCTYPE html PUBLIC \"a\" 'b'><p class=\"x&amp;y\">a\r\nb&notin;&#x41;&not&zz;<!-- c --></p>",
        "<script><!-- <script>x</script> --></script><title>&amp;</titl></title>",
        "<!DOCTYPE a\r\nsystem 'q'>\r\n\r\r<a b=\r\nc\r\nd=&amp>&#6&#x&",
    ];
    for doc in docs {
        let whole = run_with(&[doc], Default::default(), &raw_answers());
        let chars: Vec<String> = doc.chars().map(|c| c.to_string()).collect();
        let pieces: Vec<&str> = chars.iter().map(|s| s.as_str()).collect();
        assert_eq!(run_with(&pieces, Default::default(), &raw_answers()), whole);
        let whole_exact = run_with(&[doc], exact(), &raw_answers());
        assert_eq!(run_with(&pieces, exact(), &raw_answers()), whole_exact);
        for cut in 1..chars.len() {
            let a: String = chars[..cut].concat();
            let b: String = chars[cut..].concat();
            assert_eq!(run_with(&[&a, &b], Default::default(), &raw_answers()), whole);
        }
    }
}

#[test]
fn feeding_nothing_does_nothing() {
    assert_eq!(
        run_with(&["", "a", "", "<b", "", ">", ""], Default::default(), &[]),
        ["text a", "<b>", "eof"]
    );
}

#[test]
fn one_eof_at_the_end() {
    for input in ["", "<", "<!--", "&am", "<!DOCTYPE", "</x", "<a b='"] {
        let tokens = run(input);
        assert_eq!(tokens.iter().filter(|t| *t == "eof").count(), 1);
        assert_eq!(tokens.last().unwrap(), "eof");
    }
}

#[test]
fn profile_has_an_entry_for_each_state() {
    let mut opts: TokenizerOpts = Default::default();
    opts.profile = true;
    let mut log = Log::new();
    {
        let mut tok = Tokenizer::new(&mut log, opts);
        tok.feed("a<b>".to_string());
        tok.end();
        let results = tok.profile_results();
        for state in [State::Data, State::TagOpen, State::TagName] {
            assert_eq!(results.iter().filter(|e| e.0 == state).count(), 1);
        }
        assert_eq!(results.len(), 3);
        for pair in results.windows(2) {
            assert!(pair[0].1 >= pair[1].1);
        }
        let sum = results.iter().fold(0u64, |a, e| a.wrapping_add(e.1));
        assert_eq!(total_time(&results), sum);
        let _ = tok.time_in_sink();
    }
    assert_eq!(log.tokens, ["text a", "<b>", "eof"]);
}

#[test]
fn without_profile_no_time_is_kept() {
    let mut log = Log::new();
    let mut tok = Tokenizer::new(&mut log, Default::default());
    tok.feed("a<b>".to_string());
    tok.end();
    assert_eq!(tok.profile_results(), vec![]);
    assert_eq!(tok.time_in_sink(), 0);
}

#[test]
fn states_have_names() {
    assert_eq!(State::Data.describe(), "Data");
    assert_eq!(
        State::RawData(RawKind::ScriptDataEscaped(ScriptEscapeKind::DoubleEscaped)).describe(),
        "RawData(ScriptDataEscaped(DoubleEscaped))"
    );
}

#[test]
fn times_add_up_modulo() {
    let entries = vec![(State::Data, u64::MAX), (State::TagOpen, 3)];
    assert_eq!(total_time(&entries), 2);
}

#[test]
fn long_times_wrap() {
    assert_eq!(wrapped_ns(0), 0);
    assert_eq!(wrapped_ns(u64::MAX as u128), u64::MAX);
    assert_eq!(wrapped_ns((1u128 << 64) + 5), 5);
}

#[test]
fn names_have_no_capitals_and_text_has_no_carriage_return() {
    assert_eq!(run("<DIV Class=A ID>x\ry\r\nz</Div>"), [
        "<div class=A id=>",
        "text x\ny\nz",
        "</div>",
        "eof"
    ]);
    assert_eq!(run("&#13;"), [
        "error Invalid numeric character reference",
        "text \r",
        "eof"
    ]);
}

#[test]
fn characters_pile_up_within_a_state() {
    assert_eq!(run("a\0b"), ["text a", "error Bad character", "null", "text b", "eof"]);
    let from = |state: State, input: &str| {
        let mut log = Log::new();
        let mut opts: TokenizerOpts = Default::default();
        opts.initial_state = Some(state);
        let mut tok = Tokenizer::new(&mut log, opts);
        tok.feed(input.to_string());
        tok.end();
        log.tokens
    };
    assert_eq!(from(State::CommentEnd, "-->"), [
        "error Bad character",
        "error Bad character",
        "comment --",
        "eof"
    ]);
}
