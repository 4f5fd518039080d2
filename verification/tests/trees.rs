use html5ever::serialize::SerializeCall;
use html5ever::sink::common::NodeEnum;
use html5ever::sink::owned_dom::{Handle, Node, OwnedDom, Sink};
use html5ever::tokenizer::{self, AttrName, Attribute, Doctype, Tag, TagKind};
use html5ever::tokenizer::states::{RawKind, State};
use html5ever::tree_builder::data::doctype_error_and_quirks;
use html5ever::tree_builder::{
    InsertionMode, NodeOrText, ProcessResult, QuirksMode, SplitStatus, Token, TreeBuilder,
    TreeBuilderOpts, TreeSink, Work,
};
use html5ever::util::atom::Atom;
use html5ever::util::maybe_owned::MaybeOwned;
use html5ever::util::namespace::Namespace;

fn attr(name: &str, value: &str) -> Attribute {
    Attribute { name: AttrName::new(Atom::from_slice(name)), value: value.to_string() }
}

fn elem(sink: &mut Sink, name: &str) -> Handle {
    sink.create_element(Namespace::HTML, Atom::from_slice(name), vec![])
}

fn text(s: &str) -> NodeOrText<Handle> {
    NodeOrText::AppendText(s.to_string())
}

/// The calls of a serialization, as text.
fn written(node: &Node, incl_self: bool) -> String {
    let mut s = String::new();
    for call in node.serialize(incl_self) {
        match call {
            SerializeCall::StartElem(_, name, attrs) => {
                s.push_str(&format!("<{}", name.as_slice()));
                for a in attrs.iter() {
                    s.push_str(&format!(" {}={}", a.name.as_slice(), a.value));
                }
                s.push('>');
            }
            SerializeCall::EndElem(_, name) => s.push_str(&format!("</{}>", name.as_slice())),
            SerializeCall::WriteDoctype(name) => s.push_str(&format!("<!DOCTYPE {}>", name)),
            SerializeCall::WriteText(t) => s.push_str(t),
            SerializeCall::WriteComment(t) => s.push_str(&format!("<!--{}-->", t)),
        }
    }
    s
}

fn finished(sink: Sink) -> String {
    assert!(!sink.document_is_above_itself());
    written(&OwnedDom::get_result(sink).document, false)
}

#[test]
fn a_new_tree_is_an_empty_document() {
    let sink: Sink = Default::default();
    let dom = OwnedDom::get_result(sink);
    assert!(matches!(dom.document.node, NodeEnum::Document));
    assert_eq!(dom.document.children.len(), 0);
    assert_eq!(dom.errors.len(), 0);
    assert_eq!(dom.quirks_mode, QuirksMode::NoQuirks);
}

#[test]
fn a_tree_is_built_and_written() {
    let mut sink: Sink = Default::default();
    let doc = sink.get_document();
    sink.append_doctype_to_document("html".to_string(), "p".to_string(), "s".to_string());
    let html = sink.create_element(
        Namespace::HTML,
        Atom::from_slice("html"),
        vec![attr("lang", "en")],
    );
    sink.append(doc, NodeOrText::AppendNode(html));
    sink.append(html, text("a"));
    sink.append(html, text("b"));
    let c = sink.create_comment("note".to_string());
    sink.append(html, NodeOrText::AppendNode(c));
    sink.append(html, text("c"));
    sink.parse_error(MaybeOwned::Slice("oops"));
    sink.set_quirks_mode(QuirksMode::LimitedQuirks);
    sink.mark_script_already_started(html);
    let dropped = elem(&mut sink, "lost");
    sink.append(dropped, text("nobody sees this"));
    let dom = OwnedDom::get_result(sink);
    assert_eq!(
        written(&dom.document, false),
        "<!DOCTYPE html><html lang=en>ab<!--note-->c</html>"
    );
    assert_eq!(dom.document.children[1].children.len(), 3);
    assert_eq!(written(&dom.document.children[1], false), "ab<!--note-->c");
    assert_eq!(written(&dom.document.children[0], true), "<!DOCTYPE html>");
    assert_eq!(written(&dom.document.children[0], false), "");
    assert_eq!(dom.errors.len(), 1);
    assert_eq!(dom.errors[0].as_slice(), "oops");
    assert_eq!(dom.quirks_mode, QuirksMode::LimitedQuirks);
}

#[test]
fn elements_have_names() {
    let mut sink: Sink = Default::default();
    let p = elem(&mut sink, "p");
    let q = elem(&mut sink, "p");
    let (ns, name) = sink.elem_name(&p);
    assert_eq!(ns, Namespace::HTML);
    assert_eq!(name.as_slice(), "p");
    assert!(sink.same_node(p, p));
    assert!(!sink.same_node(p, q));
}

#[test]
fn nodes_are_put_before_siblings() {
    let mut sink: Sink = Default::default();
    let doc = sink.get_document();
    let a = elem(&mut sink, "a");
    let b = elem(&mut sink, "b");
    let c = elem(&mut sink, "c");
    sink.append(doc, NodeOrText::AppendNode(a));
    sink.append(doc, NodeOrText::AppendNode(b));
    assert!(sink.append_before_sibling(b, NodeOrText::AppendNode(c)).is_ok());
    assert!(sink.append_before_sibling(b, text("x")).is_ok());
    assert!(sink.append_before_sibling(b, text("y")).is_ok());
    assert!(sink.append_before_sibling(a, text("z")).is_ok());
    assert_eq!(finished(sink), "z<a></a><c></c>xy<b></b>");
}

#[test]
fn nodes_are_moved() {
    let mut sink: Sink = Default::default();
    let doc = sink.get_document();
    let a = elem(&mut sink, "a");
    let b = elem(&mut sink, "b");
    let c = elem(&mut sink, "c");
    sink.append(doc, NodeOrText::AppendNode(a));
    sink.append(doc, NodeOrText::AppendNode(b));
    sink.append(a, NodeOrText::AppendNode(c));
    assert!(sink.append_before_sibling(b, NodeOrText::AppendNode(c)).is_ok());
    assert!(sink.append_before_sibling(a, NodeOrText::AppendNode(b)).is_ok());
    assert_eq!(finished(sink), "<b></b><a></a><c></c>");
}

#[test]
fn a_node_that_stands_before_stays_before() {
    let mut sink: Sink = Default::default();
    let doc = sink.get_document();
    let a = elem(&mut sink, "a");
    let b = elem(&mut sink, "b");
    let c = elem(&mut sink, "c");
    for h in [a, b, c] {
        sink.append(doc, NodeOrText::AppendNode(h));
    }
    assert!(sink.append_before_sibling(b, NodeOrText::AppendNode(a)).is_ok());
    assert!(sink.append_before_sibling(b, NodeOrText::AppendNode(b)).is_ok());
    assert!(sink.append_before_sibling(c, NodeOrText::AppendNode(a)).is_ok());
    assert_eq!(finished(sink), "<b></b><a></a><c></c>");
}

#[test]
fn without_a_parent_nothing_is_put() {
    let mut sink: Sink = Default::default();
    let a = elem(&mut sink, "a");
    let b = elem(&mut sink, "b");
    match sink.append_before_sibling(a, NodeOrText::AppendNode(b)) {
        Err(NodeOrText::AppendNode(h)) => assert!(sink.same_node(h, b)),
        _ => panic!("the node should come back"),
    }
    match sink.append_before_sibling(a, text("t")) {
        Err(NodeOrText::AppendText(t)) => assert_eq!(t, "t"),
        _ => panic!("the text should come back"),
    }
    assert_eq!(finished(sink), "");
}

#[test]
fn a_tree_can_go_round_in_a_circle() {
    let mut sink: Sink = Default::default();
    let doc = sink.get_document();
    let a = elem(&mut sink, "a");
    let b = elem(&mut sink, "b");
    let c = elem(&mut sink, "c");
    sink.append(a, NodeOrText::AppendNode(doc));
    assert!(!sink.document_is_above_itself());
    sink.append(b, NodeOrText::AppendNode(a));
    sink.append(doc, NodeOrText::AppendNode(c));
    assert!(!sink.document_is_above_itself());
    sink.append(c, NodeOrText::AppendNode(b));
    assert!(sink.document_is_above_itself());
    sink.remove_from_parent(b);
    assert_eq!(finished(sink), "<c></c>");
}

#[test]
fn remove_undoes_append() {
    let mut sink: Sink = Default::default();
    let doc = sink.get_document();
    let a = elem(&mut sink, "a");
    let b = elem(&mut sink, "b");
    sink.append(doc, NodeOrText::AppendNode(a));
    sink.append(doc, NodeOrText::AppendNode(b));
    sink.remove_from_parent(b);
    sink.remove_from_parent(b);
    sink.append(a, NodeOrText::AppendNode(b));
    assert_eq!(finished(sink), "<a><b></b></a>");
}

#[test]
fn missing_attributes_are_added() {
    let mut sink: Sink = Default::default();
    let doc = sink.get_document();
    let a = sink.create_element(
        Namespace::HTML,
        Atom::from_slice("a"),
        vec![attr("x", "1")],
    );
    sink.append(doc, NodeOrText::AppendNode(a));
    sink.add_attrs_if_missing(a, vec![attr("x", "2"), attr("y", "3"), attr("y", "4")]);
    sink.add_attrs_if_missing(doc, vec![attr("x", "2")]);
    assert_eq!(finished(sink), "<a x=1 y=3 y=4></a>");
}

fn doctype(
    name: Option<&str>,
    public_id: Option<&str>,
    system_id: Option<&str>,
    force_quirks: bool,
) -> Doctype {
    Doctype {
        name: name.map(|s| s.to_string()),
        public_id: public_id.map(|s| s.to_string()),
        system_id: system_id.map(|s| s.to_string()),
        force_quirks,
    }
}

#[test]
fn doctypes_call_for_modes() {
    let check = |d: Doctype, srcdoc: bool, want: (bool, QuirksMode)| {
        assert_eq!(doctype_error_and_quirks(&d, srcdoc), want);
    };
    check(doctype(Some("html"), None, None, false), false, (false, QuirksMode::NoQuirks));
    check(doctype(Some("html"), None, None, true), false, (false, QuirksMode::Quirks));
    check(doctype(None, None, None, false), false, (true, QuirksMode::Quirks));
    check(doctype(Some("svg"), None, None, false), true, (true, QuirksMode::Quirks));
    check(
        doctype(Some("html"), None, Some("about:legacy-compat"), false),
        false,
        (false, QuirksMode::NoQuirks),
    );
    check(
        doctype(Some("html"), Some("-//W3C//DTD HTML 4.01//EN"), None, false),
        false,
        (false, QuirksMode::NoQuirks),
    );
    check(
        doctype(Some("html"), Some("-//W3C//DTD HTML 4.01 Transitional//EN"), None, false),
        false,
        (true, QuirksMode::Quirks),
    );
    check(
        doctype(Some("html"), Some("-//W3C//DTD HTML 4.01 Transitional//EN"), Some("x"), false),
        false,
        (true, QuirksMode::LimitedQuirks),
    );
    check(
        doctype(Some("html"), Some("-//W3C//DTD XHTML 1.0 Transitional//EN"), None, false),
        false,
        (true, QuirksMode::LimitedQuirks),
    );
    check(
        doctype(Some("html"), Some("-//W3C//DTD HTML 3.2 Final//EN"), None, false),
        false,
        (true, QuirksMode::Quirks),
    );
    check(
        doctype(Some("html"), Some("-//W3C//DTD HTML 3.2 Final//EN"), None, false),
        true,
        (true, QuirksMode::NoQuirks),
    );
    check(doctype(Some("html"), Some("HTML"), None, false), false, (true, QuirksMode::Quirks));
    check(
        doctype(
            Some("html"),
            None,
            Some("http://www.IBM.com/data/dtd/v11/ibmxhtml1-transitional.dtd"),
            false,
        ),
        false,
        (true, QuirksMode::Quirks),
    );
}

#[test]
fn default_builder_options() {
    let opts: TreeBuilderOpts = Default::default();
    assert!(!opts.exact_errors);
    assert!(opts.scripting_enabled);
    assert!(!opts.iframe_srcdoc);
    assert!(!opts.fragment);
    assert!(!opts.drop_doctype);
}

#[test]
fn a_doctype_comes_first() {
    let mut sink: Sink = Default::default();
    {
        let mut builder: TreeBuilder<Handle, Sink> =
            TreeBuilder::new(&mut sink, Default::default());
        let r = builder.process_token(tokenizer::Token::DoctypeToken(
            doctype(Some("html"), Some("HTML"), None, false),
        ));
        assert!(r.is_none());
        assert_eq!(builder.inner.mode, InsertionMode::BeforeHtml);
        assert_eq!(builder.inner.quirks_mode, QuirksMode::Quirks);
        let r = builder.process_token(tokenizer::Token::DoctypeToken(
            doctype(Some("html"), None, None, false),
        ));
        assert!(r.is_none());
        assert_eq!(builder.inner.mode, InsertionMode::BeforeHtml);
        assert_eq!(builder.inner.quirks_mode, QuirksMode::Quirks);
    }
    let dom = OwnedDom::get_result(sink);
    assert_eq!(dom.quirks_mode, QuirksMode::Quirks);
    assert_eq!(dom.errors.len(), 2);
    assert_eq!(dom.errors[0].as_slice(), "Bad DOCTYPE");
    assert_eq!(dom.errors[1].as_slice(), "DOCTYPE in body");
    match &dom.document.children[0].node {
        NodeEnum::Doctype(name, public_id, system_id) => {
            assert_eq!((name.as_str(), public_id.as_str(), system_id.as_str()), ("html", "HTML", ""));
        }
        _ => panic!("a doctype"),
    }
}

#[test]
fn exact_doctype_errors() {
    let mut sink: Sink = Default::default();
    {
        let mut opts: TreeBuilderOpts = Default::default();
        opts.exact_errors = true;
        opts.drop_doctype = true;
        let mut builder: TreeBuilder<Handle, Sink> = TreeBuilder::new(&mut sink, opts);
        for _ in 0..2 {
            builder.process_token(tokenizer::Token::DoctypeToken(
                doctype(Some("x"), None, Some("y"), true),
            ));
        }
        builder.process_token(tokenizer::Token::ParseError(MaybeOwned::Slice("other")));
    }
    let dom = OwnedDom::get_result(sink);
    assert_eq!(dom.document.children.len(), 0);
    assert_eq!(
        dom.errors[0].as_slice(),
        "Bad DOCTYPE: Doctype { name: Some(x), public_id: None, system_id: Some(y), force_quirks: true }"
    );
    assert_eq!(dom.errors[1].as_slice(), "DOCTYPE in insertion mode BeforeHtml");
    assert_eq!(dom.errors[2].as_slice(), "other");
}

#[test]
fn a_line_feed_can_be_ignored() {
    let mut sink: Sink = Default::default();
    let mut builder: TreeBuilder<Handle, Sink> = TreeBuilder::new(&mut sink, Default::default());
    let show = |t: Option<Token>| match t {
        Some(Token::CharacterTokens(SplitStatus::NotSplit, s)) => s,
        None => "none".to_string(),
        _ => panic!("text"),
    };
    let chars = |s: &str| tokenizer::Token::CharacterTokens(s.to_string());
    assert_eq!(show(builder.process_token(chars("\na"))), "\na");
    builder.inner.ignore_lf = true;
    assert_eq!(show(builder.process_token(chars("\n\na"))), "\na");
    assert!(!builder.inner.ignore_lf);
    builder.inner.ignore_lf = true;
    assert_eq!(show(builder.process_token(chars("\n"))), "none");
    builder.inner.ignore_lf = true;
    assert_eq!(show(builder.process_token(chars("x\n"))), "x\n");
    assert_eq!(show(builder.process_token(chars(""))), "none");
}

#[test]
fn other_tokens_go_to_the_rules() {
    let mut sink: Sink = Default::default();
    let mut builder: TreeBuilder<Handle, Sink> = TreeBuilder::new(&mut sink, Default::default());
    assert!(matches!(
        builder.process_token(tokenizer::Token::EOFToken),
        Some(Token::EOFToken)
    ));
    assert!(matches!(
        builder.process_token(tokenizer::Token::NullCharacterToken),
        Some(Token::NullCharacterToken)
    ));
    match builder.process_token(tokenizer::Token::CommentToken("c".to_string())) {
        Some(Token::CommentToken(s)) => assert_eq!(s, "c"),
        _ => panic!("a comment"),
    }
}

fn tag(self_closing: bool) -> Token {
    Token::TagToken(Tag {
        kind: TagKind::StartTag,
        name: Atom::from_slice("br"),
        self_closing,
        attrs: vec![],
    })
}

#[test]
fn self_closing_tags_are_acknowledged_or_not() {
    let mut sink: Sink = Default::default();
    {
        let mut builder: TreeBuilder<Handle, Sink> =
            TreeBuilder::new(&mut sink, Default::default());
        let mut work = Work::new(&tag(true));
        assert!(builder.resume(&mut work, ProcessResult::DoneAckSelfClosing).is_none());
        let mut work = Work::new(&tag(false));
        assert!(builder.resume(&mut work, ProcessResult::Done).is_none());
        let mut work = Work::new(&tag(true));
        assert!(builder.resume(&mut work, ProcessResult::Done).is_none());
        let mut work = Work::new(&tag(false));
        let next = builder.resume(
            &mut work,
            ProcessResult::Reprocess(InsertionMode::InBody, tag(true)),
        );
        assert!(matches!(next, Some(Token::TagToken(_))));
        assert_eq!(builder.inner.mode, InsertionMode::InBody);
        assert!(builder.resume(&mut work, ProcessResult::Done).is_none());
    }
    let dom = OwnedDom::get_result(sink);
    let errors: Vec<&str> = dom.errors.iter().map(|e| e.as_slice()).collect();
    assert_eq!(errors, ["Unacknowledged self-closing tag", "Unacknowledged self-closing tag"]);
}

#[test]
fn white_space_is_split_off() {
    let mut sink: Sink = Default::default();
    let mut builder: TreeBuilder<Handle, Sink> = TreeBuilder::new(&mut sink, Default::default());
    let buf = " \n ab  c".to_string();
    let first = Token::CharacterTokens(SplitStatus::NotSplit, buf);
    let mut work = Work::new(&first);
    let mut token = Some(first);
    let mut seen: Vec<(SplitStatus, String)> = vec![];
    while let Some(t) = token {
        let result = match t {
            Token::CharacterTokens(SplitStatus::NotSplit, s) => ProcessResult::SplitWhitespace(s),
            Token::CharacterTokens(split, s) => {
                seen.push((split, s));
                ProcessResult::Done
            }
            _ => panic!("text"),
        };
        token = builder.resume(&mut work, result);
    }
    let want = [
        (SplitStatus::Whitespace, " \n "),
        (SplitStatus::NotWhitespace, "ab"),
        (SplitStatus::Whitespace, "  "),
        (SplitStatus::NotWhitespace, "c"),
    ];
    assert_eq!(seen.len(), want.len());
    for (got, want) in seen.iter().zip(want.iter()) {
        assert_eq!((got.0, got.1.as_str()), *want);
    }
    let mut work = Work::new(&tag(false));
    assert!(builder.resume(&mut work, ProcessResult::SplitWhitespace(String::new())).is_none());
}

#[test]
fn a_state_change_is_asked_for_once() {
    let mut sink: Sink = Default::default();
    let mut builder: TreeBuilder<Handle, Sink> = TreeBuilder::new(&mut sink, Default::default());
    assert_eq!(builder.query_state_change(), None);
    builder.inner.next_tokenizer_state = Some(State::RawData(RawKind::Rcdata));
    assert_eq!(builder.query_state_change(), Some(State::RawData(RawKind::Rcdata)));
    assert_eq!(builder.query_state_change(), None);
}

#[test]
fn open_elements_are_dumped() {
    let mut sink: Sink = Default::default();
    let html = elem(&mut sink, "html");
    let body = elem(&mut sink, "body");
    let mut builder: TreeBuilder<Handle, Sink> = TreeBuilder::new(&mut sink, Default::default());
    assert_eq!(builder.dump_state("x"), "dump_state on x\n    open_elems:\n");
    builder.inner.open_elems.push(html);
    builder.inner.open_elems.push(body);
    assert_eq!(builder.dump_state("y"), "dump_state on y\n    open_elems: html body\n");
}
