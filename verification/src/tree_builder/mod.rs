//! The HTML5 tree builder.
//!
//! The rules of tree construction are not part of this module: they say what a token
//! does in an insertion mode. Here stands what comes before them and after them. A token
//! of the tokenizer is handed to `process_token`, which deals with errors and doctypes
//! itself, and makes any other into a token for the rules. What the rules make of it is
//! handed to `resume`, which tells the token that they are to be applied to next.

use vstd::prelude::*;
use std::collections::VecDeque;
use crate::tokenizer;
use crate::tokenizer::interface::{Doctype, DoctypeView};
use crate::tokenizer::states::State;
use crate::tree_builder::data::{doctype_error_and_quirks, doctype_is_fine, doctype_quirks};
use crate::tree_builder::types::{ProcessResultView, TokenView};
use crate::util::maybe_owned::MaybeOwned;
use crate::util::namespace::Namespace;
use crate::util::str::{char_run, from_chars, is_space, lemma_run_len, run_len, to_chars};

pub use crate::tree_builder::interface::{NodeOrText, QuirksMode, TreeCall, TreeSink};
pub use crate::tree_builder::types::{
    FormatEntry, InsertionMode, ProcessResult, SplitStatus, Token,
};

pub mod data;
pub mod interface;
pub mod types;

verus! {

/// Tree builder options, with an impl for Default.
#[derive(Clone, Copy, PartialEq, Eq, Structural, Debug)]
pub struct TreeBuilderOpts {
    /// Report all parse errors described in the standard, at some performance
    /// penalty?  Default: false
    pub exact_errors: bool,
    /// Is scripting enabled?
    pub scripting_enabled: bool,
    /// Is this an `iframe srcdoc` document?
    pub iframe_srcdoc: bool,
    /// Are we parsing a HTML fragment?
    pub fragment: bool,
    /// Should we drop the DOCTYPE (if any) from the tree?
    pub drop_doctype: bool,
}

impl Default for TreeBuilderOpts {
    fn default() -> (r: TreeBuilderOpts)
        ensures
            !r.exact_errors,
            r.scripting_enabled,
            !r.iframe_srcdoc,
            !r.fragment,
            !r.drop_doctype,
    {
        TreeBuilderOpts {
            exact_errors: false,
            scripting_enabled: true,
            iframe_srcdoc: false,
            fragment: false,
            drop_doctype: false,
        }
    }
}

/// The HTML tree builder.
pub struct TreeBuilder<'sink, Handle, Sink: TreeSink<Handle>> {
    /// Consumer of tree modifications.
    pub sink: &'sink mut Sink,
    /// Everything else that the tree builder remembers.
    pub inner: BuilderState<Handle>,
}

/// What a tree builder remembers.
pub struct BuilderState<Handle> {
    /// Options controlling the behavior of the tree builder.
    pub opts: TreeBuilderOpts,
    /// Insertion mode.
    pub mode: InsertionMode,
    /// Original insertion mode, used by Text and InTableText modes.
    pub orig_mode: Option<InsertionMode>,
    /// Pending table character tokens.
    pub pending_table_text: Vec<(SplitStatus, String)>,
    /// Quirks mode as set by the parser.
    pub quirks_mode: QuirksMode,
    /// The document node, which is created by the sink.
    pub doc_handle: Handle,
    /// Stack of open elements, most recently added at end.
    pub open_elems: Vec<Handle>,
    /// List of active formatting elements.
    pub active_formatting: Vec<FormatEntry<Handle>>,
    /// Head element pointer.
    pub head_elem: Option<Handle>,
    /// Form element pointer.
    pub form_elem: Option<Handle>,
    /// Next state change for the tokenizer, if any.
    pub next_tokenizer_state: Option<State>,
    /// Frameset-ok flag.
    pub frameset_ok: bool,
    /// Ignore a following U+000A LINE FEED?
    pub ignore_lf: bool,
    /// Is foster parenting enabled?
    pub foster_parenting: bool,
}

/// A token that is being processed.
pub struct Work {
    /// Queue of additional tokens yet to be processed. This stays empty in the common
    /// case where we don't split whitespace.
    more_tokens: VecDeque<Token>,
    /// Is the token a tag that closes itself?
    is_self_closing: bool,
}

/// The contents of a `Work`.
#[verifier::ext_equal]
pub struct WorkView {
    pub more: Seq<TokenView>,
    pub self_closing: bool,
}

impl View for Work {
    type V = WorkView;

    closed spec fn view(&self) -> WorkView {
        WorkView {
            more: self.more_tokens@.map_values(|t: Token| t@),
            self_closing: self.is_self_closing,
        }
    }
}

/// An optional text, as it is shown in a message.
pub open spec fn opt_shown(s: Option<Seq<char>>) -> Seq<char> {
    match s {
        Some(t) => "Some("@ + t + ")"@,
        None => "None"@,
    }
}

/// A doctype, as it is shown in a message.
pub open spec fn doctype_shown(d: DoctypeView) -> Seq<char> {
    "Doctype { name: "@ + opt_shown(d.name) + ", public_id: "@ + opt_shown(d.public_id)
        + ", system_id: "@ + opt_shown(d.system_id) + ", force_quirks: "@ + (if d.force_quirks {
        "true"@
    } else {
        "false"@
    }) + " }"@
}

/// The message about a bad doctype.
pub open spec fn bad_doctype(d: DoctypeView, exact: bool) -> Seq<char> {
    if exact {
        "Bad DOCTYPE: "@ + doctype_shown(d)
    } else {
        "Bad DOCTYPE"@
    }
}

/// The message about a doctype that comes too late.
pub open spec fn late_doctype(mode: InsertionMode, exact: bool) -> Seq<char> {
    if exact {
        "DOCTYPE in insertion mode "@ + mode.text()
    } else {
        "DOCTYPE in body"@
    }
}

/// A text that may be absent; if it is, the empty one.
pub open spec fn or_empty(s: Option<Seq<char>>) -> Seq<char> {
    match s {
        Some(t) => t,
        None => Seq::empty(),
    }
}

/// The calls to the sink when a doctype comes first in the document.
pub open spec fn doctype_calls<Handle>(opts: TreeBuilderOpts, d: DoctypeView) -> Seq<
    TreeCall<Handle>,
> {
    let none = Seq::<TreeCall<Handle>>::empty();
    (if doctype_is_fine(d) {
        none
    } else {
        seq![TreeCall::ParseError(bad_doctype(d, opts.exact_errors))]
    }) + (if opts.drop_doctype {
        none
    } else {
        seq![
            TreeCall::AppendDoctypeToDocument(
                or_empty(d.name),
                or_empty(d.public_id),
                or_empty(d.system_id),
            ),
        ]
    }) + seq![TreeCall::SetQuirksMode(doctype_quirks(d, opts.iframe_srcdoc))]
}

/// The calls to the sink for a token of the tokenizer, before it gets to the rules.
pub open spec fn token_calls<Handle>(
    mode: InsertionMode,
    opts: TreeBuilderOpts,
    t: tokenizer::interface::TokenView,
) -> Seq<TreeCall<Handle>> {
    match t {
        tokenizer::interface::TokenView::ParseError(e) => seq![TreeCall::ParseError(e)],
        tokenizer::interface::TokenView::DoctypeToken(d) => if mode == InsertionMode::Initial {
            doctype_calls(opts, d)
        } else {
            seq![TreeCall::ParseError(late_doctype(mode, opts.exact_errors))]
        },
        _ => Seq::empty(),
    }
}

/// The token for the rules that a token of the tokenizer becomes, if it becomes one. A
/// line feed at the beginning of text is dropped if `ignore_lf`, and empty text is no
/// token.
pub open spec fn token_for_rules(t: tokenizer::interface::TokenView, ignore_lf: bool) -> Option<
    TokenView,
> {
    match t {
        tokenizer::interface::TokenView::ParseError(_) => None,
        tokenizer::interface::TokenView::DoctypeToken(_) => None,
        tokenizer::interface::TokenView::TagToken(x) => Some(TokenView::TagToken(x)),
        tokenizer::interface::TokenView::CommentToken(x) => Some(TokenView::CommentToken(x)),
        tokenizer::interface::TokenView::NullCharacterToken => Some(TokenView::NullCharacterToken),
        tokenizer::interface::TokenView::EOFToken => Some(TokenView::EOFToken),
        tokenizer::interface::TokenView::CharacterTokens(x) => {
            let x = if ignore_lf && x.len() > 0 && x[0] == '\n' {
                x.drop_first()
            } else {
                x
            };
            if x.len() == 0 {
                None
            } else {
                Some(TokenView::CharacterTokens(SplitStatus::NotSplit, x))
            }
        },
    }
}

/// Is this a tag that closes itself?
pub open spec fn closes_itself(t: TokenView) -> bool {
    t matches TokenView::TagToken(tag) && tag.self_closing
}

/// The first part of a text that is split at white space, and what is left.
pub open spec fn split_whitespace(buf: Seq<char>) -> (TokenView, Seq<TokenView>)
    recommends
        buf.len() > 0,
{
    let n = run_len(buf) as int;
    (
        TokenView::CharacterTokens(
            if is_space(buf[0]) {
                SplitStatus::Whitespace
            } else {
                SplitStatus::NotWhitespace
            },
            buf.take(n),
        ),
        if n < buf.len() {
            seq![TokenView::CharacterTokens(SplitStatus::NotSplit, buf.skip(n))]
        } else {
            Seq::empty()
        },
    )
}

/// The token that is processed next, and those that come after it.
pub open spec fn next_token(more: Seq<TokenView>, r: ProcessResultView) -> (
    Option<TokenView>,
    Seq<TokenView>,
) {
    match r {
        ProcessResultView::Reprocess(_, t) => (Some(t), more),
        ProcessResultView::SplitWhitespace(buf) => if buf.len() == 0 {
            (None, Seq::empty())
        } else {
            (Some(split_whitespace(buf).0), more + split_whitespace(buf).1)
        },
        _ => if more.len() == 0 {
            (None, more)
        } else {
            (Some(more[0]), more.drop_first())
        },
    }
}

impl Work {
    /// Begin to process a token.
    pub fn new(token: &Token) -> (r: Work)
        ensures
            r@ == (WorkView { more: Seq::empty(), self_closing: closes_itself(token@) }),
    {
        let r = Work { more_tokens: VecDeque::new(), is_self_closing: Work::closes_itself(token) };
        assert(r@.more =~= Seq::<TokenView>::empty());
        r
    }

    fn closes_itself(token: &Token) -> (r: bool)
        ensures
            r == closes_itself(token@),
    {
        match token {
            Token::TagToken(tag) => tag.self_closing,
            _ => false,
        }
    }

    /// Take the next token from the queue.
    fn pop(&mut self) -> (r: Option<Token>)
        ensures
            ({
                let (next, more) = next_token(old(self)@.more, ProcessResultView::Done);
                &&& (match r {
                    Some(t) => Some(t@),
                    None => None,
                }) == next
                &&& final(self)@ == (WorkView { more, ..old(self)@ })
            }),
    {
        let r = self.more_tokens.pop_front();
        proof {
            if r is Some {
                assert(self@.more =~= old(self)@.more.drop_first());
            }
        }
        r
    }

    /// Split the text `buf` at white space: the first part is next, and the rest comes
    /// last.
    fn split(&mut self, buf: &str) -> (r: Option<Token>)
        ensures
            ({
                let (next, more) = next_token(
                    old(self)@.more,
                    ProcessResultView::SplitWhitespace(buf@),
                );
                &&& (match r {
                    Some(t) => Some(t@),
                    None => None,
                }) == next
                &&& final(self)@ == (WorkView { more, ..old(self)@ })
            }),
    {
        let chars = to_chars(buf);
        match char_run(&chars) {
            None => {
                self.more_tokens = VecDeque::new();
                assert(self@.more =~= Seq::<TokenView>::empty());
                None
            },
            Some((len, is_ws)) => {
                let split = if is_ws {
                    SplitStatus::Whitespace
                } else {
                    SplitStatus::NotWhitespace
                };
                let first = from_chars(&chars, 0, len);
                assert(first@ =~= buf@.take(len as int));
                if len < chars.len() {
                    let rest = from_chars(&chars, len, chars.len());
                    assert(rest@ =~= buf@.skip(len as int));
                    self.more_tokens.push_back(Token::CharacterTokens(SplitStatus::NotSplit, rest));
                }
                assert(self@.more =~= old(self)@.more + split_whitespace(buf@).1);
                Some(Token::CharacterTokens(split, first))
            },
        }
    }
}

/// A doctype, as it is shown in a message.
fn show_doctype(d: &Doctype) -> (r: String)
    ensures
        r@ == doctype_shown(d@),
{
    let mut s = "Doctype { name: ".to_string();
    s.append(show_opt(&d.name).as_str());
    s.append(", public_id: ");
    s.append(show_opt(&d.public_id).as_str());
    s.append(", system_id: ");
    s.append(show_opt(&d.system_id).as_str());
    s.append(", force_quirks: ");
    s.append(
        if d.force_quirks {
            "true"
        } else {
            "false"
        },
    );
    s.append(" }");
    s
}

/// An optional text, as it is shown in a message.
fn show_opt(t: &Option<String>) -> (r: String)
    ensures
        r@ == opt_shown(tokenizer::interface::opt_text(*t)),
{
    match t {
        Some(t) => {
            let mut s = "Some(".to_string();
            s.append(t.as_str());
            s.append(")");
            s
        },
        None => "None".to_string(),
    }
}

/// A text that may be absent; if it is, the empty one.
fn unwrap_or_empty(t: Option<String>) -> (r: String)
    ensures
        r@ == or_empty(tokenizer::interface::opt_text(t)),
{
    match t {
        Some(s) => s,
        None => String::new(),
    }
}

/// The names of elements, each with a space before it.
pub open spec fn spaced_names<Handle, Sink: TreeSink<Handle>>(
    sink: Sink,
    elems: Seq<Handle>,
) -> Seq<char>
    decreases elems.len(),
{
    if elems.len() == 0 {
        Seq::empty()
    } else {
        spaced_names(sink, elems.drop_last()) + " "@ + (sink.name_of(elems.last())->0).1
    }
}

impl<'sink, Handle, Sink: TreeSink<Handle>> TreeBuilder<'sink, Handle, Sink> {
    /// Create a new tree builder which sends tree modifications to a particular
    /// `TreeSink`.
    pub fn new(sink: &'sink mut Sink, opts: TreeBuilderOpts) -> (r: TreeBuilder<
        'sink,
        Handle,
        Sink,
    >)
        requires
            old(sink).inv(),
        ensures
            (*r.sink).inv(),
            (*r.sink).calls() == old(sink).calls().push(TreeCall::GetDocument(r.inner.doc_handle)),
            (*r.sink).is_node(r.inner.doc_handle),
            *final(r.sink) == *final(sink),
            r.inner.opts == opts,
            r.inner.mode == InsertionMode::Initial,
            r.inner.orig_mode is None,
            r.inner.pending_table_text@.len() == 0,
            r.inner.quirks_mode == QuirksMode::NoQuirks,
            r.inner.open_elems@.len() == 0,
            r.inner.active_formatting@.len() == 0,
            r.inner.head_elem is None,
            r.inner.form_elem is None,
            r.inner.next_tokenizer_state is None,
            r.inner.frameset_ok,
            !r.inner.ignore_lf,
            !r.inner.foster_parenting,
    {
        let doc_handle = sink.get_document();
        TreeBuilder {
            sink,
            inner: BuilderState {
                opts,
                mode: InsertionMode::Initial,
                orig_mode: None,
                pending_table_text: Vec::new(),
                quirks_mode: QuirksMode::NoQuirks,
                doc_handle,
                open_elems: Vec::new(),
                active_formatting: Vec::new(),
                head_elem: None,
                form_elem: None,
                next_tokenizer_state: None,
                frameset_ok: true,
                ignore_lf: false,
                foster_parenting: false,
            },
        }
    }

    /// The names of the open elements, each with a space before it.
    pub open spec fn open_names(&self) -> Seq<char> {
        spaced_names(*self.sink, self.inner.open_elems@)
    }

    /// The names of the open elements, for debugging. All of them are HTML elements.
    pub fn dump_state(&self, label: &str) -> (r: String)
        requires
            (*self.sink).inv(),
            forall|i: int|
                0 <= i < self.inner.open_elems@.len() ==> ((*self.sink).name_of(
                    #[trigger] self.inner.open_elems@[i],
                ) matches Some(name) && name.0 == Namespace::HTML),
        ensures
            r@ == "dump_state on "@ + label@ + "\n    open_elems:"@ + self.open_names() + "\n"@,
    {
        let mut s = "dump_state on ".to_string();
        s.append(label);
        s.append("\n    open_elems:");
        let ghost head = s@;
        let ghost elems = self.inner.open_elems@;
        let mut i: usize = 0;
        assert(elems.take(0) =~= Seq::<Handle>::empty());
        assert(head + Seq::<char>::empty() =~= head);
        while i < self.inner.open_elems.len()
            invariant
                (*self.sink).inv(),
                elems == self.inner.open_elems@,
                forall|j: int|
                    0 <= j < elems.len() ==> (*self.sink).name_of(#[trigger] elems[j]) is Some,
                i <= elems.len(),
                s@ == head + spaced_names(*self.sink, elems.take(i as int)),
            decreases elems.len() - i,
        {
            let (_, local) = self.sink.elem_name(&self.inner.open_elems[i]);
            s.append(" ");
            s.append(local.as_slice());
            proof {
                let next = elems.take(i + 1);
                assert(next.drop_last() =~= elems.take(i as int));
                assert(next.last() == elems[i as int]);
                assert(s@ =~= head + spaced_names(*self.sink, next));
            }
            i += 1;
        }
        assert(elems.take(i as int) =~= elems);
        s.append("\n");
        s
    }

    /// Set the quirks mode, here and in the tree.
    pub fn set_quirks_mode(&mut self, mode: QuirksMode)
        requires
            (*old(self).sink).inv(),
        ensures
            final(self).inner == (BuilderState { quirks_mode: mode, ..old(self).inner }),
            (*final(self).sink).inv(),
            (*final(self).sink).calls() == (*old(self).sink).calls().push(
                TreeCall::SetQuirksMode(mode),
            ),
            *final(final(self).sink) == *final(old(self).sink),
    {
        self.inner.quirks_mode = mode;
        self.sink.set_quirks_mode(mode);
    }

    /// Process a doctype.
    fn process_doctype(&mut self, dt: Doctype)
        requires
            (*old(self).sink).inv(),
        ensures
            (*final(self).sink).inv(),
            *final(final(self).sink) == *final(old(self).sink),
            old(self).inner.mode == InsertionMode::Initial ==> {
                &&& final(self).inner == (BuilderState {
                    mode: InsertionMode::BeforeHtml,
                    quirks_mode: doctype_quirks(dt@, old(self).inner.opts.iframe_srcdoc),
                    ..old(self).inner
                })
                &&& (*final(self).sink).calls() == (*old(self).sink).calls() + doctype_calls(
                    old(self).inner.opts,
                    dt@,
                )
            },
            old(self).inner.mode != InsertionMode::Initial ==> {
                &&& final(self).inner == old(self).inner
                &&& (*final(self).sink).calls() == (*old(self).sink).calls().push(
                    TreeCall::ParseError(
                        late_doctype(old(self).inner.mode, old(self).inner.opts.exact_errors),
                    ),
                )
            },
    {
        if self.inner.mode == InsertionMode::Initial {
            let (err, quirk) = doctype_error_and_quirks(&dt, self.inner.opts.iframe_srcdoc);
            if err {
                let msg = if self.inner.opts.exact_errors {
                    let mut s = "Bad DOCTYPE: ".to_string();
                    s.append(show_doctype(&dt).as_str());
                    MaybeOwned::Owned(s)
                } else {
                    MaybeOwned::Slice("Bad DOCTYPE")
                };
                self.sink.parse_error(msg);
            }
            if !self.inner.opts.drop_doctype {
                self.sink.append_doctype_to_document(
                    unwrap_or_empty(dt.name),
                    unwrap_or_empty(dt.public_id),
                    unwrap_or_empty(dt.system_id),
                );
            }
            self.set_quirks_mode(quirk);
            self.inner.mode = InsertionMode::BeforeHtml;
            assert((*self.sink).calls() =~= (*old(self).sink).calls() + doctype_calls(
                old(self).inner.opts,
                dt@,
            ));
        } else {
            let msg = if self.inner.opts.exact_errors {
                let mut s = "DOCTYPE in insertion mode ".to_string();
                s.append(self.inner.mode.describe());
                MaybeOwned::Owned(s)
            } else {
                MaybeOwned::Slice("DOCTYPE in body")
            };
            self.sink.parse_error(msg);
        }
    }

    /// Process a token of the tokenizer. An error or a doctype is dealt with at once;
    /// any other token is to be given to the rules.
    pub fn process_token(&mut self, token: tokenizer::Token) -> (r: Option<Token>)
        requires
            (*old(self).sink).inv(),
        ensures
            (*final(self).sink).inv(),
            *final(final(self).sink) == *final(old(self).sink),
            (match r {
                Some(t) => Some(t@),
                None => None,
            }) == token_for_rules(token@, old(self).inner.ignore_lf),
            (*final(self).sink).calls() == (*old(self).sink).calls() + token_calls(
                old(self).inner.mode,
                old(self).inner.opts,
                token@,
            ),
            ({
                let pre = BuilderState { ignore_lf: false, ..old(self).inner };
                let calls = (*old(self).sink).calls();
                let post = (*final(self).sink).calls();
                match token {
                    tokenizer::Token::ParseError(e) => final(self).inner == pre && post
                        == calls.push(TreeCall::ParseError(e@)),
                    tokenizer::Token::DoctypeToken(d) => if pre.mode == InsertionMode::Initial {
                        &&& final(self).inner == (BuilderState {
                            mode: InsertionMode::BeforeHtml,
                            quirks_mode: doctype_quirks(d@, pre.opts.iframe_srcdoc),
                            ..pre
                        })
                        &&& post == calls + doctype_calls(pre.opts, d@)
                    } else {
                        &&& final(self).inner == pre
                        &&& post == calls.push(
                            TreeCall::ParseError(late_doctype(pre.mode, pre.opts.exact_errors)),
                        )
                    },
                    _ => final(self).inner == pre && post == calls,
                }
            }),
    {
        let ignore_lf = self.inner.ignore_lf;
        self.inner.ignore_lf = false;
        let ghost calls = (*self.sink).calls();
        assert(calls + Seq::<TreeCall<Handle>>::empty() =~= calls);
        assert(forall|c: TreeCall<Handle>| #[trigger] calls.push(c) =~= calls + seq![c]);
        match token {
            tokenizer::Token::ParseError(e) => {
                self.sink.parse_error(e);
                None
            },
            tokenizer::Token::DoctypeToken(dt) => {
                self.process_doctype(dt);
                None
            },
            tokenizer::Token::TagToken(x) => Some(Token::TagToken(x)),
            tokenizer::Token::CommentToken(x) => Some(Token::CommentToken(x)),
            tokenizer::Token::NullCharacterToken => Some(Token::NullCharacterToken),
            tokenizer::Token::EOFToken => Some(Token::EOFToken),
            tokenizer::Token::CharacterTokens(x) => {
                let chars = to_chars(x.as_str());
                let x = if ignore_lf && chars.len() > 0 && chars[0] == '\n' {
                    let rest = from_chars(&chars, 1, chars.len());
                    assert(rest@ =~= x@.drop_first());
                    rest
                } else {
                    x
                };
                if x.as_str().is_empty() {
                    None
                } else {
                    Some(Token::CharacterTokens(SplitStatus::NotSplit, x))
                }
            },
        }
    }

    /// Go on with a token that is being processed, once the rules have been applied to
    /// it. The result is the token that they are to be applied to next, in the mode of
    /// the tree builder; if there is none, the processing is complete.
    pub fn resume(&mut self, work: &mut Work, result: ProcessResult) -> (r: Option<Token>)
        requires
            (*old(self).sink).inv(),
        ensures
            (*final(self).sink).inv(),
            *final(final(self).sink) == *final(old(self).sink),
            final(self).inner == (match result {
                ProcessResult::Reprocess(mode, _) => BuilderState { mode, ..old(self).inner },
                _ => old(self).inner,
            }),
            (*final(self).sink).calls() == (if result is Done && old(work)@.self_closing {
                (*old(self).sink).calls().push(
                    TreeCall::ParseError("Unacknowledged self-closing tag"@),
                )
            } else {
                (*old(self).sink).calls()
            }),
            (match r {
                Some(t) => Some(t@),
                None => None,
            }) == next_token(old(work)@.more, result@).0,
            final(work)@.more == next_token(old(work)@.more, result@).1,
            r matches Some(t) ==> final(work)@.self_closing == closes_itself(t@),
    {
        let next = match result {
            ProcessResult::Done => {
                if work.is_self_closing {
                    self.sink.parse_error(MaybeOwned::Slice("Unacknowledged self-closing tag"));
                }
                work.pop()
            },
            ProcessResult::DoneAckSelfClosing => work.pop(),
            ProcessResult::Reprocess(mode, token) => {
                self.inner.mode = mode;
                Some(token)
            },
            ProcessResult::SplitWhitespace(buf) => work.split(buf.as_str()),
        };
        match &next {
            Some(token) => {
                work.is_self_closing = Work::closes_itself(token);
            },
            None => {},
        }
        next
    }

    /// The state that the tokenizer is to go on in, if any. It is asked for once.
    pub fn query_state_change(&mut self) -> (r: Option<State>)
        ensures
            r == old(self).inner.next_tokenizer_state,
            final(self).inner == (BuilderState { next_tokenizer_state: None, ..old(self).inner }),
            final(self).sink == old(self).sink,
    {
        self.inner.next_tokenizer_state.take()
    }
}

/// The text of a token.
pub open spec fn text_of(t: TokenView) -> Seq<char> {
    match t {
        TokenView::CharacterTokens(_, s) => s,
        _ => Seq::empty(),
    }
}

/// Splitting text at white space loses nothing: the first part and what is left make up
/// the text. The first part is not empty, is white space throughout or nowhere, as its
/// status says, and goes as far as it can.
pub proof fn law_split_whitespace(buf: Seq<char>)
    requires
        buf.len() > 0,
    ensures
        ({
            let (first, rest) = split_whitespace(buf);
            let s = text_of(first);
            &&& s.len() > 0
            &&& first == TokenView::CharacterTokens(
                if is_space(s[0]) {
                    SplitStatus::Whitespace
                } else {
                    SplitStatus::NotWhitespace
                },
                s,
            )
            &&& forall|i: int| 0 <= i < s.len() ==> is_space(#[trigger] s[i]) == is_space(s[0])
            &&& if s.len() == buf.len() {
                s == buf && rest.len() == 0
            } else {
                &&& rest.len() == 1
                &&& s + text_of(rest[0]) == buf
                &&& is_space(text_of(rest[0])[0]) != is_space(s[0])
            }
        }),
{
    lemma_run_len(buf);
    let n = run_len(buf) as int;
    assert(buf.take(n) + buf.skip(n) =~= buf);
    if n == buf.len() {
        assert(buf.take(n) =~= buf);
    }
}

/// All parts of a text that is split at white space again and again, until nothing is
/// left.
pub open spec fn split_throughout(buf: Seq<char>) -> Seq<TokenView>
    decreases buf.len(),
{
    if buf.len() == 0 {
        Seq::empty()
    } else {
        let (first, rest) = split_whitespace(buf);
        proof {
            lemma_run_len(buf);
        }
        seq![first] + (if rest.len() == 0 {
            Seq::empty()
        } else {
            split_throughout(text_of(rest[0]))
        })
    }
}

/// The texts of tokens, one after the other.
pub open spec fn texts_of(tokens: Seq<TokenView>) -> Seq<char>
    decreases tokens.len(),
{
    if tokens.len() == 0 {
        Seq::empty()
    } else {
        text_of(tokens[0]) + texts_of(tokens.drop_first())
    }
}

/// Is this text that is not empty, and is white space throughout or nowhere, as its
/// status says?
pub open spec fn is_split(t: TokenView) -> bool {
    t matches TokenView::CharacterTokens(status, s) && {
        &&& s.len() > 0
        &&& status == (if is_space(s[0]) {
            SplitStatus::Whitespace
        } else {
            SplitStatus::NotWhitespace
        })
        &&& forall|i: int| 0 <= i < s.len() ==> is_space(#[trigger] s[i]) == is_space(s[0])
    }
}

/// Splitting text at white space again and again loses nothing: the parts, in order, make
/// up the text. None of them is empty, each is white space throughout or nowhere, as its
/// status says, and the two kinds alternate.
pub proof fn law_split_throughout(buf: Seq<char>)
    ensures
        ({
            let parts = split_throughout(buf);
            &&& texts_of(parts) == buf
            &&& forall|i: int| 0 <= i < parts.len() ==> is_split(#[trigger] parts[i])
            &&& forall|i: int|
                0 < i < parts.len() ==> is_space(text_of(#[trigger] parts[i])[0]) != is_space(
                    text_of(parts[i - 1])[0],
                )
            &&& buf.len() > 0 ==> parts.len() > 0 && text_of(parts[0])[0] == buf[0]
        }),
    decreases buf.len(),
{
    if buf.len() > 0 {
        let (first, rest) = split_whitespace(buf);
        let parts = split_throughout(buf);
        let more = if rest.len() == 0 {
            Seq::empty()
        } else {
            split_throughout(text_of(rest[0]))
        };
        law_split_whitespace(buf);
        lemma_run_len(buf);
        if rest.len() > 0 {
            law_split_throughout(text_of(rest[0]));
        }
        assert(parts.drop_first() =~= more);
        assert(parts[0] == first);
        assert(texts_of(parts) == text_of(first) + texts_of(more));
        assert(texts_of(parts) =~= buf);
        assert forall|i: int| 0 <= i < parts.len() implies is_split(#[trigger] parts[i]) by {
            if i > 0 {
                assert(parts[i] == more[i - 1]);
            }
        }
        assert forall|i: int| 0 < i < parts.len() implies is_space(
            text_of(#[trigger] parts[i])[0],
        ) != is_space(text_of(parts[i - 1])[0]) by {
            assert(parts[i] == more[i - 1]);
            if i > 1 {
                assert(parts[i - 1] == more[i - 2]);
            }
        }
    }
}

/// Is `s` the text that may be absent, and empty exactly if that is absent or empty?
pub open spec fn is_text_of(s: Seq<char>, t: Option<Seq<char>>) -> bool {
    &&& t matches Some(u) ==> s == u
    &&& t is None ==> s.len() == 0
}

/// A doctype that comes first gets into the tree as it is, unless doctypes are dropped: the
/// sink is called once to append a doctype, with the name, the public identifier and the
/// system identifier of the token, each of them empty exactly if the token has none or an
/// empty one. An error comes before that, if there is one. The last call, in any case, sets
/// the mode, and there are no others.
pub proof fn law_doctype_gets_into_the_tree<Handle>(opts: TreeBuilderOpts, d: DoctypeView)
    ensures
        ({
            let calls = doctype_calls::<Handle>(opts, d);
            let errors: int = if doctype_is_fine(d) {
                0
            } else {
                1
            };
            let appended: int = if opts.drop_doctype {
                0
            } else {
                1
            };
            &&& calls.len() == errors + appended + 1
            &&& calls.last() == TreeCall::<Handle>::SetQuirksMode(
                doctype_quirks(d, opts.iframe_srcdoc),
            )
            &&& !doctype_is_fine(d) ==> calls[0] is ParseError
            &&& !opts.drop_doctype ==> (calls[errors] matches TreeCall::AppendDoctypeToDocument(
                name,
                public_id,
                system_id,
            ) && is_text_of(name, d.name) && is_text_of(public_id, d.public_id) && is_text_of(
                system_id,
                d.system_id,
            ))
        }),
{
}

/// Before a token gets to the rules, the sink hears of it in two cases only. An error is passed
/// on as it is. A doctype is told where it comes first; a later one is an error, and does not
/// get into the tree or change the mode.
pub proof fn law_what_the_sink_hears<Handle>(
    mode: InsertionMode,
    opts: TreeBuilderOpts,
    t: tokenizer::interface::TokenView,
)
    ensures
        ({
            let calls = token_calls::<Handle>(mode, opts, t);
            match t {
                tokenizer::interface::TokenView::ParseError(e) => calls.len() == 1 && calls[0]
                    == TreeCall::<Handle>::ParseError(e),
                tokenizer::interface::TokenView::DoctypeToken(d) => {
                    &&& mode == InsertionMode::Initial ==> calls.len() > 0
                        && calls.last() is SetQuirksMode
                    &&& mode != InsertionMode::Initial ==> calls.len() == 1
                        && calls[0] is ParseError
                },
                _ => calls.len() == 0,
            }
        }),
{
}

/// Doctypes that say different things get into the tree as different ones.
pub proof fn law_doctypes_in_the_tree_differ<Handle>(
    opts: TreeBuilderOpts,
    c: DoctypeView,
    d: DoctypeView,
)
    requires
        !opts.drop_doctype,
        doctype_is_fine(c) == doctype_is_fine(d),
        doctype_calls::<Handle>(opts, c) == doctype_calls::<Handle>(opts, d),
    ensures
        forall|s: Seq<char>| c.name == Some(s) ==> is_text_of(s, d.name),
        forall|s: Seq<char>| c.public_id == Some(s) ==> is_text_of(s, d.public_id),
        forall|s: Seq<char>| c.system_id == Some(s) ==> is_text_of(s, d.system_id),
{
    law_doctype_gets_into_the_tree::<Handle>(opts, c);
    law_doctype_gets_into_the_tree::<Handle>(opts, d);
}

/// A token that is neither an error nor a doctype goes to the rules as it is, and once: a
/// tag, a comment, U+0000 and the end of the file unchanged, and text unchanged but for one
/// line feed at its beginning, if that is to be ignored. Only text that is empty then does
/// not go to the rules.
pub proof fn law_tokens_go_to_the_rules(t: tokenizer::interface::TokenView, ignore_lf: bool)
    ensures
        match token_for_rules(t, ignore_lf) {
            Some(TokenView::TagToken(x)) => t == tokenizer::interface::TokenView::TagToken(x),
            Some(TokenView::CommentToken(x)) => t == tokenizer::interface::TokenView::CommentToken(
                x,
            ),
            Some(TokenView::NullCharacterToken) => t
                == tokenizer::interface::TokenView::NullCharacterToken,
            Some(TokenView::EOFToken) => t == tokenizer::interface::TokenView::EOFToken,
            Some(TokenView::CharacterTokens(split, x)) => split == SplitStatus::NotSplit && x.len()
                > 0 && (t matches tokenizer::interface::TokenView::CharacterTokens(y) && (if ignore_lf
                && y[0] == '\n' {
                y == seq!['\n'] + x
            } else {
                y == x
            })),
            None => match t {
                tokenizer::interface::TokenView::ParseError(_) => true,
                tokenizer::interface::TokenView::DoctypeToken(_) => true,
                tokenizer::interface::TokenView::CharacterTokens(y) => y.len() == 0 || ignore_lf
                    && y == seq!['\n'],
                _ => false,
            },
        },
{
    if let tokenizer::interface::TokenView::CharacterTokens(y) = t {
        if y.len() > 0 && y[0] == '\n' {
            assert(y =~= seq!['\n'] + y.drop_first());
            if y.len() == 1 {
                assert(y =~= seq!['\n']);
            }
        }
    }
}

/// What the rules leave is processed in order: after a token that they are done with comes
/// the first that waits, a token that they want again comes at once, and text that is split
/// puts its rest behind those that wait. No token gets lost.
pub proof fn law_no_token_gets_lost(more: Seq<TokenView>, r: ProcessResultView)
    ensures
        ({
            let (next, left) = next_token(more, r);
            match r {
                ProcessResultView::Reprocess(_, t) => next == Some(t) && left == more,
                ProcessResultView::SplitWhitespace(buf) => buf.len() > 0 ==> next is Some && (left
                    == more && text_of(next->0) == buf || left.len() == more.len() + 1
                    && left.drop_last() == more && text_of(next->0) + text_of(left.last()) == buf),
                _ => if more.len() == 0 {
                    next is None && left.len() == 0
                } else {
                    next is Some && seq![next->0] + left == more
                },
            }
        }),
{
    match r {
        ProcessResultView::SplitWhitespace(buf) => {
            if buf.len() > 0 {
                law_split_whitespace(buf);
                let (first, rest) = split_whitespace(buf);
                if rest.len() == 0 {
                    assert(more + rest =~= more);
                } else {
                    assert((more + rest).drop_last() =~= more);
                }
            }
        },
        ProcessResultView::Reprocess(_, _) => {},
        _ => {
            if more.len() > 0 {
                assert(seq![more[0]] + more.drop_first() =~= more);
            }
        },
    }
}

} // verus!
