//! Types used within the tree builder code.

use vstd::prelude::*;
use crate::tokenizer::interface::{Tag, TagView};

verus! {

/// The insertion mode.
#[derive(Clone, Copy, PartialEq, Eq, Structural, Debug, Hash)]
pub enum InsertionMode {
    Initial,
    BeforeHtml,
    BeforeHead,
    InHead,
    InHeadNoscript,
    AfterHead,
    InBody,
    Text,
    InTable,
    InTableText,
    InCaption,
    InColumnGroup,
    InTableBody,
    InRow,
    InCell,
    InSelect,
    InSelectInTable,
    InTemplate,
    AfterBody,
    InFrameset,
    AfterFrameset,
    AfterAfterBody,
    AfterAfterFrameset,
}

impl InsertionMode {
    /// The name of the mode.
    pub open spec fn text(self) -> Seq<char> {
        match self {
            InsertionMode::Initial => "Initial"@,
            InsertionMode::BeforeHtml => "BeforeHtml"@,
            InsertionMode::BeforeHead => "BeforeHead"@,
            InsertionMode::InHead => "InHead"@,
            InsertionMode::InHeadNoscript => "InHeadNoscript"@,
            InsertionMode::AfterHead => "AfterHead"@,
            InsertionMode::InBody => "InBody"@,
            InsertionMode::Text => "Text"@,
            InsertionMode::InTable => "InTable"@,
            InsertionMode::InTableText => "InTableText"@,
            InsertionMode::InCaption => "InCaption"@,
            InsertionMode::InColumnGroup => "InColumnGroup"@,
            InsertionMode::InTableBody => "InTableBody"@,
            InsertionMode::InRow => "InRow"@,
            InsertionMode::InCell => "InCell"@,
            InsertionMode::InSelect => "InSelect"@,
            InsertionMode::InSelectInTable => "InSelectInTable"@,
            InsertionMode::InTemplate => "InTemplate"@,
            InsertionMode::AfterBody => "AfterBody"@,
            InsertionMode::InFrameset => "InFrameset"@,
            InsertionMode::AfterFrameset => "AfterFrameset"@,
            InsertionMode::AfterAfterBody => "AfterAfterBody"@,
            InsertionMode::AfterAfterFrameset => "AfterAfterFrameset"@,
        }
    }

    /// The name of the mode.
    pub fn describe(self) -> (r: &'static str)
        ensures
            r@ == self.text(),
    {
        match self {
            InsertionMode::Initial => "Initial",
            InsertionMode::BeforeHtml => "BeforeHtml",
            InsertionMode::BeforeHead => "BeforeHead",
            InsertionMode::InHead => "InHead",
            InsertionMode::InHeadNoscript => "InHeadNoscript",
            InsertionMode::AfterHead => "AfterHead",
            InsertionMode::InBody => "InBody",
            InsertionMode::Text => "Text",
            InsertionMode::InTable => "InTable",
            InsertionMode::InTableText => "InTableText",
            InsertionMode::InCaption => "InCaption",
            InsertionMode::InColumnGroup => "InColumnGroup",
            InsertionMode::InTableBody => "InTableBody",
            InsertionMode::InRow => "InRow",
            InsertionMode::InCell => "InCell",
            InsertionMode::InSelect => "InSelect",
            InsertionMode::InSelectInTable => "InSelectInTable",
            InsertionMode::InTemplate => "InTemplate",
            InsertionMode::AfterBody => "AfterBody",
            InsertionMode::InFrameset => "InFrameset",
            InsertionMode::AfterFrameset => "AfterFrameset",
            InsertionMode::AfterAfterBody => "AfterAfterBody",
            InsertionMode::AfterAfterFrameset => "AfterAfterFrameset",
        }
    }
}

/// Has text been split into white space and the rest?
#[derive(Clone, Copy, PartialEq, Eq, Structural, Debug, Hash)]
pub enum SplitStatus {
    NotSplit,
    Whitespace,
    NotWhitespace,
}

/// A subset or refinement of the tokens of the tokenizer. Everything else is handled
/// specially at the beginning of `process_token`.
#[derive(Debug)]
pub enum Token {
    TagToken(Tag),
    CommentToken(String),
    CharacterTokens(SplitStatus, String),
    NullCharacterToken,
    EOFToken,
}

/// The contents of a `Token`.
#[verifier::ext_equal]
pub enum TokenView {
    TagToken(TagView),
    CommentToken(Seq<char>),
    CharacterTokens(SplitStatus, Seq<char>),
    NullCharacterToken,
    EOFToken,
}

impl View for Token {
    type V = TokenView;

    open spec fn view(&self) -> TokenView {
        match *self {
            Token::TagToken(t) => TokenView::TagToken(t@),
            Token::CommentToken(s) => TokenView::CommentToken(s@),
            Token::CharacterTokens(split, s) => TokenView::CharacterTokens(split, s@),
            Token::NullCharacterToken => TokenView::NullCharacterToken,
            Token::EOFToken => TokenView::EOFToken,
        }
    }
}

/// What came of a token in an insertion mode.
#[derive(Debug)]
pub enum ProcessResult {
    Done,
    DoneAckSelfClosing,
    SplitWhitespace(String),
    Reprocess(InsertionMode, Token),
}

/// The contents of a `ProcessResult`.
pub enum ProcessResultView {
    Done,
    DoneAckSelfClosing,
    SplitWhitespace(Seq<char>),
    Reprocess(InsertionMode, TokenView),
}

impl View for ProcessResult {
    type V = ProcessResultView;

    open spec fn view(&self) -> ProcessResultView {
        match *self {
            ProcessResult::Done => ProcessResultView::Done,
            ProcessResult::DoneAckSelfClosing => ProcessResultView::DoneAckSelfClosing,
            ProcessResult::SplitWhitespace(s) => ProcessResultView::SplitWhitespace(s@),
            ProcessResult::Reprocess(m, t) => ProcessResultView::Reprocess(m, t@),
        }
    }
}

/// An entry of the list of active formatting elements.
#[derive(Debug)]
pub enum FormatEntry<Handle> {
    Element(Handle, Tag),
    Marker,
}

} // verus!
