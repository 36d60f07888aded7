//! Plain values of the language server protocol.
use vstd::prelude::*;

use crate::seqs::views;
use crate::url::{Url, UrlParts};

verus! {

/// Zero-based line and UTF-16 column.
#[derive(Debug, Clone, Copy, PartialEq, Eq, Structural)]
pub struct Position {
    pub line: u32,
    pub character: u32,
}

impl Position {
    pub fn new(line: u32, character: u32) -> (position: Position)
        ensures
            position == (Position { line, character }),
    {
        Position { line, character }
    }

    /// Document order of positions.
    pub open spec fn at_or_before(self, other: Position) -> bool {
        self.line < other.line || (self.line == other.line && self.character <= other.character)
    }
}

/// Half-open range between two positions.
#[derive(Debug, Clone, Copy, PartialEq, Eq, Structural)]
pub struct Range {
    pub start: Position,
    pub end: Position,
}

impl Range {
    pub fn new(start: Position, end: Position) -> (range: Range)
        ensures
            range == (Range { start, end }),
    {
        Range { start, end }
    }
}

/// One change of a document: the new text of a range, or of the whole document.
pub struct TextDocumentContentChangeEvent {
    pub range: Option<Range>,
    pub range_length: Option<u32>,
    pub text: String,
}

#[derive(Debug, Clone, Copy, PartialEq, Eq, Structural)]
pub enum FoldingRangeKind {
    Comment,
    Imports,
}

/// Lines that the client can fold, with the columns at which they begin and end.
#[derive(Debug, Clone, Copy, PartialEq, Eq, Structural)]
pub struct FoldingRange {
    pub start_line: u32,
    pub start_character: Option<u32>,
    pub end_line: u32,
    pub end_character: Option<u32>,
    pub kind: Option<FoldingRangeKind>,
}

/// A range with the wider range around it.
#[derive(Debug)]
pub struct SelectionRange {
    pub range: Range,
    pub parent: Option<Box<SelectionRange>>,
}

/// How the client wants a document to be formatted.
#[derive(Debug, Clone, Copy, PartialEq, Eq, Structural)]
pub struct FormattingOptions {
    pub tab_size: u32,
    pub insert_spaces: bool,
    pub trim_trailing_whitespace: Option<bool>,
    pub insert_final_newline: Option<bool>,
    pub trim_final_newlines: Option<bool>,
}

/// New text for a range of a document.
#[derive(Debug)]
pub struct TextEdit {
    pub range: Range,
    pub new_text: String,
}

/// The model of new text for a range of a document.
pub struct TextEditParts {
    pub range: Range,
    pub new_text: Seq<char>,
}

impl View for TextEdit {
    type V = TextEditParts;

    open spec fn view(&self) -> TextEditParts {
        TextEditParts { range: self.range, new_text: self.new_text@ }
    }
}

/// A range in a document.
pub struct Location {
    pub uri: Url,
    pub range: Range,
}

/// The model of a range in a document.
pub struct LocationParts {
    pub uri: UrlParts,
    pub range: Range,
}

impl View for Location {
    type V = LocationParts;

    open spec fn view(&self) -> LocationParts {
        LocationParts { uri: self.uri@, range: self.range }
    }
}

#[derive(Debug, Clone, Copy, PartialEq, Eq, Structural)]
pub enum DocumentHighlightKind {
    Text,
    Read,
    Write,
}

#[derive(Debug, Clone, Copy, PartialEq, Eq, Structural)]
pub struct DocumentHighlight {
    pub range: Range,
    pub kind: Option<DocumentHighlightKind>,
}

/// The edits of a document.
pub struct DocumentEdits {
    pub uri: Url,
    pub edits: Vec<TextEdit>,
}

/// The model of the edits of a document.
pub struct DocumentParts {
    pub uri: UrlParts,
    pub edits: Seq<TextEditParts>,
}

impl View for DocumentEdits {
    type V = DocumentParts;

    open spec fn view(&self) -> DocumentParts {
        DocumentParts { uri: self.uri@, edits: views(self.edits@) }
    }
}

/// The edits of some documents, each of which comes once.
pub struct WorkspaceEdit {
    pub changes: Vec<DocumentEdits>,
}

#[derive(Debug, Clone, Copy, PartialEq, Eq, Structural)]
pub enum SymbolKind {
    Class,
    Constructor,
    Enum,
    Field,
    Function,
    Interface,
    Method,
    Module,
    Object,
}

/// A hint for a type.
pub struct InlayHint {
    pub position: Position,
    pub label: String,
}

#[derive(Debug, Clone, Copy, PartialEq, Eq, Structural)]
pub enum CompletionItemKind {
    Class,
    Constructor,
    Enum,
    Field,
    Function,
    Interface,
    Keyword,
    Method,
    Module,
    Struct,
    Text,
    TypeParameter,
    Value,
    Variable,
}

pub struct CompletionItem {
    pub label: String,
    pub kind: CompletionItemKind,
    pub detail: String,
}

pub struct CompletionParts {
    pub label: Seq<char>,
    pub kind: CompletionItemKind,
    pub detail: Seq<char>,
}

impl View for CompletionItem {
    type V = CompletionParts;

    open spec fn view(&self) -> CompletionParts {
        CompletionParts { label: self.label@, kind: self.kind, detail: self.detail@ }
    }
}

} // verus!
