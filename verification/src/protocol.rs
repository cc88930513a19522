//! The values the language features answer with, in the shape the editor
//! protocol expects them.
use vstd::prelude::*;

verus! {

/// A zero-based line and a column counted in bytes from the start of the line.
#[derive(Debug, Clone, Copy, PartialEq, Eq, Structural)]
pub struct Position {
    pub line: u32,
    pub character: u32,
}

#[derive(Debug, Clone, Copy, PartialEq, Eq, Structural)]
pub struct Range {
    pub start: Position,
    pub end: Position,
}

#[derive(Debug, Clone, Copy, PartialEq, Eq, Structural)]
pub enum DiagnosticSeverity {
    Error,
    Warning,
}

/// A problem found in a document.
#[derive(Debug, Clone)]
pub struct Diagnostic {
    pub range: Range,
    pub severity: DiagnosticSeverity,
    pub message: String,
}

pub struct SpecDiagnostic {
    pub range: Range,
    pub severity: DiagnosticSeverity,
    pub message: Seq<char>,
}

impl View for Diagnostic {
    type V = SpecDiagnostic;

    open spec fn view(&self) -> SpecDiagnostic {
        SpecDiagnostic { range: self.range, severity: self.severity, message: self.message@ }
    }
}

pub open spec fn diagnostics_view(ds: Seq<Diagnostic>) -> Seq<SpecDiagnostic> {
    ds.map_values(|d: Diagnostic| d@)
}

/// Markdown shown when hovering.
#[derive(Debug, Clone)]
pub struct Hover {
    pub contents: String,
}

/// A replacement of the text in `range`.
#[derive(Debug, Clone)]
pub struct TextEdit {
    pub range: Range,
    pub new_text: String,
}

pub struct SpecTextEdit {
    pub range: Range,
    pub new_text: Seq<char>,
}

impl View for TextEdit {
    type V = SpecTextEdit;

    open spec fn view(&self) -> SpecTextEdit {
        SpecTextEdit { range: self.range, new_text: self.new_text@ }
    }
}

pub open spec fn text_edits_view(es: Seq<TextEdit>) -> Seq<SpecTextEdit> {
    es.map_values(|e: TextEdit| e@)
}

#[derive(Debug, Clone, Copy, PartialEq, Eq, Structural)]
pub enum CompletionItemKind {
    Class,
    Field,
    EnumMember,
    Value,
}

/// A completion proposal. `snippet` tells that `insert_text` is a snippet.
#[derive(Debug, Clone)]
pub struct CompletionItem {
    pub label: String,
    pub kind: CompletionItemKind,
    pub detail: Option<String>,
    pub documentation: Option<String>,
    pub insert_text: Option<String>,
    pub snippet: bool,
    pub text_edit: Option<TextEdit>,
}

pub struct SpecCompletionItem {
    pub label: Seq<char>,
    pub kind: CompletionItemKind,
    pub detail: Option<Seq<char>>,
    pub documentation: Option<Seq<char>>,
    pub insert_text: Option<Seq<char>>,
    pub snippet: bool,
    pub text_edit: Option<SpecTextEdit>,
}

pub open spec fn opt_string_view(s: Option<String>) -> Option<Seq<char>> {
    match s {
        Some(x) => Some(x@),
        None => None,
    }
}

impl View for CompletionItem {
    type V = SpecCompletionItem;

    open spec fn view(&self) -> SpecCompletionItem {
        SpecCompletionItem {
            label: self.label@,
            kind: self.kind,
            detail: opt_string_view(self.detail),
            documentation: opt_string_view(self.documentation),
            insert_text: opt_string_view(self.insert_text),
            snippet: self.snippet,
            text_edit: match self.text_edit {
                Some(e) => Some(e@),
                None => None,
            },
        }
    }
}

pub open spec fn completion_items_view(items: Seq<CompletionItem>) -> Seq<SpecCompletionItem> {
    items.map_values(|i: CompletionItem| i@)
}

/// A type hint shown after `position`.
#[derive(Debug, Clone)]
pub struct InlayHint {
    pub position: Position,
    pub label: String,
}

pub struct SpecInlayHint {
    pub position: Position,
    pub label: Seq<char>,
}

impl View for InlayHint {
    type V = SpecInlayHint;

    open spec fn view(&self) -> SpecInlayHint {
        SpecInlayHint { position: self.position, label: self.label@ }
    }
}

pub open spec fn inlay_hints_view(hs: Seq<InlayHint>) -> Seq<SpecInlayHint> {
    hs.map_values(|h: InlayHint| h@)
}

/// The range of a renameable name, and its current text.
#[derive(Debug, Clone)]
pub struct PrepareRenameResponse {
    pub range: Range,
    pub placeholder: String,
}

/// Edits to apply to the document at `uri`.
#[derive(Debug, Clone)]
pub struct WorkspaceEdit {
    pub uri: String,
    pub edits: Vec<TextEdit>,
}

/// A place in the document at `uri`.
#[derive(Debug, Clone)]
pub struct Location {
    pub uri: String,
    pub range: Range,
}

} // verus!
