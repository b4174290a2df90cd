//! The values the core hands to the protocol boundary: positions, ranges,
//! diagnostics, code actions, completion items, hover and location answers.
use vstd::prelude::*;

verus! {

/// A zero-based (line, character) offset into a document; the character is
/// a byte offset within the line.
#[derive(Clone, Copy, Debug, PartialEq, Eq, Structural)]
pub struct Position {
    pub line: u32,
    pub character: u32,
}

/// A span between two positions, `start` not after `end`.
#[derive(Clone, Copy, Debug, PartialEq, Eq, Structural)]
pub struct Range {
    pub start: Position,
    pub end: Position,
}

/// The span `[start, end)` of one line.
pub open spec fn span_on_line(line: int, start: int, end: int) -> Range {
    Range {
        start: Position { line: line as u32, character: start as u32 },
        end: Position { line: line as u32, character: end as u32 },
    }
}

/// How serious a diagnostic is.
#[derive(Clone, Copy, Debug, PartialEq, Eq, Structural)]
pub enum Severity {
    Error,
    Warning,
    Information,
    Hint,
}

/// A flagged span of a document.
#[derive(Clone, Debug)]
pub struct Diagnostic {
    pub range: Range,
    pub severity: Severity,
    pub source: String,
    pub message: String,
}

/// What a diagnostic says, with its strings as character sequences.
pub ghost struct DiagnosticView {
    pub range: Range,
    pub severity: Severity,
    pub source: Seq<char>,
    pub message: Seq<char>,
}

impl View for Diagnostic {
    type V = DiagnosticView;

    open spec fn view(&self) -> DiagnosticView {
        DiagnosticView {
            range: self.range,
            severity: self.severity,
            source: self.source@,
            message: self.message@,
        }
    }
}

/// The views of a sequence of diagnostics.
pub open spec fn diagnostics_view(ds: Seq<Diagnostic>) -> Seq<DiagnosticView> {
    ds.map_values(|d: Diagnostic| d@)
}

/// A replacement of the text in `range` by `new_text`.
#[derive(Clone, Debug)]
pub struct TextEdit {
    pub range: Range,
    pub new_text: String,
}

/// A suggested edit of one document, under a title.
#[derive(Clone, Debug)]
pub struct CodeAction {
    pub title: String,
    pub document: String,
    pub edit: TextEdit,
}

/// What a code action says, with its strings as character sequences.
pub ghost struct CodeActionView {
    pub title: Seq<char>,
    pub document: Seq<char>,
    pub range: Range,
    pub new_text: Seq<char>,
}

impl View for CodeAction {
    type V = CodeActionView;

    open spec fn view(&self) -> CodeActionView {
        CodeActionView {
            title: self.title@,
            document: self.document@,
            range: self.edit.range,
            new_text: self.edit.new_text@,
        }
    }
}

/// The views of a sequence of code actions.
pub open spec fn actions_view(acts: Seq<CodeAction>) -> Seq<CodeActionView> {
    acts.map_values(|a: CodeAction| a@)
}

/// One entry of a completion list.
#[derive(Clone, Debug)]
pub struct CompletionItem {
    pub label: String,
    pub detail: String,
    pub documentation: String,
}

/// The answer to a hover request: which document, and how many characters
/// it holds.
#[derive(Clone, Debug)]
pub struct HoverInfo {
    pub document: String,
    pub characters: usize,
}

/// A range in a document.
#[derive(Clone, Debug)]
pub struct Location {
    pub document: String,
    pub range: Range,
}

/// Why a query could not be answered.
#[derive(Clone, Copy, Debug, PartialEq, Eq, Structural)]
pub enum QueryError {
    /// The document was never opened.
    UnknownDocument,
    /// The position has no line above it.
    InvalidPosition,
}

} // verus!
