use vstd::prelude::*;

verus! {

/// A zero-based position in a text document (line and character offset).
#[derive(Debug, Clone)]
pub struct Position {
    pub line: u32,
    pub character: u32,
}

/// A range between two positions of a text document.
#[derive(Debug, Clone)]
pub struct Range {
    pub start: Position,
    pub end: Position,
}

/// Identifies a text document by its URI.
#[derive(Debug, Clone)]
pub struct TextDocumentIdentifier {
    pub uri: String,
}

/// Parameters of the `rustowl/cursor` request of the RustOwl language server.
#[derive(Debug, Clone)]
pub struct RustOwlCursorParams {
    pub document: TextDocumentIdentifier,
    pub text_document: Option<TextDocumentIdentifier>,
    pub position: Position,
}

/// The kinds of decoration that RustOwl reports for a variable.
#[derive(Debug, Clone, PartialEq, Eq, Structural)]
pub enum DecorationType {
    Lifetime,
    DefinitelyLive,
    MaybeInitialized,
    ImmBorrow,
    MutBorrow,
    Move,
    Call,
    Outlive,
    SharedMut,
    Unknown,
}

/// One decoration reported by RustOwl: a kind over a source range.
#[derive(Debug, Clone)]
pub struct RustOwlDecoration {
    pub range: Range,
    pub kind: DecorationType,
    pub hover_text: Option<String>,
    pub overlapped: bool,
}

/// The reply of the `rustowl/cursor` request.
#[derive(Debug, Clone)]
pub struct RustOwlCursorResult {
    pub is_analyzed: bool,
    pub decorations: Vec<RustOwlDecoration>,
}

impl RustOwlDecoration {
    /// A decoration of the given kind over `range`, with no hover text and not overlapped.
    pub fn new(range: Range, kind: DecorationType) -> (d: Self)
        ensures
            d.range == range,
            d.kind == kind,
            d.hover_text is None,
            !d.overlapped,
    {
        RustOwlDecoration { range, kind, hover_text: None, overlapped: false }
    }
}

impl Default for RustOwlCursorResult {
    /// Not analyzed, with no decorations.
    fn default() -> (r: Self)
        ensures
            !r.is_analyzed,
            r.decorations@.len() == 0,
    {
        RustOwlCursorResult { is_analyzed: false, decorations: Vec::new() }
    }
}

} // verus!
