//! Diagnostics: what the lexer and the parser report when they cannot make
//! progress on malformed input.

use vstd::prelude::*;
use vstd::string::*;

verus! {

/// The failures of lexical analysis.
#[derive(Clone, Copy, Debug, PartialEq, Eq)]
pub enum LexError {
    /// A character that begins no token.
    UnexpectedCharacter,
    /// A string literal whose closing quote is missing.
    UnterminatedString,
    /// A numeral whose value does not fit in 32 bits.
    IntegerOverflow,
}

/// The failures of syntactic analysis.
#[derive(Clone, Copy, Debug, PartialEq, Eq)]
pub enum ParseError {
    /// A declaration keyword that no identifier follows.
    MissingIdentifier,
    /// A declared identifier that no `=` follows.
    MissingEquals,
    /// An `=` that neither a number nor a string literal follows.
    MissingLiteral,
    /// A `show` that no string literal follows.
    MissingStringAfterShow,
    /// A keyword token whose spelling is outside the keyword set.
    UnknownKeyword,
    /// A token that cannot begin a statement.
    UnexpectedToken,
}

/// The kind of a diagnostic, by the stage that raised it.
#[derive(Clone, Copy, Debug, PartialEq, Eq)]
pub enum DiagnosticKind {
    Lex(LexError),
    Parse(ParseError),
}

/// A record of one failure. `position` counts characters of the source text
/// for a lexical failure and tokens of the token sequence for a syntactic one.
#[derive(Clone, Debug, PartialEq, Eq)]
pub struct Diagnostic {
    pub kind: DiagnosticKind,
    pub position: usize,
    pub message: String,
}

/// The mathematical value of a [`Diagnostic`].
pub struct DiagnosticView {
    pub kind: DiagnosticKind,
    pub position: int,
    pub message: Seq<char>,
}

impl View for Diagnostic {
    type V = DiagnosticView;

    open spec fn view(&self) -> DiagnosticView {
        DiagnosticView { kind: self.kind, position: self.position as int, message: self.message@ }
    }
}

/// The values of a sequence of diagnostics, in order.
pub open spec fn diagnostic_views(diagnostics: Seq<Diagnostic>) -> Seq<DiagnosticView> {
    diagnostics.map_values(|d: Diagnostic| d@)
}

/// The message that goes with each kind of failure.
pub open spec fn message_text(kind: DiagnosticKind) -> Seq<char> {
    match kind {
        DiagnosticKind::Lex(LexError::UnexpectedCharacter) => "unexpected character"@,
        DiagnosticKind::Lex(LexError::UnterminatedString) => "unterminated string literal"@,
        DiagnosticKind::Lex(LexError::IntegerOverflow) => "integer literal out of range"@,
        DiagnosticKind::Parse(ParseError::MissingIdentifier) => "expected identifier after keyword"@,
        DiagnosticKind::Parse(ParseError::MissingEquals) => "expected `=` after identifier"@,
        DiagnosticKind::Parse(ParseError::MissingLiteral) => "expected literal after `=`"@,
        DiagnosticKind::Parse(ParseError::MissingStringAfterShow) =>
            "expected string literal after show"@,
        DiagnosticKind::Parse(ParseError::UnknownKeyword) => "unknown keyword"@,
        DiagnosticKind::Parse(ParseError::UnexpectedToken) => "unexpected token"@,
    }
}

/// The message of a failure met where the token sequence ends.
pub open spec fn end_of_input_text() -> Seq<char> {
    "unexpected end of input"@
}

/// The diagnostic of kind `kind` at `position` with the message of its kind.
pub open spec fn diagnostic_at(kind: DiagnosticKind, position: int) -> DiagnosticView {
    DiagnosticView { kind, position, message: message_text(kind) }
}

/// The diagnostic of kind `kind` at `position` for a sequence that ended too
/// early.
pub open spec fn diagnostic_at_end(kind: DiagnosticKind, position: int) -> DiagnosticView {
    DiagnosticView { kind, position, message: end_of_input_text() }
}

impl Diagnostic {
    /// A diagnostic of kind `kind` at `position`, with the message of its kind.
    pub fn new(kind: DiagnosticKind, position: usize) -> (diagnostic: Diagnostic)
        ensures
            diagnostic@ == diagnostic_at(kind, position as int),
    {
        let text: &str = match kind {
            DiagnosticKind::Lex(LexError::UnexpectedCharacter) => "unexpected character",
            DiagnosticKind::Lex(LexError::UnterminatedString) => "unterminated string literal",
            DiagnosticKind::Lex(LexError::IntegerOverflow) => "integer literal out of range",
            DiagnosticKind::Parse(ParseError::MissingIdentifier) =>
                "expected identifier after keyword",
            DiagnosticKind::Parse(ParseError::MissingEquals) => "expected `=` after identifier",
            DiagnosticKind::Parse(ParseError::MissingLiteral) => "expected literal after `=`",
            DiagnosticKind::Parse(ParseError::MissingStringAfterShow) =>
                "expected string literal after show",
            DiagnosticKind::Parse(ParseError::UnknownKeyword) => "unknown keyword",
            DiagnosticKind::Parse(ParseError::UnexpectedToken) => "unexpected token",
        };
        Diagnostic { kind, position, message: String::from_str(text) }
    }

    /// A diagnostic of kind `kind` at `position`, raised because the token
    /// sequence ended where more was expected.
    pub fn at_end_of_input(kind: DiagnosticKind, position: usize) -> (diagnostic: Diagnostic)
        ensures
            diagnostic@ == diagnostic_at_end(kind, position as int),
    {
        Diagnostic { kind, position, message: String::from_str("unexpected end of input") }
    }
}

} // verus!
