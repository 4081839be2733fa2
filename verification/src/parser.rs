//! Syntactic analysis: from a token sequence to a program.
//!
//! ```text
//! statement := decl | show
//! decl      := ("m" | "c") Identifier Equals (Number | StringLiteral)
//! show      := "show" StringLiteral
//! ```
//!
//! Semicolons between statements are consumed and mean nothing. The parser
//! stops at the first `EndOfFile` at the start of a statement, or where the
//! sequence ends. Where a statement is malformed it records a diagnostic,
//! moves on by one token and tries again; it never looks at a token beyond
//! the end of the sequence.

use vstd::prelude::*;
use crate::ast::{program_view, ASTNode, ASTNodeView, Literal, LiteralView, Program};
use crate::diagnostic::{
    diagnostic_at, diagnostic_at_end, diagnostic_views, Diagnostic, DiagnosticKind,
    DiagnosticView, ParseError,
};
use crate::lexer::{ends_with_single_eof, is_lexed_token, seq_of};
use crate::token::{classify_keyword, keyword_kind, token_views, KeywordKind, Token, TokenView};

verus! {

/// What the parser makes of the statement that starts at one token: at most
/// one statement, at most one diagnostic, and the token at which it goes on.
pub struct ParseStep {
    pub node: Option<ASTNodeView>,
    pub diagnostic: Option<DiagnosticView>,
    pub next: int,
}

/// The statements and the diagnostics of a token sequence, or of the rest of
/// one.
pub struct ParseOutput {
    pub program: Seq<ASTNodeView>,
    pub diagnostics: Seq<DiagnosticView>,
}

/// The step that fails with `error` at the statement starting at `idx`. The
/// diagnostic is located at `position`; its message tells whether the token at
/// `lookahead`, which was found wanting, lies beyond the end of the sequence.
pub open spec fn failed_step(
    tokens: Seq<TokenView>,
    idx: int,
    error: ParseError,
    position: int,
    lookahead: int,
) -> ParseStep {
    let kind = DiagnosticKind::Parse(error);
    ParseStep {
        node: None,
        diagnostic: Some(
            if lookahead < tokens.len() {
                diagnostic_at(kind, position)
            } else {
                diagnostic_at_end(kind, position)
            },
        ),
        next: idx + 1,
    }
}

/// The step at a declaration keyword at `idx`.
///
/// The three tokens after the keyword must be an identifier, `=`, and a number
/// or a string literal; the statement then takes four tokens. A missing
/// identifier is reported at the token after the keyword, a missing `=` at the
/// identifier it should follow, a missing literal at the token after `=`.
pub open spec fn declaration_step(tokens: Seq<TokenView>, idx: int) -> ParseStep {
    if !(idx + 1 < tokens.len() && tokens[idx + 1] is Identifier) {
        failed_step(tokens, idx, ParseError::MissingIdentifier, idx + 1, idx + 1)
    } else if !(idx + 2 < tokens.len() && tokens[idx + 2] is Equals) {
        failed_step(tokens, idx, ParseError::MissingEquals, idx + 1, idx + 2)
    } else if idx + 3 < tokens.len() && tokens[idx + 3] is Number {
        ParseStep {
            node: Some(
                ASTNodeView::VariableDeclaration {
                    name: tokens[idx + 1]->Identifier_0,
                    value: LiteralView::NumberLiteral(tokens[idx + 3]->Number_0),
                },
            ),
            diagnostic: None,
            next: idx + 4,
        }
    } else if idx + 3 < tokens.len() && tokens[idx + 3] is StringLiteral {
        ParseStep {
            node: Some(
                ASTNodeView::VariableDeclaration {
                    name: tokens[idx + 1]->Identifier_0,
                    value: LiteralView::StringLiteral(tokens[idx + 3]->StringLiteral_0),
                },
            ),
            diagnostic: None,
            next: idx + 4,
        }
    } else {
        failed_step(tokens, idx, ParseError::MissingLiteral, idx + 3, idx + 3)
    }
}

/// The step at the keyword `show` at `idx`: a string literal must follow, and
/// the statement then takes two tokens. A missing literal is reported at the
/// token after `show`.
pub open spec fn show_step(tokens: Seq<TokenView>, idx: int) -> ParseStep {
    if idx + 1 < tokens.len() && tokens[idx + 1] is StringLiteral {
        ParseStep {
            node: Some(ASTNodeView::Show(tokens[idx + 1]->StringLiteral_0)),
            diagnostic: None,
            next: idx + 2,
        }
    } else {
        failed_step(tokens, idx, ParseError::MissingStringAfterShow, idx + 1, idx + 1)
    }
}

/// The step at the token at `idx`, which starts a statement and is not
/// `EndOfFile`.
///
/// A keyword starts the statement of its kind; a keyword token with an
/// unknown spelling is reported where it stands. A semicolon is consumed. Any
/// other token is reported where it stands and skipped.
pub open spec fn parse_step(tokens: Seq<TokenView>, idx: int) -> ParseStep
    recommends
        0 <= idx < tokens.len(),
        !(tokens[idx] is EndOfFile),
{
    match tokens[idx] {
        TokenView::Keyword(name) => match keyword_kind(name) {
            Some(KeywordKind::Declaration) => declaration_step(tokens, idx),
            Some(KeywordKind::Show) => show_step(tokens, idx),
            None => failed_step(tokens, idx, ParseError::UnknownKeyword, idx, idx),
        },
        TokenView::Semicolon => ParseStep { node: None, diagnostic: None, next: idx + 1 },
        _ => failed_step(tokens, idx, ParseError::UnexpectedToken, idx, idx),
    }
}

/// Whether the parser stops at `idx`: at the end of the sequence or at an
/// `EndOfFile`.
pub open spec fn parse_stops(tokens: Seq<TokenView>, idx: int) -> bool {
    !(0 <= idx < tokens.len()) || tokens[idx] is EndOfFile
}

/// The statements and diagnostics of `tokens` from the statement boundary
/// `idx` on.
pub open spec fn parse_from(tokens: Seq<TokenView>, idx: int) -> ParseOutput
    decreases tokens.len() - idx,
{
    if parse_stops(tokens, idx) {
        ParseOutput { program: Seq::empty(), diagnostics: Seq::empty() }
    } else {
        let step = parse_step(tokens, idx);
        let rest = parse_from(tokens, step.next);
        ParseOutput {
            program: seq_of(step.node) + rest.program,
            diagnostics: seq_of(step.diagnostic) + rest.diagnostics,
        }
    }
}

/// The program and the diagnostics of the token sequence `tokens`.
pub open spec fn parse_tokens(tokens: Seq<TokenView>) -> ParseOutput {
    parse_from(tokens, 0)
}

/// What the executable parser makes of one statement.
pub(crate) struct Parsed {
    pub node: Option<ASTNode>,
    pub diagnostic: Option<Diagnostic>,
    pub next: usize,
}

impl View for Parsed {
    type V = ParseStep;

    closed spec fn view(&self) -> ParseStep {
        ParseStep {
            node: match self.node {
                Some(n) => Some(n@),
                None => None,
            },
            diagnostic: match self.diagnostic {
                Some(d) => Some(d@),
                None => None,
            },
            next: self.next as int,
        }
    }
}

/// Makes the failed step of [`failed_step`].
fn fail(
    tokens: &[Token],
    idx: usize,
    error: ParseError,
    position: usize,
    lookahead: usize,
) -> (step: Parsed)
    requires
        idx < tokens@.len(),
    ensures
        step@ == failed_step(
            token_views(tokens@),
            idx as int,
            error,
            position as int,
            lookahead as int,
        ),
{
    let kind = DiagnosticKind::Parse(error);
    let diagnostic = if lookahead < tokens.len() {
        Diagnostic::new(kind, position)
    } else {
        Diagnostic::at_end_of_input(kind, position)
    };
    Parsed { node: None, diagnostic: Some(diagnostic), next: idx + 1 }
}

/// Parses the declaration whose keyword stands at `idx`.
pub(crate) fn parse_declaration(tokens: &[Token], idx: usize) -> (step: Parsed)
    requires
        idx < tokens@.len(),
    ensures
        step@ == declaration_step(token_views(tokens@), idx as int),
        idx < step.next <= tokens@.len(),
{
    let len: usize = tokens.len();
    if idx + 1 < len {
        if let Token::Identifier(name) = &tokens[idx + 1] {
            if idx + 2 < len {
                if let Token::Equals = &tokens[idx + 2] {
                    if idx + 3 < len {
                        match &tokens[idx + 3] {
                            Token::Number(n) => {
                                let node = ASTNode::VariableDeclaration {
                                    name: name.clone(),
                                    value: Literal::NumberLiteral(*n),
                                };
                                return Parsed { node: Some(node), diagnostic: None, next: idx + 4 };
                            },
                            Token::StringLiteral(text) => {
                                let node = ASTNode::VariableDeclaration {
                                    name: name.clone(),
                                    value: Literal::StringLiteral(text.clone()),
                                };
                                return Parsed { node: Some(node), diagnostic: None, next: idx + 4 };
                            },
                            _ => {},
                        }
                    }
                    return fail(tokens, idx, ParseError::MissingLiteral, idx + 3, idx + 3);
                }
            }
            return fail(tokens, idx, ParseError::MissingEquals, idx + 1, idx + 2);
        }
    }
    fail(tokens, idx, ParseError::MissingIdentifier, idx + 1, idx + 1)
}

/// Parses the `show` statement whose keyword stands at `idx`.
pub(crate) fn parse_show(tokens: &[Token], idx: usize) -> (step: Parsed)
    requires
        idx < tokens@.len(),
    ensures
        step@ == show_step(token_views(tokens@), idx as int),
        idx < step.next <= tokens@.len(),
{
    let len: usize = tokens.len();
    if idx + 1 < len {
        if let Token::StringLiteral(text) = &tokens[idx + 1] {
            return Parsed { node: Some(ASTNode::Show(text.clone())), diagnostic: None, next: idx + 2 };
        }
    }
    fail(tokens, idx, ParseError::MissingStringAfterShow, idx + 1, idx + 1)
}

/// Parses the statement that starts at `idx`.
pub(crate) fn parse_statement(tokens: &[Token], idx: usize) -> (step: Parsed)
    requires
        idx < tokens@.len(),
        !(tokens@[idx as int] is EndOfFile),
    ensures
        step@ == parse_step(token_views(tokens@), idx as int),
        idx < step.next <= tokens@.len(),
{
    match &tokens[idx] {
        Token::Keyword(name) => match classify_keyword(name.as_str()) {
            Some(KeywordKind::Declaration) => parse_declaration(tokens, idx),
            Some(KeywordKind::Show) => parse_show(tokens, idx),
            None => fail(tokens, idx, ParseError::UnknownKeyword, idx, idx),
        },
        Token::Semicolon => Parsed { node: None, diagnostic: None, next: idx + 1 },
        _ => fail(tokens, idx, ParseError::UnexpectedToken, idx, idx),
    }
}

/// Whether the parser stops at `idx`.
fn stops(tokens: &[Token], idx: usize) -> (b: bool)
    ensures
        b == parse_stops(token_views(tokens@), idx as int),
{
    if idx < tokens.len() {
        match &tokens[idx] {
            Token::EndOfFile => true,
            _ => false,
        }
    } else {
        true
    }
}

/// Parses `tokens` into a program, recording a diagnostic for every
/// malformed statement and going on after it.
///
/// The result holds exactly the statements and the diagnostics of
/// [`parse_tokens`], each in source order.
pub fn parse(tokens: &[Token]) -> (result: (Program, Vec<Diagnostic>))
    ensures
        program_view(result.0@) == parse_tokens(token_views(tokens@)).program,
        diagnostic_views(result.1@) == parse_tokens(token_views(tokens@)).diagnostics,
{
    let ghost views = token_views(tokens@);
    let mut program: Program = Vec::new();
    let mut diagnostics: Vec<Diagnostic> = Vec::new();
    let mut idx: usize = 0;
    while !stops(tokens, idx)
        invariant
            idx <= tokens@.len(),
            views == token_views(tokens@),
            parse_tokens(views).program =~= program_view(program@) + parse_from(
                views,
                idx as int,
            ).program,
            parse_tokens(views).diagnostics =~= diagnostic_views(diagnostics@) + parse_from(
                views,
                idx as int,
            ).diagnostics,
        decreases tokens@.len() - idx,
    {
        let step = parse_statement(tokens, idx);
        if let Some(node) = step.node {
            program.push(node);
        }
        if let Some(diagnostic) = step.diagnostic {
            diagnostics.push(diagnostic);
        }
        idx = step.next;
    }
    (program, diagnostics)
}

/// A diagnostic as the parser makes it: of a syntactic kind, at a token of
/// the sequence or just beyond its end, with the message of its kind or the
/// message for a sequence that ended too early.
pub open spec fn is_syntax_diagnostic(d: DiagnosticView, len: int) -> bool {
    &&& d.kind is Parse
    &&& 0 <= d.position <= len
    &&& (d == diagnostic_at(d.kind, d.position) || d == diagnostic_at_end(d.kind, d.position))
}

/// Law: whatever the tokens, every diagnostic of the parser is syntactic and
/// located from the statement's first token to one past the end of the
/// sequence, and there are at most as many statements and diagnostics
/// together as tokens.
pub proof fn lemma_parse_output(tokens: Seq<TokenView>, idx: int)
    requires
        0 <= idx <= tokens.len(),
    ensures
        forall|i: int|
            0 <= i < parse_from(tokens, idx).diagnostics.len() ==> is_syntax_diagnostic(
                #[trigger] parse_from(tokens, idx).diagnostics[i],
                tokens.len() as int,
            ) && parse_from(tokens, idx).diagnostics[i].position >= idx,
        parse_from(tokens, idx).program.len() + parse_from(tokens, idx).diagnostics.len()
            <= tokens.len() - idx,
    decreases tokens.len() - idx,
{
    if !parse_stops(tokens, idx) {
        lemma_parse_output(tokens, parse_step(tokens, idx).next);
    }
}

/// Law: on tokens as the lexer makes them, which end with the only
/// `EndOfFile` and hold no keyword outside the set, the parser never runs off
/// the end and never meets an unknown keyword: every diagnostic is located at
/// a token of the sequence and bears the message of its kind, and none is
/// `UnknownKeyword`.
pub proof fn lemma_parse_of_lexed(tokens: Seq<TokenView>, idx: int)
    requires
        0 <= idx <= tokens.len(),
        ends_with_single_eof(tokens),
        forall|i: int| 0 <= i < tokens.len() ==> is_lexed_token(#[trigger] tokens[i]),
    ensures
        forall|i: int|
            0 <= i < parse_from(tokens, idx).diagnostics.len() ==> {
                let d = #[trigger] parse_from(tokens, idx).diagnostics[i];
                &&& d.kind is Parse
                &&& d.kind != DiagnosticKind::Parse(ParseError::UnknownKeyword)
                &&& idx <= d.position < tokens.len()
                &&& d == diagnostic_at(d.kind, d.position)
            },
    decreases tokens.len() - idx,
{
    if !parse_stops(tokens, idx) {
        assert(is_lexed_token(tokens[idx]));
        lemma_parse_of_lexed(tokens, parse_step(tokens, idx).next);
    }
}

/// Law: a declaration keyword with `EndOfFile` right after it yields no
/// statement and one diagnostic, the missing identifier, located at the
/// `EndOfFile`.
pub proof fn lemma_keyword_before_end_of_file(name: Seq<char>)
    requires
        keyword_kind(name) == Some(KeywordKind::Declaration),
    ensures
        parse_tokens(seq![TokenView::Keyword(name), TokenView::EndOfFile]) == (ParseOutput {
            program: Seq::empty(),
            diagnostics: seq![
                diagnostic_at(DiagnosticKind::Parse(ParseError::MissingIdentifier), 1),
            ],
        }),
{
    let tokens = seq![TokenView::Keyword(name), TokenView::EndOfFile];
    let out = parse_from(tokens, 0);
    let rest = parse_from(tokens, 1);
    assert(parse_stops(tokens, 1));
    assert(rest.program =~= Seq::<ASTNodeView>::empty());
    assert(rest.diagnostics =~= Seq::<DiagnosticView>::empty());
    assert(!parse_stops(tokens, 0));
    assert(parse_step(tokens, 0) == failed_step(tokens, 0, ParseError::MissingIdentifier, 1, 1));
    assert(out.program =~= Seq::<ASTNodeView>::empty());
    assert(out.diagnostics =~= seq![
        diagnostic_at(DiagnosticKind::Parse(ParseError::MissingIdentifier), 1),
    ]);
}

/// The token that spells the literal `value`.
pub open spec fn literal_token(value: LiteralView) -> TokenView {
    match value {
        LiteralView::NumberLiteral(n) => TokenView::Number(n),
        LiteralView::StringLiteral(text) => TokenView::StringLiteral(text),
    }
}

/// The tokens that spell the statement `node`, with the keyword `m` for a
/// declaration, followed by a semicolon if `semicolon` is set.
pub open spec fn statement_tokens(node: ASTNodeView, semicolon: bool) -> Seq<TokenView> {
    let words = match node {
        ASTNodeView::VariableDeclaration { name, value } => seq![
            TokenView::Keyword(seq!['m']),
            TokenView::Identifier(name),
            TokenView::Equals,
            literal_token(value),
        ],
        ASTNodeView::Show(text) => seq![
            TokenView::Keyword(seq!['s', 'h', 'o', 'w']),
            TokenView::StringLiteral(text),
        ],
    };
    if semicolon {
        words.push(TokenView::Semicolon)
    } else {
        words
    }
}

/// The tokens that spell `program`: those of its statements, in order.
pub open spec fn program_tokens(program: Seq<ASTNodeView>, semicolons: bool) -> Seq<TokenView>
    decreases program.len(),
{
    if program.len() == 0 {
        Seq::empty()
    } else {
        statement_tokens(program.first(), semicolons) + program_tokens(
            program.drop_first(),
            semicolons,
        )
    }
}

/// From a statement boundary at which the spelling of `program` and an
/// `EndOfFile` stand, the parser reads `program` and reports nothing.
pub proof fn lemma_parse_spelling_from(
    tokens: Seq<TokenView>,
    idx: int,
    program: Seq<ASTNodeView>,
    semicolons: bool,
)
    requires
        0 <= idx <= tokens.len(),
        tokens.subrange(idx, tokens.len() as int) =~= program_tokens(program, semicolons).push(
            TokenView::EndOfFile,
        ),
    ensures
        parse_from(tokens, idx).program == program,
        parse_from(tokens, idx).diagnostics == Seq::<DiagnosticView>::empty(),
    decreases program.len(),
{
    let tail = tokens.subrange(idx, tokens.len() as int);
    assert(tail.len() == tokens.len() - idx);
    assert(tail.len() == program_tokens(program, semicolons).len() + 1);
    if program.len() == 0 {
        assert(tail[0] is EndOfFile);
        assert(tokens[idx] == tail[0]);
        assert(parse_from(tokens, idx).program =~= program);
    } else {
        let first = program.first();
        let rest = program.drop_first();
        let words = statement_tokens(first, false);
        let spelled = statement_tokens(first, semicolons);
        let after = idx + spelled.len();
        assert forall|j: int| 0 <= j < spelled.len() implies tokens[idx + j] == spelled[j] by {
            assert(tokens[idx + j] == tail[j]);
        }
        assert forall|j: int| 0 <= j < words.len() implies tokens[idx + j] == words[j] by {
            assert(spelled[j] == words[j]);
        }
        assert(tokens.subrange(after, tokens.len() as int) =~= program_tokens(
            rest,
            semicolons,
        ).push(TokenView::EndOfFile)) by {
            let next_tail = tokens.subrange(after, tokens.len() as int);
            let expected = program_tokens(rest, semicolons).push(TokenView::EndOfFile);
            assert(tail.len() == spelled.len() + expected.len());
            assert forall|j: int| 0 <= j < expected.len() implies next_tail[j] == expected[j] by {
                assert(next_tail[j] == tail[spelled.len() + j]);
            }
        }
        lemma_parse_spelling_from(tokens, after, rest, semicolons);
        assert(tokens[idx] == words[0]);
        assert(keyword_kind(seq!['m']) == Some(KeywordKind::Declaration));
        assert(keyword_kind(seq!['s', 'h', 'o', 'w']) == Some(KeywordKind::Show));
        let step = parse_step(tokens, idx);
        assert(step.node == Some(first) && step.diagnostic is None && step.next == idx
            + words.len()) by {
            match first {
                ASTNodeView::VariableDeclaration { name, value } => {
                    assert(tokens[idx + 1] == words[1]);
                    assert(tokens[idx + 2] == words[2]);
                    assert(tokens[idx + 3] == words[3]);
                },
                ASTNodeView::Show(text) => {
                    assert(tokens[idx + 1] == words[1]);
                },
            }
        }
        if semicolons {
            assert(tokens[step.next] == spelled[words.len() as int]);
            assert(!parse_stops(tokens, step.next));
            assert(parse_step(tokens, step.next).next == after);
            assert(parse_from(tokens, step.next).program =~= parse_from(tokens, after).program);
            assert(parse_from(tokens, step.next).diagnostics =~= parse_from(
                tokens,
                after,
            ).diagnostics);
        }
        assert(parse_from(tokens, idx).program =~= program);
        assert(parse_from(tokens, idx).diagnostics =~= Seq::<DiagnosticView>::empty());
    }
}

/// Law: the parser accepts the grammar. Every program, spelled out as tokens
/// with or without a semicolon after each statement and closed by
/// `EndOfFile`, is parsed back as it is, without a diagnostic.
pub proof fn lemma_parse_spelling(program: Seq<ASTNodeView>, semicolons: bool)
    ensures
        parse_tokens(program_tokens(program, semicolons).push(TokenView::EndOfFile)) == (
        ParseOutput { program, diagnostics: Seq::empty() }),
{
    let tokens = program_tokens(program, semicolons).push(TokenView::EndOfFile);
    assert(tokens.subrange(0, tokens.len() as int) =~= tokens);
    lemma_parse_spelling_from(tokens, 0, program, semicolons);
}

} // verus!
