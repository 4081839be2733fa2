//! The pipeline: lexer, parser and code generator in sequence, under a
//! policy for malformed input that the caller selects.

use vstd::prelude::*;
use crate::ast::{ASTNodeView, LiteralView};
use crate::codegen::{generate, generated_text};
use crate::diagnostic::{
    diagnostic_at, diagnostic_views, Diagnostic, DiagnosticKind, DiagnosticView, ParseError,
};
use crate::lexer::{
    is_lexed_token, is_word, lemma_lex_output, lemma_lex_source_of, lex, source_of, tokenize,
    tokenize_lenient,
};
use crate::parser::{
    lemma_keyword_before_end_of_file, lemma_parse_of_lexed, lemma_parse_spelling, parse,
    parse_tokens, program_tokens, statement_tokens, ParseOutput,
};
use crate::token::{is_keyword, keyword_kind, KeywordKind, TokenView};

verus! {

/// How the pipeline reacts to malformed input.
#[derive(Clone, Copy, Debug, PartialEq, Eq)]
pub enum Mode {
    /// The first diagnostic of any stage ends the run and is its sole error.
    Strict,
    /// Every diagnostic is recorded, the offending input is skipped, and code
    /// is generated for the statements that were parsed.
    Lenient,
}

/// The diagnostics of a run, in the order in which they were raised.
pub type Diagnostics = Vec<Diagnostic>;

/// The outcome of a run that generated code: the C source text, and the
/// diagnostics that a lenient run met on the way.
#[derive(Clone, Debug, PartialEq, Eq)]
pub struct GeneratedCode {
    pub text: String,
    pub diagnostics: Diagnostics,
}

/// The mathematical value of a [`GeneratedCode`].
pub struct GeneratedCodeView {
    pub text: Seq<char>,
    pub diagnostics: Seq<DiagnosticView>,
}

impl View for GeneratedCode {
    type V = GeneratedCodeView;

    open spec fn view(&self) -> GeneratedCodeView {
        GeneratedCodeView { text: self.text@, diagnostics: diagnostic_views(self.diagnostics@) }
    }
}

/// What the parser makes of the tokens that the lexer finds in `source`.
pub open spec fn front_end(source: Seq<char>) -> ParseOutput {
    parse_tokens(lex(source).tokens)
}

/// Every diagnostic of `source`: those of the lexer, then those of the parser.
pub open spec fn source_diagnostics(source: Seq<char>) -> Seq<DiagnosticView> {
    lex(source).diagnostics + front_end(source).diagnostics
}

/// The C source text for the statements that `source` holds.
pub open spec fn source_text(source: Seq<char>) -> Seq<char> {
    generated_text(front_end(source).program)
}

/// A valid program: a source in which neither stage finds a failure.
pub open spec fn is_valid_program(source: Seq<char>) -> bool {
    source_diagnostics(source).len() == 0
}

/// The outcome of the pipeline on `source` in mode `mode`.
///
/// A lenient run always generates code, for the statements that were parsed,
/// and hands back every diagnostic with it. A strict run generates code
/// exactly for a valid program; on any other source it fails with the first
/// diagnostic alone.
pub open spec fn compile_outcome(source: Seq<char>, mode: Mode) -> Result<
    GeneratedCodeView,
    Seq<DiagnosticView>,
> {
    match mode {
        Mode::Lenient => Ok(
            GeneratedCodeView {
                text: source_text(source),
                diagnostics: source_diagnostics(source),
            },
        ),
        Mode::Strict => if is_valid_program(source) {
            Ok(GeneratedCodeView { text: source_text(source), diagnostics: Seq::empty() })
        } else {
            Err(seq![source_diagnostics(source)[0]])
        },
    }
}

/// The value of the result of a run.
pub open spec fn outcome_view(result: Result<GeneratedCode, Diagnostics>) -> Result<
    GeneratedCodeView,
    Seq<DiagnosticView>,
> {
    match result {
        Ok(code) => Ok(code@),
        Err(diagnostics) => Err(diagnostic_views(diagnostics@)),
    }
}

/// Runs the pipeline in strict mode.
///
/// The result is `Ok` exactly when `source` is a valid program, and is then
/// its C source text. Otherwise it is the first diagnostic of the source: the
/// lexer's first if the lexer has any, else the parser's first.
pub fn compile_strict(source: &str) -> (result: Result<String, Diagnostic>)
    ensures
        match result {
            Ok(text) => is_valid_program(source@) && text@ == source_text(source@),
            Err(diagnostic) => !is_valid_program(source@) && diagnostic@ == source_diagnostics(
                source@,
            )[0],
        },
{
    let tokens = match tokenize(source) {
        Ok(tokens) => tokens,
        Err(diagnostic) => {
            return Err(diagnostic);
        },
    };
    let (program, mut diagnostics) = parse(tokens.as_slice());
    if diagnostics.len() > 0 {
        let first = diagnostics.remove(0);
        return Err(first);
    }
    Ok(generate(&program))
}

/// Runs the pipeline in lenient mode.
///
/// The result is the C source text for the statements that were parsed, with
/// every diagnostic of the source.
pub fn compile_lenient(source: &str) -> (result: (String, Diagnostics))
    ensures
        result.0@ == source_text(source@),
        diagnostic_views(result.1@) == source_diagnostics(source@),
{
    let (tokens, mut diagnostics) = tokenize_lenient(source);
    let (program, mut syntax) = parse(tokens.as_slice());
    let ghost lexical = diagnostics@;
    let ghost syntactic = syntax@;
    diagnostics.append(&mut syntax);
    proof {
        assert(diagnostic_views(lexical + syntactic) =~= diagnostic_views(lexical)
            + diagnostic_views(syntactic));
    }
    (generate(&program), diagnostics)
}

/// Compiles `source` in mode `mode`: lexes it, parses the tokens and generates
/// C source text for the program.
///
/// The result is [`compile_outcome`]: see there for when the run succeeds and
/// what it hands back.
pub fn compile(source: &str, mode: Mode) -> (result: Result<GeneratedCode, Diagnostics>)
    ensures
        outcome_view(result) == compile_outcome(source@, mode),
{
    match mode {
        Mode::Strict => match compile_strict(source) {
            Ok(text) => {
                let code = GeneratedCode { text, diagnostics: Vec::new() };
                proof {
                    assert(code@.diagnostics =~= Seq::<DiagnosticView>::empty());
                }
                Ok(code)
            },
            Err(diagnostic) => {
                let mut diagnostics: Diagnostics = Vec::new();
                diagnostics.push(diagnostic);
                proof {
                    assert(diagnostic_views(diagnostics@) =~= seq![diagnostic@]);
                }
                Err(diagnostics)
            },
        },
        Mode::Lenient => {
            let (text, diagnostics) = compile_lenient(source);
            Ok(GeneratedCode { text, diagnostics })
        },
    }
}

/// Law: on a valid program both modes succeed, with the same text and no
/// diagnostic.
pub proof fn lemma_valid_program_compiles(source: Seq<char>, mode: Mode)
    requires
        is_valid_program(source),
    ensures
        compile_outcome(source, mode) == Ok::<GeneratedCodeView, Seq<DiagnosticView>>(
            GeneratedCodeView { text: source_text(source), diagnostics: Seq::empty() },
        ),
{
    assert(source_diagnostics(source) =~= Seq::<DiagnosticView>::empty());
}

/// Law: the pipeline is deterministic. Two runs on the same source in the
/// same mode, each with a result that `compile` may return, have the same
/// outcome, and where they generate code it is the same text, byte for byte.
pub proof fn lemma_compile_deterministic(
    source: Seq<char>,
    mode: Mode,
    first: Result<GeneratedCode, Diagnostics>,
    second: Result<GeneratedCode, Diagnostics>,
)
    requires
        outcome_view(first) == compile_outcome(source, mode),
        outcome_view(second) == compile_outcome(source, mode),
    ensures
        outcome_view(first) == outcome_view(second),
        first is Ok <==> second is Ok,
        first is Ok ==> vstd::utf8::encode_utf8(first->Ok_0.text@) == vstd::utf8::encode_utf8(
            second->Ok_0.text@,
        ),
{
}

/// Law: a strict run fails exactly when the lenient run on the same source
/// records a diagnostic, and then with the first that the lenient run
/// records; where it succeeds, both generate the same text.
pub proof fn lemma_strict_agrees_with_lenient(source: Seq<char>)
    ensures
        compile_outcome(source, Mode::Strict) is Ok <==> compile_outcome(
            source,
            Mode::Lenient,
        )->Ok_0.diagnostics.len() == 0,
        compile_outcome(source, Mode::Strict) matches Ok(code) ==> code.text == compile_outcome(
            source,
            Mode::Lenient,
        )->Ok_0.text,
        compile_outcome(source, Mode::Strict) matches Err(diagnostics) ==> diagnostics =~= seq![
            compile_outcome(source, Mode::Lenient)->Ok_0.diagnostics[0],
        ],
{
}

/// Law: every diagnostic that the pipeline can raise bears the message of its
/// kind, and none is `UnknownKeyword`: the lexer makes no keyword outside the
/// set, and its closing `EndOfFile` keeps the parser within the tokens.
pub proof fn lemma_source_diagnostics(source: Seq<char>)
    ensures
        forall|i: int|
            0 <= i < source_diagnostics(source).len() ==> {
                let d = #[trigger] source_diagnostics(source)[i];
                &&& d == diagnostic_at(d.kind, d.position)
                &&& d.kind != DiagnosticKind::Parse(ParseError::UnknownKeyword)
                &&& d.kind is Lex <==> i < lex(source).diagnostics.len()
            },
{
    lemma_lex_output(source, 0);
    lemma_parse_of_lexed(lex(source).tokens, 0);
}

/// Law: a source that is one declaration keyword and nothing else. A lenient
/// run goes on to generate the text of the empty program and hands back one
/// diagnostic, the missing identifier; a strict run fails with that
/// diagnostic and generates nothing.
pub proof fn lemma_lone_keyword_outcome(source: Seq<char>, name: Seq<char>)
    requires
        keyword_kind(name) == Some(KeywordKind::Declaration),
        lex(source).tokens == seq![TokenView::Keyword(name), TokenView::EndOfFile],
        lex(source).diagnostics.len() == 0,
    ensures
        compile_outcome(source, Mode::Lenient) == Ok::<GeneratedCodeView, Seq<DiagnosticView>>(
            GeneratedCodeView {
                text: generated_text(Seq::empty()),
                diagnostics: seq![
                    diagnostic_at(DiagnosticKind::Parse(ParseError::MissingIdentifier), 1),
                ],
            },
        ),
        compile_outcome(source, Mode::Strict) == Err::<GeneratedCodeView, Seq<DiagnosticView>>(
            seq![diagnostic_at(DiagnosticKind::Parse(ParseError::MissingIdentifier), 1)],
        ),
{
    lemma_keyword_before_end_of_file(name);
    let d = diagnostic_at(DiagnosticKind::Parse(ParseError::MissingIdentifier), 1);
    assert(front_end(source).program =~= Seq::<ASTNodeView>::empty());
    assert(source_diagnostics(source) =~= seq![d]);
}

/// A statement that can be written down in BP: the name of a declaration is a
/// word and no keyword, a number is not negative, and a string holds no
/// double quote.
pub open spec fn is_writable(node: ASTNodeView) -> bool {
    match node {
        ASTNodeView::VariableDeclaration { name, value } => {
            &&& is_word(name)
            &&& !is_keyword(name)
            &&& match value {
                LiteralView::NumberLiteral(n) => n >= 0,
                LiteralView::StringLiteral(text) => !text.contains('"'),
            }
        },
        ASTNodeView::Show(text) => !text.contains('"'),
    }
}

/// A source text for `program`: its statements spelled out in order, each
/// followed by a semicolon if `semicolons` is set.
pub open spec fn program_source(program: Seq<ASTNodeView>, semicolons: bool) -> Seq<char> {
    source_of(program_tokens(program, semicolons))
}

/// The tokens that spell a program of writable statements are tokens as the
/// lexer makes them, and none is `EndOfFile`.
pub proof fn lemma_program_tokens_are_lexed(program: Seq<ASTNodeView>, semicolons: bool)
    requires
        forall|i: int| 0 <= i < program.len() ==> is_writable(#[trigger] program[i]),
    ensures
        forall|i: int|
            0 <= i < program_tokens(program, semicolons).len() ==> is_lexed_token(
                #[trigger] program_tokens(program, semicolons)[i],
            ) && !(program_tokens(program, semicolons)[i] is EndOfFile),
    decreases program.len(),
{
    if program.len() > 0 {
        let first = statement_tokens(program.first(), semicolons);
        let rest = program_tokens(program.drop_first(), semicolons);
        assert(is_writable(program[0]));
        assert forall|i: int| 0 <= i < program.drop_first().len() implies is_writable(
            #[trigger] program.drop_first()[i],
        ) by {
            assert(program.drop_first()[i] == program[i + 1]);
        }
        lemma_program_tokens_are_lexed(program.drop_first(), semicolons);
        assert(keyword_kind(seq!['m']) is Some);
        assert(keyword_kind(seq!['s', 'h', 'o', 'w']) is Some);
        assert forall|i: int| 0 <= i < first.len() implies is_lexed_token(#[trigger] first[i]) && !(
        first[i] is EndOfFile) by {}
        assert forall|i: int| 0 <= i < (first + rest).len() implies is_lexed_token(
            #[trigger] (first + rest)[i],
        ) && !((first + rest)[i] is EndOfFile) by {
            if i < first.len() {
                assert((first + rest)[i] == first[i]);
            } else {
                assert((first + rest)[i] == rest[i - first.len()]);
            }
        }
    }
}

/// Law: the front end accepts the language. Every program of writable
/// statements has a source text that is a valid program; from it the lexer
/// and the parser recover the program, and both modes generate its text.
pub proof fn lemma_program_source_compiles(
    program: Seq<ASTNodeView>,
    semicolons: bool,
    mode: Mode,
)
    requires
        forall|i: int| 0 <= i < program.len() ==> is_writable(#[trigger] program[i]),
    ensures
        is_valid_program(program_source(program, semicolons)),
        front_end(program_source(program, semicolons)).program == program,
        compile_outcome(program_source(program, semicolons), mode) == Ok::<
            GeneratedCodeView,
            Seq<DiagnosticView>,
        >(GeneratedCodeView { text: generated_text(program), diagnostics: Seq::empty() }),
{
    let source = program_source(program, semicolons);
    lemma_program_tokens_are_lexed(program, semicolons);
    lemma_lex_source_of(program_tokens(program, semicolons));
    lemma_parse_spelling(program, semicolons);
    assert(source_diagnostics(source) =~= Seq::<DiagnosticView>::empty());
    lemma_valid_program_compiles(source, mode);
}

} // verus!
