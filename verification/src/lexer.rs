//! Lexical analysis: from the characters of a BP source text to its tokens.
//!
//! The lexer reads the text from left to right. At each position it takes the
//! longest token that starts there, skips a blank, or reports a failure; the
//! spec function [`lex`] says which, and the executable lexers are proved to
//! follow it.

use vstd::prelude::*;
use crate::diagnostic::{
    diagnostic_at, diagnostic_views, Diagnostic, DiagnosticKind, DiagnosticView, LexError,
};
use crate::text::{
    decimal_digits, decimal_value, is_ascii_letter, is_blank, is_digit, is_word_char,
    lemma_decimal_digits_are_digits, lemma_decimal_round_trip, lemma_run_end,
    lemma_run_end_unique, parse_decimal, run_end, scan_run, to_chars, CharClass,
};
use crate::token::{is_keyword, make_word, token_views, word_token, Token, TokenView};

verus! {

/// What the lexer makes of one position of the text: at most one token, at
/// most one diagnostic, and the position at which it goes on.
pub struct LexStep {
    pub token: Option<TokenView>,
    pub diagnostic: Option<DiagnosticView>,
    pub next: int,
}

/// The tokens and the diagnostics of a text, or of the rest of one.
pub struct LexOutput {
    pub tokens: Seq<TokenView>,
    pub diagnostics: Seq<DiagnosticView>,
}

/// The sequence of the one value in `o`, or the empty sequence.
pub open spec fn seq_of<T>(o: Option<T>) -> Seq<T> {
    match o {
        Some(x) => seq![x],
        None => Seq::empty(),
    }
}

/// A lexical diagnostic at character `pos`.
pub open spec fn lex_diagnostic(error: LexError, pos: int) -> DiagnosticView {
    diagnostic_at(DiagnosticKind::Lex(error), pos)
}

/// The step of the lexer at position `pos` of `s`.
///
/// - `=` and `;` are tokens of one character.
/// - `"` opens a string literal: its text is everything up to the next `"`,
///   taken verbatim, and the closing quote is consumed. Without a closing
///   quote the rest of the text is dropped and the failure is reported at the
///   opening quote.
/// - A digit opens a numeral, the longest run of digits. If its value fits in
///   an `i32` it is a number token; if not, the run is dropped and the failure
///   is reported at its first digit.
/// - An ASCII letter opens a word: the letter and the longest run of
///   alphabetic characters after it; a digit is none. A word is a keyword if
///   it is spelled as one, an identifier if not.
/// - A blank is skipped.
/// - Any other character is reported and skipped.
pub open spec fn lex_step(s: Seq<char>, pos: int) -> LexStep
    recommends
        0 <= pos < s.len(),
{
    let c = s[pos];
    if c == '=' {
        LexStep { token: Some(TokenView::Equals), diagnostic: None, next: pos + 1 }
    } else if c == ';' {
        LexStep { token: Some(TokenView::Semicolon), diagnostic: None, next: pos + 1 }
    } else if c == '"' {
        let close = run_end(s, pos + 1, CharClass::StringBody);
        if close < s.len() {
            LexStep {
                token: Some(TokenView::StringLiteral(s.subrange(pos + 1, close))),
                diagnostic: None,
                next: close + 1,
            }
        } else {
            LexStep {
                token: None,
                diagnostic: Some(lex_diagnostic(LexError::UnterminatedString, pos)),
                next: close,
            }
        }
    } else if is_digit(c) {
        let end = run_end(s, pos + 1, CharClass::Digit);
        let value = decimal_value(s.subrange(pos, end));
        if value <= i32::MAX {
            LexStep { token: Some(TokenView::Number(value as i32)), diagnostic: None, next: end }
        } else {
            LexStep {
                token: None,
                diagnostic: Some(lex_diagnostic(LexError::IntegerOverflow, pos)),
                next: end,
            }
        }
    } else if is_ascii_letter(c) {
        let end = run_end(s, pos + 1, CharClass::Word);
        LexStep { token: Some(word_token(s.subrange(pos, end))), diagnostic: None, next: end }
    } else if is_blank(c) {
        LexStep { token: None, diagnostic: None, next: pos + 1 }
    } else {
        LexStep {
            token: None,
            diagnostic: Some(lex_diagnostic(LexError::UnexpectedCharacter, pos)),
            next: pos + 1,
        }
    }
}

/// Every step consumes at least one character and stays within the text.
pub proof fn lemma_lex_step_advances(s: Seq<char>, pos: int)
    requires
        0 <= pos < s.len(),
    ensures
        pos < lex_step(s, pos).next <= s.len(),
{
    lemma_run_end(s, pos + 1, CharClass::StringBody);
    lemma_run_end(s, pos + 1, CharClass::Digit);
    lemma_run_end(s, pos + 1, CharClass::Word);
}

/// The tokens and diagnostics of `s` from position `pos` on. The tokens end
/// with `EndOfFile`, which stands for the end of the text.
pub open spec fn lex_from(s: Seq<char>, pos: int) -> LexOutput
    decreases s.len() - pos,
    via lex_from_decreases
{
    if 0 <= pos < s.len() {
        let step = lex_step(s, pos);
        let rest = lex_from(s, step.next);
        LexOutput {
            tokens: seq_of(step.token) + rest.tokens,
            diagnostics: seq_of(step.diagnostic) + rest.diagnostics,
        }
    } else {
        LexOutput { tokens: seq![TokenView::EndOfFile], diagnostics: Seq::empty() }
    }
}

#[via_fn]
proof fn lex_from_decreases(s: Seq<char>, pos: int) {
    if 0 <= pos < s.len() {
        lemma_lex_step_advances(s, pos);
    }
}

/// The tokens and the diagnostics of the text `s`, every failure skipped over.
pub open spec fn lex(s: Seq<char>) -> LexOutput {
    lex_from(s, 0)
}

/// A token sequence that ends with `EndOfFile` and holds no other.
pub open spec fn ends_with_single_eof(tokens: Seq<TokenView>) -> bool {
    &&& tokens.len() >= 1
    &&& tokens.last() is EndOfFile
    &&& forall|i: int| 0 <= i < tokens.len() - 1 ==> !(#[trigger] tokens[i] is EndOfFile)
}

/// A word: an ASCII letter, then characters that may continue a word.
pub open spec fn is_word(name: Seq<char>) -> bool {
    &&& name.len() >= 1
    &&& is_ascii_letter(name[0])
    &&& forall|i: int| 1 <= i < name.len() ==> is_word_char(#[trigger] name[i])
}

/// A token as the lexer makes it: a keyword is spelled as one of the three,
/// an identifier is a word that is none of them, a number is not negative,
/// and a string literal holds no double quote.
pub open spec fn is_lexed_token(token: TokenView) -> bool {
    match token {
        TokenView::Keyword(name) => is_keyword(name),
        TokenView::Identifier(name) => is_word(name) && !is_keyword(name),
        TokenView::StringLiteral(text) => !text.contains('"'),
        TokenView::Number(value) => value >= 0,
        _ => true,
    }
}

/// A diagnostic as the lexer makes it: of a lexical kind, at a character of
/// the text, with the message of its kind.
pub open spec fn is_lexical_diagnostic(d: DiagnosticView, len: int) -> bool {
    &&& d.kind is Lex
    &&& 0 <= d.position < len
    &&& d == diagnostic_at(d.kind, d.position)
}

/// The step at `pos` yields a token of the lexer's making, never `EndOfFile`,
/// and a diagnostic located in the step's own stretch of the text.
pub proof fn lemma_lex_step_shape(s: Seq<char>, pos: int)
    requires
        0 <= pos < s.len(),
    ensures
        lex_step(s, pos).token matches Some(t) ==> is_lexed_token(t) && !(t is EndOfFile),
        lex_step(s, pos).diagnostic matches Some(d) ==> is_lexical_diagnostic(d, s.len() as int)
            && d.position == pos,
        !(lex_step(s, pos).token is Some && lex_step(s, pos).diagnostic is Some),
{
    lemma_run_end(s, pos + 1, CharClass::StringBody);
    lemma_run_end(s, pos + 1, CharClass::Digit);
    lemma_run_end(s, pos + 1, CharClass::Word);
    let c = s[pos];
    if c == '"' {
        let close = run_end(s, pos + 1, CharClass::StringBody);
        if close < s.len() {
            let text = s.subrange(pos + 1, close);
            assert forall|i: int| 0 <= i < text.len() implies text[i] != '"' by {
                assert(CharClass::StringBody.holds(s[pos + 1 + i]));
            }
        }
    } else if is_ascii_letter(c) {
        let end = run_end(s, pos + 1, CharClass::Word);
        let name = s.subrange(pos, end);
        assert(name[0] == c);
        assert forall|i: int| 1 <= i < name.len() implies is_word_char(#[trigger] name[i]) by {
            assert(CharClass::Word.holds(s[pos + i]));
        }
    }
}

/// Law: whatever the text, the lexer's tokens end with exactly one
/// `EndOfFile`; every other token is one of the lexer's making; every
/// diagnostic is lexical and lies within the text, in increasing order of
/// position; and there are at most as many tokens, `EndOfFile` aside, and
/// diagnostics as characters.
pub proof fn lemma_lex_output(s: Seq<char>, pos: int)
    requires
        0 <= pos <= s.len(),
    ensures
        ends_with_single_eof(lex_from(s, pos).tokens),
        forall|i: int|
            0 <= i < lex_from(s, pos).tokens.len() ==> is_lexed_token(
                #[trigger] lex_from(s, pos).tokens[i],
            ),
        forall|i: int|
            0 <= i < lex_from(s, pos).diagnostics.len() ==> is_lexical_diagnostic(
                #[trigger] lex_from(s, pos).diagnostics[i],
                s.len() as int,
            ) && lex_from(s, pos).diagnostics[i].position >= pos,
        forall|i: int, j: int|
            0 <= i < j < lex_from(s, pos).diagnostics.len() ==> (
            #[trigger] lex_from(s, pos).diagnostics[i]).position < (
            #[trigger] lex_from(s, pos).diagnostics[j]).position,
        lex_from(s, pos).tokens.len() - 1 + lex_from(s, pos).diagnostics.len() <= s.len() - pos,
    decreases s.len() - pos,
{
    if pos < s.len() {
        let step = lex_step(s, pos);
        lemma_lex_step_advances(s, pos);
        lemma_lex_step_shape(s, pos);
        lemma_lex_output(s, step.next);
    }
}

/// The text that spells `token`: a word is its own spelling, a number is
/// written in decimal, a string literal stands between double quotes.
/// `EndOfFile` has no text.
pub open spec fn token_text(token: TokenView) -> Seq<char> {
    match token {
        TokenView::Keyword(name) => name,
        TokenView::Identifier(name) => name,
        TokenView::Number(value) => decimal_digits(value as nat),
        TokenView::StringLiteral(text) => seq!['"'] + text + seq!['"'],
        TokenView::Equals => seq!['='],
        TokenView::Semicolon => seq![';'],
        TokenView::EndOfFile => Seq::empty(),
    }
}

/// A source text for `tokens`: the text of each token in order, a space after
/// each.
pub open spec fn source_of(tokens: Seq<TokenView>) -> Seq<char>
    decreases tokens.len(),
{
    if tokens.len() == 0 {
        Seq::empty()
    } else {
        token_text(tokens.first()) + seq![' '] + source_of(tokens.drop_first())
    }
}

/// Where the text of `token` stands at `pos` with a space after it, the
/// lexer's step reads `token`, reports nothing and stops at the space.
pub proof fn lemma_lex_step_reads_token(s: Seq<char>, pos: int, token: TokenView)
    requires
        is_lexed_token(token),
        !(token is EndOfFile),
        0 <= pos,
        pos + token_text(token).len() < s.len(),
        s.subrange(pos, pos + token_text(token).len()) =~= token_text(token),
        s[pos + token_text(token).len()] == ' ',
    ensures
        lex_step(s, pos) == (LexStep {
            token: Some(token),
            diagnostic: None,
            next: pos + token_text(token).len(),
        }),
{
    let text = token_text(token);
    let end = pos + text.len();
    assert forall|i: int| 0 <= i < text.len() implies s[pos + i] == text[i] by {
        assert(s.subrange(pos, end)[i] == text[i]);
    }
    match token {
        TokenView::Keyword(name) => {
            assert(name =~= seq!['m'] || name =~= seq!['c'] || name =~= seq!['s', 'h', 'o', 'w']);
            assert(s[pos] == name[0]);
            assert forall|i: int| pos + 1 <= i < end implies CharClass::Word.holds(
                #[trigger] s[i],
            ) by {
                assert(s[i] == name[i - pos]);
            }
            lemma_run_end_unique(s, pos + 1, CharClass::Word, end);
        },
        TokenView::Identifier(name) => {
            assert(s[pos] == name[0]);
            assert forall|i: int| pos + 1 <= i < end implies CharClass::Word.holds(
                #[trigger] s[i],
            ) by {
                assert(s[i] == name[i - pos]);
            }
            lemma_run_end_unique(s, pos + 1, CharClass::Word, end);
        },
        TokenView::Number(value) => {
            lemma_decimal_digits_are_digits(value as nat);
            lemma_decimal_round_trip(value as nat);
            assert(s[pos] == text[0]);
            assert forall|i: int| pos + 1 <= i < end implies CharClass::Digit.holds(
                #[trigger] s[i],
            ) by {
                assert(s[i] == text[i - pos]);
            }
            lemma_run_end_unique(s, pos + 1, CharClass::Digit, end);
        },
        TokenView::StringLiteral(body) => {
            assert(s[pos] == text[0]);
            assert(s[end - 1] == text[text.len() - 1]);
            assert forall|i: int| pos + 1 <= i < end - 1 implies CharClass::StringBody.holds(
                #[trigger] s[i],
            ) by {
                assert(s[i] == text[i - pos]);
                assert(text[i - pos] == body[i - pos - 1]);
                assert(body.contains(body[i - pos - 1]));
            }
            lemma_run_end_unique(s, pos + 1, CharClass::StringBody, end - 1);
            assert forall|j: int| 0 <= j < body.len() implies s[pos + 1 + j] == body[j] by {
                assert(s[pos + 1 + j] == text[1 + j]);
            }
            assert(s.subrange(pos + 1, end - 1) =~= body);
        },
        TokenView::Equals => {
            assert(s[pos] == text[0]);
        },
        TokenView::Semicolon => {
            assert(s[pos] == text[0]);
        },
        TokenView::EndOfFile => {},
    }
}

/// From a position at which the source text of `tokens` stands, and nothing
/// after it, the lexer reads `tokens` and reports nothing.
pub proof fn lemma_lex_source_from(s: Seq<char>, pos: int, tokens: Seq<TokenView>)
    requires
        0 <= pos <= s.len(),
        s.subrange(pos, s.len() as int) =~= source_of(tokens),
        forall|i: int|
            0 <= i < tokens.len() ==> is_lexed_token(#[trigger] tokens[i]) && !(
            tokens[i] is EndOfFile),
    ensures
        lex_from(s, pos).tokens == tokens.push(TokenView::EndOfFile),
        lex_from(s, pos).diagnostics == Seq::<DiagnosticView>::empty(),
    decreases tokens.len(),
{
    let tail = s.subrange(pos, s.len() as int);
    assert(tail.len() == s.len() - pos);
    if tokens.len() == 0 {
        assert(lex_from(s, pos).tokens =~= tokens.push(TokenView::EndOfFile));
    } else {
        let token = tokens.first();
        let rest = tokens.drop_first();
        let text = token_text(token);
        let blank = pos + text.len();
        assert(is_lexed_token(token) && !(token is EndOfFile));
        assert(tail.len() == text.len() + 1 + source_of(rest).len());
        assert forall|i: int| 0 <= i < text.len() implies s[pos + i] == text[i] by {
            assert(tail[i] == text[i]);
        }
        assert(s.subrange(pos, blank) =~= text);
        assert(s[blank] == ' ') by {
            assert(tail[text.len() as int] == ' ');
        }
        lemma_lex_step_reads_token(s, pos, token);
        assert(lex_step(s, blank) == (LexStep { token: None, diagnostic: None, next: blank + 1 }));
        assert(s.subrange(blank + 1, s.len() as int) =~= source_of(rest)) by {
            let next_tail = s.subrange(blank + 1, s.len() as int);
            assert forall|i: int| 0 <= i < next_tail.len() implies next_tail[i] == source_of(
                rest,
            )[i] by {
                assert(next_tail[i] == tail[text.len() + 1 + i]);
            }
        }
        assert forall|i: int| 0 <= i < rest.len() implies is_lexed_token(#[trigger] rest[i]) && !(
        rest[i] is EndOfFile) by {
            assert(rest[i] == tokens[i + 1]);
        }
        lemma_lex_source_from(s, blank + 1, rest);
        assert(lex_from(s, blank).tokens =~= lex_from(s, blank + 1).tokens);
        assert(lex_from(s, blank).diagnostics =~= lex_from(s, blank + 1).diagnostics);
        assert(lex_from(s, pos).tokens =~= tokens.push(TokenView::EndOfFile));
        assert(lex_from(s, pos).diagnostics =~= Seq::<DiagnosticView>::empty());
    }
}

/// Law: the lexer reads back what is spelled out. For tokens as the lexer
/// makes them, none of them `EndOfFile`, lexing their source text gives these
/// tokens, closed by `EndOfFile`, and no diagnostic.
pub proof fn lemma_lex_source_of(tokens: Seq<TokenView>)
    requires
        forall|i: int|
            0 <= i < tokens.len() ==> is_lexed_token(#[trigger] tokens[i]) && !(
            tokens[i] is EndOfFile),
    ensures
        lex(source_of(tokens)) == (LexOutput {
            tokens: tokens.push(TokenView::EndOfFile),
            diagnostics: Seq::empty(),
        }),
{
    let s = source_of(tokens);
    assert(s.subrange(0, s.len() as int) =~= s);
    lemma_lex_source_from(s, 0, tokens);
}

/// What the executable lexer makes of one position.
pub(crate) struct Scanned {
    pub token: Option<Token>,
    pub diagnostic: Option<Diagnostic>,
    pub next: usize,
}

impl View for Scanned {
    type V = LexStep;

    closed spec fn view(&self) -> LexStep {
        LexStep {
            token: match self.token {
                Some(t) => Some(t@),
                None => None,
            },
            diagnostic: match self.diagnostic {
                Some(d) => Some(d@),
                None => None,
            },
            next: self.next as int,
        }
    }
}

/// The string of the characters `chars[from..to]`.
pub(crate) fn collect(chars: &[char], from: usize, to: usize) -> (text: String)
    requires
        from <= to <= chars@.len(),
    ensures
        text@ == chars@.subrange(from as int, to as int),
{
    let mut text = String::new();
    let mut i: usize = from;
    while i < to
        invariant
            from <= i <= to <= chars@.len(),
            text@ =~= chars@.subrange(from as int, i as int),
        decreases to - i,
    {
        text.push(chars[i]);
        i = i + 1;
    }
    text
}

/// Takes the lexer's step at position `pos` of `chars`.
pub(crate) fn scan_token(chars: &[char], pos: usize) -> (step: Scanned)
    requires
        pos < chars@.len(),
    ensures
        step@ == lex_step(chars@, pos as int),
        pos < step.next <= chars@.len(),
{
    proof {
        lemma_lex_step_advances(chars@, pos as int);
    }
    let c = chars[pos];
    if c == '=' {
        Scanned { token: Some(Token::Equals), diagnostic: None, next: pos + 1 }
    } else if c == ';' {
        Scanned { token: Some(Token::Semicolon), diagnostic: None, next: pos + 1 }
    } else if c == '"' {
        let close: usize = scan_run(chars, pos + 1, CharClass::StringBody);
        if close < chars.len() {
            let text = collect(chars, pos + 1, close);
            Scanned { token: Some(Token::StringLiteral(text)), diagnostic: None, next: close + 1 }
        } else {
            let d = Diagnostic::new(DiagnosticKind::Lex(LexError::UnterminatedString), pos);
            Scanned { token: None, diagnostic: Some(d), next: close }
        }
    } else if '0' <= c && c <= '9' {
        let end: usize = scan_run(chars, pos + 1, CharClass::Digit);
        proof {
            lemma_run_end(chars@, pos + 1, CharClass::Digit);
        }
        match parse_decimal(chars, pos, end) {
            Some(value) => Scanned { token: Some(Token::Number(value)), diagnostic: None, next: end },
            None => {
                let d = Diagnostic::new(DiagnosticKind::Lex(LexError::IntegerOverflow), pos);
                Scanned { token: None, diagnostic: Some(d), next: end }
            },
        }
    } else if ('a' <= c && c <= 'z') || ('A' <= c && c <= 'Z') {
        let end: usize = scan_run(chars, pos + 1, CharClass::Word);
        let name = collect(chars, pos, end);
        Scanned { token: Some(make_word(name)), diagnostic: None, next: end }
    } else if c == ' ' || c == '\n' || c == '\t' {
        Scanned { token: None, diagnostic: None, next: pos + 1 }
    } else {
        let d = Diagnostic::new(DiagnosticKind::Lex(LexError::UnexpectedCharacter), pos);
        Scanned { token: None, diagnostic: Some(d), next: pos + 1 }
    }
}

/// Lexes `input` in lenient mode: every failure is recorded and skipped over,
/// and the scan goes on to the end of the text.
///
/// The result holds exactly the tokens and the diagnostics of [`lex`]. The
/// tokens end with the only `EndOfFile` among them.
pub fn tokenize_lenient(input: &str) -> (result: (Vec<Token>, Vec<Diagnostic>))
    ensures
        token_views(result.0@) == lex(input@).tokens,
        diagnostic_views(result.1@) == lex(input@).diagnostics,
        ends_with_single_eof(token_views(result.0@)),
{
    let chars = to_chars(input);
    let mut tokens: Vec<Token> = Vec::new();
    let mut diagnostics: Vec<Diagnostic> = Vec::new();
    let mut pos: usize = 0;
    while pos < chars.len()
        invariant
            pos <= chars@.len(),
            chars@ == input@,
            lex(input@).tokens =~= token_views(tokens@) + lex_from(input@, pos as int).tokens,
            lex(input@).diagnostics =~= diagnostic_views(diagnostics@) + lex_from(
                input@,
                pos as int,
            ).diagnostics,
        decreases chars@.len() - pos,
    {
        let step = scan_token(chars.as_slice(), pos);
        if let Some(token) = step.token {
            tokens.push(token);
        }
        if let Some(diagnostic) = step.diagnostic {
            diagnostics.push(diagnostic);
        }
        pos = step.next;
    }
    tokens.push(Token::EndOfFile);
    proof {
        lemma_lex_output(input@, 0);
        assert(token_views(tokens@) =~= lex(input@).tokens);
    }
    (tokens, diagnostics)
}

/// Lexes `input` in strict mode: the first failure ends the scan and is the
/// error.
///
/// The result is `Ok` exactly when [`lex`] finds no failure in `input`, and
/// then holds the tokens of `lex`, which end with the only `EndOfFile` among
/// them. Otherwise it is the first diagnostic of `lex`.
pub fn tokenize(input: &str) -> (result: Result<Vec<Token>, Diagnostic>)
    ensures
        match result {
            Ok(tokens) => {
                &&& lex(input@).diagnostics.len() == 0
                &&& token_views(tokens@) == lex(input@).tokens
                &&& ends_with_single_eof(token_views(tokens@))
            },
            Err(diagnostic) => {
                &&& lex(input@).diagnostics.len() > 0
                &&& diagnostic@ == lex(input@).diagnostics[0]
            },
        },
{
    let chars = to_chars(input);
    let mut tokens: Vec<Token> = Vec::new();
    let mut pos: usize = 0;
    while pos < chars.len()
        invariant
            pos <= chars@.len(),
            chars@ == input@,
            lex(input@).tokens =~= token_views(tokens@) + lex_from(input@, pos as int).tokens,
            lex(input@).diagnostics =~= lex_from(input@, pos as int).diagnostics,
        decreases chars@.len() - pos,
    {
        let step = scan_token(chars.as_slice(), pos);
        if let Some(diagnostic) = step.diagnostic {
            return Err(diagnostic);
        }
        if let Some(token) = step.token {
            tokens.push(token);
        }
        pos = step.next;
    }
    tokens.push(Token::EndOfFile);
    proof {
        lemma_lex_output(input@, 0);
        assert(token_views(tokens@) =~= lex(input@).tokens);
    }
    Ok(tokens)
}

} // verus!
