//! The token vocabulary of BP and its closed set of keywords.

use vstd::prelude::*;
use vstd::string::*;

verus! {

/// A lexical unit of BP source text.
#[derive(Debug, PartialEq, Eq, Clone)]
pub enum Token {
    /// One of the words `m`, `c` and `show`.
    Keyword(String),
    /// Any other word.
    Identifier(String),
    /// A decimal numeral that fits in 32 bits.
    Number(i32),
    /// The text between two double quotes, taken verbatim.
    StringLiteral(String),
    /// The sign `=`.
    Equals,
    /// The sign `;`.
    Semicolon,
    /// The end of the source text.
    EndOfFile,
}

/// The mathematical value of a [`Token`]: its text as a sequence of characters.
pub enum TokenView {
    Keyword(Seq<char>),
    Identifier(Seq<char>),
    Number(i32),
    StringLiteral(Seq<char>),
    Equals,
    Semicolon,
    EndOfFile,
}

impl View for Token {
    type V = TokenView;

    open spec fn view(&self) -> TokenView {
        match self {
            Token::Keyword(name) => TokenView::Keyword(name@),
            Token::Identifier(name) => TokenView::Identifier(name@),
            Token::Number(value) => TokenView::Number(*value),
            Token::StringLiteral(text) => TokenView::StringLiteral(text@),
            Token::Equals => TokenView::Equals,
            Token::Semicolon => TokenView::Semicolon,
            Token::EndOfFile => TokenView::EndOfFile,
        }
    }
}

/// The values of a sequence of tokens, in order.
pub open spec fn token_views(tokens: Seq<Token>) -> Seq<TokenView> {
    tokens.map_values(|t: Token| t@)
}

/// What a keyword introduces. The two spellings `m` and `c` of a declaration
/// mean the same.
#[derive(Clone, Copy, Debug, PartialEq, Eq)]
pub enum KeywordKind {
    /// `m` or `c`: a variable declaration.
    Declaration,
    /// `show`: a print statement.
    Show,
}

/// The kind of the keyword spelled `name`, or `None` if `name` is no keyword.
pub open spec fn keyword_kind(name: Seq<char>) -> Option<KeywordKind> {
    if name =~= seq!['m'] || name =~= seq!['c'] {
        Some(KeywordKind::Declaration)
    } else if name =~= seq!['s', 'h', 'o', 'w'] {
        Some(KeywordKind::Show)
    } else {
        None
    }
}

/// Whether `name` is one of the three keywords.
pub open spec fn is_keyword(name: Seq<char>) -> bool {
    keyword_kind(name) is Some
}

/// The token that the word `name` lexes to.
pub open spec fn word_token(name: Seq<char>) -> TokenView {
    if is_keyword(name) {
        TokenView::Keyword(name)
    } else {
        TokenView::Identifier(name)
    }
}

/// Looks `name` up in the keyword set.
pub fn classify_keyword(name: &str) -> (kind: Option<KeywordKind>)
    ensures
        kind == keyword_kind(name@),
{
    let len: usize = name.unicode_len();
    if len == 1 {
        let c = name.get_char(0);
        if c == 'm' || c == 'c' {
            Some(KeywordKind::Declaration)
        } else {
            None
        }
    } else if len == 4 {
        if name.get_char(0) == 's' && name.get_char(1) == 'h' && name.get_char(2) == 'o'
            && name.get_char(3) == 'w' {
            Some(KeywordKind::Show)
        } else {
            None
        }
    } else {
        None
    }
}

/// Makes the token for the word `name`: a keyword if it is in the keyword
/// set, an identifier otherwise.
pub fn make_word(name: String) -> (token: Token)
    ensures
        token@ == word_token(name@),
{
    match classify_keyword(name.as_str()) {
        Some(_) => Token::Keyword(name),
        None => Token::Identifier(name),
    }
}

} // verus!
