use bp_compiler::ast::{ASTNode, Literal};
use bp_compiler::diagnostic::{Diagnostic, DiagnosticKind, ParseError};
use bp_compiler::lexer::tokenize;
use bp_compiler::parser::parse;
use bp_compiler::token::Token;

fn keyword(name: &str) -> Token {
    Token::Keyword(name.to_string())
}

fn identifier(name: &str) -> Token {
    Token::Identifier(name.to_string())
}

fn string(text: &str) -> Token {
    Token::StringLiteral(text.to_string())
}

fn number_declaration(name: &str, value: i32) -> ASTNode {
    ASTNode::VariableDeclaration { name: name.to_string(), value: Literal::NumberLiteral(value) }
}

fn string_declaration(name: &str, value: &str) -> ASTNode {
    ASTNode::VariableDeclaration {
        name: name.to_string(),
        value: Literal::StringLiteral(value.to_string()),
    }
}

fn parse_error(error: ParseError, position: usize, message: &str) -> Diagnostic {
    Diagnostic { kind: DiagnosticKind::Parse(error), position, message: message.to_string() }
}

#[test]
fn parse_string_declaration() {
    let tokens =
        vec![keyword("c"), identifier("name"), Token::Equals, string("BP"), Token::EndOfFile];
    assert_eq!(parse(&tokens), (vec![string_declaration("name", "BP")], vec![]));
}

#[test]
fn parse_number_declaration_with_either_keyword() {
    for spelling in ["m", "c"] {
        let tokens = vec![
            keyword(spelling),
            identifier("x"),
            Token::Equals,
            Token::Number(5),
            Token::Semicolon,
            Token::EndOfFile,
        ];
        assert_eq!(parse(&tokens), (vec![number_declaration("x", 5)], vec![]));
    }
}

#[test]
fn parse_show() {
    let tokens = vec![keyword("show"), string("hi"), Token::Semicolon, Token::EndOfFile];
    assert_eq!(parse(&tokens), (vec![ASTNode::Show("hi".to_string())], vec![]));
}

#[test]
fn parse_keeps_source_order() {
    let tokens = tokenize("show \"a\"; m x = 1; c y = \"b\" show \"c\"").unwrap();
    assert_eq!(
        parse(&tokens),
        (
            vec![
                ASTNode::Show("a".to_string()),
                number_declaration("x", 1),
                string_declaration("y", "b"),
                ASTNode::Show("c".to_string()),
            ],
            vec![]
        )
    );
}

#[test]
fn parse_empty_sequences() {
    assert_eq!(parse(&[]), (vec![], vec![]));
    assert_eq!(parse(&[Token::EndOfFile]), (vec![], vec![]));
}

#[test]
fn parse_stops_at_end_of_file() {
    let tokens = vec![Token::EndOfFile, keyword("show"), string("late"), Token::Equals];
    assert_eq!(parse(&tokens), (vec![], vec![]));
}

#[test]
fn semicolons_between_statements_mean_nothing() {
    let tokens = vec![
        Token::Semicolon,
        keyword("show"),
        string("a"),
        Token::Semicolon,
        Token::Semicolon,
        keyword("show"),
        string("b"),
        Token::EndOfFile,
    ];
    assert_eq!(
        parse(&tokens),
        (vec![ASTNode::Show("a".to_string()), ASTNode::Show("b".to_string())], vec![])
    );
}

#[test]
fn keyword_before_end_of_file_misses_its_identifier() {
    let tokens = vec![keyword("m"), Token::EndOfFile];
    assert_eq!(
        parse(&tokens),
        (
            vec![],
            vec![parse_error(
                ParseError::MissingIdentifier,
                1,
                "expected identifier after keyword"
            )]
        )
    );
}

#[test]
fn identifier_without_equals() {
    let tokens = vec![keyword("m"), identifier("x"), Token::EndOfFile];
    assert_eq!(
        parse(&tokens),
        (
            vec![],
            vec![
                parse_error(ParseError::MissingEquals, 1, "expected `=` after identifier"),
                parse_error(ParseError::UnexpectedToken, 1, "unexpected token"),
            ]
        )
    );
}

#[test]
fn equals_without_literal() {
    let tokens =
        vec![keyword("c"), identifier("x"), Token::Equals, Token::Semicolon, Token::EndOfFile];
    assert_eq!(
        parse(&tokens),
        (
            vec![],
            vec![
                parse_error(ParseError::MissingLiteral, 3, "expected literal after `=`"),
                parse_error(ParseError::UnexpectedToken, 1, "unexpected token"),
                parse_error(ParseError::UnexpectedToken, 2, "unexpected token"),
            ]
        )
    );
}

#[test]
fn show_without_string() {
    let tokens = vec![keyword("show"), Token::Number(5), Token::EndOfFile];
    assert_eq!(
        parse(&tokens),
        (
            vec![],
            vec![
                parse_error(
                    ParseError::MissingStringAfterShow,
                    1,
                    "expected string literal after show"
                ),
                parse_error(ParseError::UnexpectedToken, 1, "unexpected token"),
            ]
        )
    );
}

#[test]
fn keyword_outside_the_set_is_unknown() {
    let tokens = vec![keyword("let"), keyword("show"), string("x"), Token::EndOfFile];
    assert_eq!(
        parse(&tokens),
        (
            vec![ASTNode::Show("x".to_string())],
            vec![parse_error(ParseError::UnknownKeyword, 0, "unknown keyword")]
        )
    );
}

#[test]
fn stray_tokens_are_unexpected() {
    let tokens = vec![
        identifier("x"),
        Token::Equals,
        Token::Number(1),
        string("s"),
        keyword("show"),
        string("ok"),
        Token::EndOfFile,
    ];
    assert_eq!(
        parse(&tokens),
        (
            vec![ASTNode::Show("ok".to_string())],
            vec![
                parse_error(ParseError::UnexpectedToken, 0, "unexpected token"),
                parse_error(ParseError::UnexpectedToken, 1, "unexpected token"),
                parse_error(ParseError::UnexpectedToken, 2, "unexpected token"),
                parse_error(ParseError::UnexpectedToken, 3, "unexpected token"),
            ]
        )
    );
}

#[test]
fn recovery_moves_on_by_one_token() {
    // The failed declaration at 0 gives way to the well-formed one at 1.
    let tokens = vec![
        keyword("m"),
        keyword("c"),
        identifier("x"),
        Token::Equals,
        Token::Number(2),
        Token::EndOfFile,
    ];
    assert_eq!(
        parse(&tokens),
        (
            vec![number_declaration("x", 2)],
            vec![parse_error(
                ParseError::MissingIdentifier,
                1,
                "expected identifier after keyword"
            )]
        )
    );
}

#[test]
fn sequence_that_ends_too_early() {
    let end = "unexpected end of input";
    assert_eq!(
        parse(&[keyword("m")]),
        (vec![], vec![parse_error(ParseError::MissingIdentifier, 1, end)])
    );
    assert_eq!(
        parse(&[keyword("m"), identifier("x")]),
        (
            vec![],
            vec![
                parse_error(ParseError::MissingEquals, 1, end),
                parse_error(ParseError::UnexpectedToken, 1, "unexpected token"),
            ]
        )
    );
    assert_eq!(
        parse(&[keyword("m"), identifier("x"), Token::Equals]),
        (
            vec![],
            vec![
                parse_error(ParseError::MissingLiteral, 3, end),
                parse_error(ParseError::UnexpectedToken, 1, "unexpected token"),
                parse_error(ParseError::UnexpectedToken, 2, "unexpected token"),
            ]
        )
    );
    assert_eq!(
        parse(&[keyword("show")]),
        (vec![], vec![parse_error(ParseError::MissingStringAfterShow, 1, end)])
    );
}

#[test]
fn sequence_without_end_of_file_is_parsed_to_its_end() {
    let tokens = vec![keyword("m"), identifier("x"), Token::Equals, Token::Number(-3)];
    assert_eq!(parse(&tokens), (vec![number_declaration("x", -3)], vec![]));
}

fn spell(program: &[ASTNode], semicolons: bool) -> Vec<Token> {
    let mut tokens = Vec::new();
    for node in program {
        match node {
            ASTNode::VariableDeclaration { name, value } => {
                tokens.push(keyword("m"));
                tokens.push(identifier(name));
                tokens.push(Token::Equals);
                tokens.push(match value {
                    Literal::NumberLiteral(n) => Token::Number(*n),
                    Literal::StringLiteral(text) => string(text),
                });
            }
            ASTNode::Show(text) => {
                tokens.push(keyword("show"));
                tokens.push(string(text));
            }
        }
        if semicolons {
            tokens.push(Token::Semicolon);
        }
    }
    tokens.push(Token::EndOfFile);
    tokens
}

#[test]
fn spelled_program_is_parsed_back() {
    let program = vec![
        number_declaration("a", 0),
        ASTNode::Show("one".to_string()),
        string_declaration("b", ""),
        ASTNode::Show(String::new()),
        number_declaration("c", 2147483647),
    ];
    for semicolons in [false, true] {
        assert_eq!(parse(&spell(&program, semicolons)), (program.clone(), vec![]));
    }
    assert_eq!(parse(&spell(&[], true)), (vec![], vec![]));
}

#[test]
fn parser_yields_at_most_one_item_for_each_token() {
    let sequences = vec![
        vec![],
        vec![keyword("m"), keyword("m"), keyword("m")],
        vec![Token::Equals, Token::Equals, Token::EndOfFile],
        vec![keyword("show"), string("a"), keyword("show"), Token::EndOfFile],
        vec![keyword("c"), identifier("x"), Token::Equals, Token::EndOfFile],
    ];
    for tokens in sequences {
        let (program, diagnostics) = parse(&tokens);
        assert!(program.len() + diagnostics.len() <= tokens.len());
        for diagnostic in &diagnostics {
            assert!(matches!(diagnostic.kind, DiagnosticKind::Parse(_)));
            assert!(diagnostic.position <= tokens.len());
        }
    }
}

#[test]
fn lexed_tokens_never_run_the_parser_off_the_end() {
    for source in ["m", "m x", "m x =", "show", "c c c", "m x = show", "= = ;", "show \"a\" m"] {
        let tokens = tokenize(source).unwrap();
        let (_, diagnostics) = parse(&tokens);
        assert!(!diagnostics.is_empty());
        for diagnostic in &diagnostics {
            assert!(diagnostic.position < tokens.len());
            assert_ne!(diagnostic.message, "unexpected end of input");
            assert_ne!(diagnostic.kind, DiagnosticKind::Parse(ParseError::UnknownKeyword));
        }
    }
}
