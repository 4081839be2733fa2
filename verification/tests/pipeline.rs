use bp_compiler::diagnostic::{Diagnostic, DiagnosticKind, LexError, ParseError};
use bp_compiler::pipeline::{compile, compile_lenient, compile_strict, GeneratedCode, Mode};
use bp_compiler::{generate, ASTNode, Literal};

const EMPTY_MAIN: &str = "#include <stdio.h>\n\nint main() {\n    return 0;\n}";

fn missing_identifier(position: usize) -> Diagnostic {
    Diagnostic {
        kind: DiagnosticKind::Parse(ParseError::MissingIdentifier),
        position,
        message: "expected identifier after keyword".to_string(),
    }
}

fn unexpected_character(position: usize) -> Diagnostic {
    Diagnostic {
        kind: DiagnosticKind::Lex(LexError::UnexpectedCharacter),
        position,
        message: "unexpected character".to_string(),
    }
}

#[test]
fn compile_valid_program_in_both_modes() {
    let source = "m x = 5;\nc name = \"BP\";\nshow \"hi\";\n";
    let text = "#include <stdio.h>\n\nint main() {\n    int x = 5;\n    char name[] = \"BP\";\n    printf(\"hi\\n\");\n    return 0;\n}";
    let code = GeneratedCode { text: text.to_string(), diagnostics: vec![] };
    assert_eq!(compile(source, Mode::Strict), Ok(code.clone()));
    assert_eq!(compile(source, Mode::Lenient), Ok(code));
    assert_eq!(compile_strict(source), Ok(text.to_string()));
    assert_eq!(compile_lenient(source), (text.to_string(), vec![]));
}

#[test]
fn compile_is_repeatable() {
    for source in ["", "m x = 5;", "show \"a\" show \"b\"", "m = 3 # show", "c s = \"open"] {
        for mode in [Mode::Strict, Mode::Lenient] {
            let first = compile(source, mode);
            let second = compile(source, mode);
            assert_eq!(first, second);
            if let (Ok(a), Ok(b)) = (first, second) {
                assert_eq!(a.text.as_bytes(), b.text.as_bytes());
            }
        }
    }
}

#[test]
fn lenient_run_goes_on_after_missing_identifier() {
    assert_eq!(
        compile("m", Mode::Lenient),
        Ok(GeneratedCode { text: EMPTY_MAIN.to_string(), diagnostics: vec![missing_identifier(1)] })
    );
    assert_eq!(
        compile("m show \"still here\"", Mode::Lenient),
        Ok(GeneratedCode {
            text: "#include <stdio.h>\n\nint main() {\n    printf(\"still here\\n\");\n    return 0;\n}"
                .to_string(),
            diagnostics: vec![missing_identifier(1)],
        })
    );
}

#[test]
fn strict_run_fails_on_missing_identifier() {
    assert_eq!(compile("m", Mode::Strict), Err(vec![missing_identifier(1)]));
    assert_eq!(compile_strict("m"), Err(missing_identifier(1)));
}

#[test]
fn strict_run_reports_the_first_diagnostic_alone() {
    // The lexer's failure at character 9 comes before the parser's at token 1.
    assert_eq!(compile("m = 1; c #", Mode::Strict), Err(vec![unexpected_character(9)]));
    assert_eq!(compile("m m m", Mode::Strict), Err(vec![missing_identifier(1)]));
}

#[test]
fn lenient_run_collects_lexical_then_syntactic_diagnostics() {
    let (text, diagnostics) = compile_lenient("m # show \"x\" @");
    assert_eq!(
        text,
        "#include <stdio.h>\n\nint main() {\n    printf(\"x\\n\");\n    return 0;\n}"
    );
    assert_eq!(
        diagnostics,
        vec![unexpected_character(2), unexpected_character(13), missing_identifier(1)]
    );
}

#[test]
fn empty_source_compiles_to_the_empty_main() {
    assert_eq!(compile_strict(""), Ok(EMPTY_MAIN.to_string()));
    assert_eq!(compile_lenient(""), (EMPTY_MAIN.to_string(), vec![]));
}

#[test]
fn lenient_run_drops_what_the_lexer_could_not_read() {
    let (text, diagnostics) = compile_lenient("m x = 99999999999; show \"ok\"");
    assert_eq!(
        text,
        "#include <stdio.h>\n\nint main() {\n    printf(\"ok\\n\");\n    return 0;\n}"
    );
    assert_eq!(diagnostics.len(), 4);
    assert_eq!(diagnostics[0].kind, DiagnosticKind::Lex(LexError::IntegerOverflow));
    assert_eq!(diagnostics[0].position, 6);
    assert_eq!(diagnostics[1].kind, DiagnosticKind::Parse(ParseError::MissingLiteral));
    assert_eq!(diagnostics[1].position, 3);
    assert_eq!(diagnostics[2].kind, DiagnosticKind::Parse(ParseError::UnexpectedToken));
    assert_eq!(diagnostics[3].kind, DiagnosticKind::Parse(ParseError::UnexpectedToken));
}

#[test]
fn source_of_a_program_compiles_to_its_text() {
    let program = vec![
        ASTNode::VariableDeclaration {
            name: "count".to_string(),
            value: Literal::NumberLiteral(12),
        },
        ASTNode::VariableDeclaration {
            name: "title".to_string(),
            value: Literal::StringLiteral("B P".to_string()),
        },
        ASTNode::Show("done".to_string()),
    ];
    let text = generate(&program);
    for source in [
        "m count = 12 m title = \"B P\" show \"done\" ",
        "m count = 12 ; m title = \"B P\" ; show \"done\" ; ",
    ] {
        for mode in [Mode::Strict, Mode::Lenient] {
            assert_eq!(
                compile(source, mode),
                Ok(GeneratedCode { text: text.clone(), diagnostics: vec![] })
            );
        }
    }
}

#[test]
fn strict_run_agrees_with_lenient_run() {
    for source in ["", "m x = 5;", "m", "show 5", "# m x = 1", "m x = 1 #", "c s = \"open", "x"] {
        let (text, diagnostics) = compile_lenient(source);
        match compile_strict(source) {
            Ok(strict) => {
                assert!(diagnostics.is_empty());
                assert_eq!(strict, text);
            }
            Err(first) => assert_eq!(Some(&first), diagnostics.first()),
        }
    }
}

#[test]
fn entry_points_are_reachable_from_the_root() {
    let tokens = bp_compiler::tokenize("show \"hi\";").unwrap();
    let (program, diagnostics) = bp_compiler::parse(&tokens);
    assert!(diagnostics.is_empty());
    assert_eq!(
        bp_compiler::generate(&program),
        "#include <stdio.h>\n\nint main() {\n    printf(\"hi\\n\");\n    return 0;\n}"
    );
}
