use bp_compiler::ast::{ASTNode, Literal};
use bp_compiler::codegen::{emit_statement, generate};
use bp_compiler::lexer::tokenize;
use bp_compiler::text::{push_decimal, to_chars, word_char, CharClass};
use bp_compiler::token::Token;

fn number_declaration(name: &str, value: i32) -> ASTNode {
    ASTNode::VariableDeclaration { name: name.to_string(), value: Literal::NumberLiteral(value) }
}

fn string_declaration(name: &str, value: &str) -> ASTNode {
    ASTNode::VariableDeclaration {
        name: name.to_string(),
        value: Literal::StringLiteral(value.to_string()),
    }
}

fn line_of(node: &ASTNode) -> String {
    let mut out = String::new();
    emit_statement(&mut out, node);
    out
}

fn decimal(n: i32) -> String {
    let mut out = String::from("n=");
    push_decimal(&mut out, n);
    out
}

#[test]
fn generate_string_declaration() {
    let program = vec![string_declaration("name", "BP")];
    assert_eq!(
        generate(&program),
        "#include <stdio.h>\n\nint main() {\n    char name[] = \"BP\";\n    return 0;\n}"
    );
    assert_eq!(line_of(&program[0]), "    char name[] = \"BP\";\n");
}

#[test]
fn generate_empty_program() {
    assert_eq!(generate(&vec![]), "#include <stdio.h>\n\nint main() {\n    return 0;\n}");
}

#[test]
fn generate_number_declaration() {
    assert_eq!(line_of(&number_declaration("x", 5)), "    int x = 5;\n");
    assert_eq!(line_of(&number_declaration("zero", 0)), "    int zero = 0;\n");
    assert_eq!(line_of(&number_declaration("low", -42)), "    int low = -42;\n");
    assert_eq!(line_of(&number_declaration("max", i32::MAX)), "    int max = 2147483647;\n");
    assert_eq!(line_of(&number_declaration("min", i32::MIN)), "    int min = -2147483648;\n");
}

#[test]
fn generate_show() {
    assert_eq!(line_of(&ASTNode::Show("hi".to_string())), "    printf(\"hi\\n\");\n");
    assert_eq!(line_of(&ASTNode::Show(String::new())), "    printf(\"\\n\");\n");
}

#[test]
fn generate_keeps_program_order() {
    let program = vec![
        ASTNode::Show("first".to_string()),
        number_declaration("x", 10),
        string_declaration("s", "text"),
        ASTNode::Show("last".to_string()),
    ];
    assert_eq!(
        generate(&program),
        "#include <stdio.h>\n\nint main() {\n    printf(\"first\\n\");\n    int x = 10;\n    char s[] = \"text\";\n    printf(\"last\\n\");\n    return 0;\n}"
    );
}

#[test]
fn generate_escapes_nothing() {
    assert_eq!(line_of(&ASTNode::Show("a\"b\\c\nd".to_string())), "    printf(\"a\"b\\c\nd\\n\");\n");
    assert_eq!(line_of(&string_declaration("s", "100%\t\"")), "    char s[] = \"100%\t\"\";\n");
}

#[test]
fn emit_statement_appends() {
    let mut out = String::from("// head\n");
    emit_statement(&mut out, &number_declaration("x", 1));
    emit_statement(&mut out, &ASTNode::Show("y".to_string()));
    assert_eq!(out, "// head\n    int x = 1;\n    printf(\"y\\n\");\n");
}

#[test]
fn push_decimal_spells_every_magnitude() {
    assert_eq!(decimal(0), "n=0");
    assert_eq!(decimal(9), "n=9");
    assert_eq!(decimal(10), "n=10");
    assert_eq!(decimal(1203), "n=1203");
    assert_eq!(decimal(-1), "n=-1");
    assert_eq!(decimal(-100), "n=-100");
    assert_eq!(decimal(i32::MAX), "n=2147483647");
    assert_eq!(decimal(i32::MIN), "n=-2147483648");
}

#[test]
fn lexer_reads_back_what_push_decimal_writes() {
    for n in [0, 1, 9, 10, 99, 100, 65535, 1000000, i32::MAX] {
        let mut text = String::new();
        push_decimal(&mut text, n);
        assert_eq!(tokenize(&text), Ok(vec![Token::Number(n), Token::EndOfFile]));
    }
}

#[test]
fn to_chars_keeps_every_character() {
    assert_eq!(to_chars(""), Vec::<char>::new());
    assert_eq!(to_chars("a\u{e9}\u{4eac}!"), vec!['a', '\u{e9}', '\u{4eac}', '!']);
}

#[test]
fn char_classes() {
    assert!(CharClass::Digit.contains('0'));
    assert!(CharClass::Digit.contains('9'));
    assert!(!CharClass::Digit.contains('a'));
    assert!(!CharClass::Digit.contains('\u{663}'));
    assert!(CharClass::Word.contains('a'));
    assert!(CharClass::Word.contains('\u{e9}'));
    assert!(!CharClass::Word.contains('1'));
    assert!(!CharClass::Word.contains('_'));
    assert!(CharClass::StringBody.contains('\n'));
    assert!(!CharClass::StringBody.contains('"'));
    for c in ['a', 'Z', '\u{e9}', '\u{4eac}'] {
        assert!(word_char(c));
    }
    for c in ['0', ' ', '_', '@', '[', '`', '{', '\u{7f}', '\u{2192}', '\u{1f49d}'] {
        assert!(!word_char(c));
    }
}
