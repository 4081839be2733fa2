//! Code generation: from a program to C source text.
//!
//! The text is a fixed entry point around one line per statement, in program
//! order. The text of a string literal and the name of a variable go into the
//! output as they are: nothing is escaped, so what comes out is sound C only
//! if the program's strings hold no quote, backslash or line break.

use vstd::prelude::*;
use vstd::string::*;
use crate::ast::{program_view, ASTNode, ASTNodeView, Literal, LiteralView, Program};
use crate::text::{decimal_text, push_decimal};

verus! {

/// What stands before the statements: the include line and the opening of
/// `main`.
pub open spec fn preamble() -> Seq<char> {
    "#include <stdio.h>\n\nint main() {\n"@
}

/// What stands after the statements: the return of the success status and
/// the closing of `main`.
pub open spec fn postamble() -> Seq<char> {
    "    return 0;\n}"@
}

/// The line that a statement becomes.
///
/// - A declaration with a number declares an `int` of that name and value.
/// - A declaration with a string declares a `char` array of that name,
///   initialised with the text between double quotes.
/// - A `show` calls `printf` on the text followed by `\n`, between double
///   quotes.
pub open spec fn statement_line(node: ASTNodeView) -> Seq<char> {
    match node {
        ASTNodeView::VariableDeclaration { name, value: LiteralView::NumberLiteral(n) } => "    int "@
            + name + " = "@ + decimal_text(n as int) + ";\n"@,
        ASTNodeView::VariableDeclaration { name, value: LiteralView::StringLiteral(text) } =>
            "    char "@ + name + "[] = \""@ + text + "\";\n"@,
        ASTNodeView::Show(text) => "    printf(\""@ + text + "\\n\");\n"@,
    }
}

/// The lines of the statements of `program`, in order.
pub open spec fn body_text(program: Seq<ASTNodeView>) -> Seq<char>
    decreases program.len(),
{
    if program.len() == 0 {
        Seq::empty()
    } else {
        body_text(program.drop_last()) + statement_line(program.last())
    }
}

/// The C source text for `program`.
pub open spec fn generated_text(program: Seq<ASTNodeView>) -> Seq<char> {
    preamble() + body_text(program) + postamble()
}

/// Law: the body of a program made of two parts is the body of the first
/// followed by the body of the second, so statements come out in program
/// order and each line depends on its own statement alone.
pub proof fn lemma_body_text_concat(first: Seq<ASTNodeView>, second: Seq<ASTNodeView>)
    ensures
        body_text(first + second) == body_text(first) + body_text(second),
    decreases second.len(),
{
    if second.len() == 0 {
        assert(first + second =~= first);
        assert(body_text(first) + body_text(second) =~= body_text(first));
    } else {
        lemma_body_text_concat(first, second.drop_last());
        assert((first + second).drop_last() =~= first + second.drop_last());
        assert((first + second).last() == second.last());
        assert(body_text(first + second) =~= body_text(first) + body_text(second));
    }
}

/// Appends the line for `node` to `out`.
pub fn emit_statement(out: &mut String, node: &ASTNode)
    ensures
        final(out)@ == old(out)@ + statement_line(node@),
{
    match node {
        ASTNode::VariableDeclaration { name, value: Literal::NumberLiteral(n) } => {
            out.append("    int ");
            out.append(name.as_str());
            out.append(" = ");
            push_decimal(out, *n);
            out.append(";\n");
        },
        ASTNode::VariableDeclaration { name, value: Literal::StringLiteral(text) } => {
            out.append("    char ");
            out.append(name.as_str());
            out.append("[] = \"");
            out.append(text.as_str());
            out.append("\";\n");
        },
        ASTNode::Show(text) => {
            out.append("    printf(\"");
            out.append(text.as_str());
            out.append("\\n\");\n");
        },
    }
    assert(out@ =~= old(out)@ + statement_line(node@));
}

/// Generates the C source text for `program`.
///
/// The result is [`generated_text`] of the program: the preamble, the line of
/// each statement in order, and the postamble. Every program has a text;
/// generation does not fail.
pub fn generate(program: &Program) -> (code: String)
    ensures
        code@ == generated_text(program_view(program@)),
{
    let ghost nodes = program_view(program@);
    let mut code = String::from_str("#include <stdio.h>\n\nint main() {\n");
    let mut i: usize = 0;
    proof {
        assert(nodes.take(0) =~= Seq::<ASTNodeView>::empty());
    }
    while i < program.len()
        invariant
            i <= program@.len(),
            nodes == program_view(program@),
            code@ =~= preamble() + body_text(nodes.take(i as int)),
        decreases program@.len() - i,
    {
        proof {
            assert(nodes.take(i + 1).drop_last() =~= nodes.take(i as int));
            assert(nodes.take(i + 1).last() == program@[i as int]@);
        }
        emit_statement(&mut code, &program[i]);
        i = i + 1;
    }
    proof {
        assert(nodes.take(i as int) =~= nodes);
    }
    code.append("    return 0;\n}");
    code
}

} // verus!
