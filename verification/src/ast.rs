//! The abstract syntax of BP: a program is a sequence of statements, each a
//! variable declaration or a `show`.

use vstd::prelude::*;

verus! {

/// The value that a declaration gives its variable.
#[derive(Debug, PartialEq, Eq, Clone)]
pub enum Literal {
    NumberLiteral(i32),
    StringLiteral(String),
}

/// A statement of a BP program.
#[derive(Debug, PartialEq, Eq, Clone)]
pub enum ASTNode {
    /// `m name = value` or `c name = value`.
    VariableDeclaration { name: String, value: Literal },
    /// `show "text"`.
    Show(String),
}

/// A program: its statements in source order.
pub type Program = Vec<ASTNode>;

/// The mathematical value of a [`Literal`].
pub enum LiteralView {
    NumberLiteral(i32),
    StringLiteral(Seq<char>),
}

/// The mathematical value of an [`ASTNode`].
pub enum ASTNodeView {
    VariableDeclaration { name: Seq<char>, value: LiteralView },
    Show(Seq<char>),
}

impl View for Literal {
    type V = LiteralView;

    open spec fn view(&self) -> LiteralView {
        match self {
            Literal::NumberLiteral(n) => LiteralView::NumberLiteral(*n),
            Literal::StringLiteral(text) => LiteralView::StringLiteral(text@),
        }
    }
}

impl View for ASTNode {
    type V = ASTNodeView;

    open spec fn view(&self) -> ASTNodeView {
        match self {
            ASTNode::VariableDeclaration { name, value } => ASTNodeView::VariableDeclaration {
                name: name@,
                value: value@,
            },
            ASTNode::Show(text) => ASTNodeView::Show(text@),
        }
    }
}

/// The values of the statements of a program, in order.
pub open spec fn program_view(nodes: Seq<ASTNode>) -> Seq<ASTNodeView> {
    nodes.map_values(|n: ASTNode| n@)
}

} // verus!
