//! The shared data model: expression and statement node types.
//!
//! Pure data definitions.  Every node owns its children exclusively, so the
//! tree is strict: no sharing, no cycles.

use vstd::prelude::*;

verus! {

/// Unary operators.  Only numeric negation exists in the grammar; it has no
/// evaluation semantics yet (see `interpreter`).
#[derive(Debug, Clone, Copy, PartialEq, Eq)]
pub enum UnaryOp {
    Minus,
}

/// A unary operator applied to an operand expression.
#[derive(Debug, PartialEq, Eq)]
pub struct UnaryExpr {
    pub op: UnaryOp,
    pub expr: Expression,
}

/// Binary operators: four arithmetic operators producing a float, and two
/// comparisons producing a boolean.  `CmpL` is strict greater-than and
/// `CmpR` is strict less-than.
#[derive(Debug, Clone, Copy, PartialEq, Eq)]
pub enum BinaryOp {
    Add,
    Sub,
    Mul,
    Div,
    CmpL,
    CmpR,
}

/// A binary operator applied to two operand expressions.
#[derive(Debug, PartialEq, Eq)]
pub struct BinaryExpr {
    pub op: BinaryOp,
    pub lhs: Expression,
    pub rhs: Expression,
}

/// An expression node.
///
/// A `Literal` keeps the numeric literal in its textual form; it is turned
/// into a floating-point value at evaluation time, not at parse time.
/// `Call` is syntactically complete but has no evaluation semantics.
#[derive(Debug, PartialEq, Eq)]
pub enum Expression {
    Literal(String),
    Variable(String),
    Unary(Box<UnaryExpr>),
    Binary(Box<BinaryExpr>),
    Call(String, Vec<Expression>),
}

/// A conditional: the body runs at most once, only if the condition
/// evaluates to the boolean value true.
#[derive(Debug, PartialEq, Eq)]
pub struct If {
    pub condition: Expression,
    pub body: Vec<Statement>,
}

/// A loop: the body is re-executed as long as the condition evaluates to
/// the boolean value true.
#[derive(Debug, PartialEq, Eq)]
pub struct While {
    pub condition: Expression,
    pub body: Vec<Statement>,
}

/// A binding: evaluates `value` and binds or rebinds `variable` to it.
#[derive(Debug, PartialEq, Eq)]
pub struct Let {
    pub variable: String,
    pub value: Expression,
}

/// A statement node.
#[derive(Debug, PartialEq, Eq)]
pub enum Statement {
    Let(Box<Let>),
    If(Box<If>),
    While(Box<While>),
    Print(Expression),
}

/// A whole program: a namespace identifier, a name identifier, and the
/// ordered top-level statements.  The namespace/name pair is parsed and
/// stored but never consulted by the interpreter.
#[derive(Debug, PartialEq, Eq)]
pub struct Program {
    pub namespace: String,
    pub name: String,
    pub body: Vec<Statement>,
}

} // verus!
