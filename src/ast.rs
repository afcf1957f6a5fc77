use vstd::prelude::*;

verus! {

#[derive(Debug, PartialEq)]
pub enum ExpressionNode {
    Integer(i32),
    String(String),
    Binary(BinaryOperator, Box<ExpressionNode>, Box<ExpressionNode>),
    Unary(UnaryOperator, Box<ExpressionNode>),
}

#[derive(Clone, Copy, Debug, PartialEq, Eq, Structural)]
pub enum BinaryOperator {
    Mul,
    Add,
}

#[derive(Clone, Copy, Debug, PartialEq, Eq, Structural)]
pub enum UnaryOperator {
    Plus,
    Negate,
    PreInc,
    PostInc,
    PreDec,
    PostDec,
}

/// The mathematical value of an expression tree.
pub enum Expr {
    Integer(i32),
    Str(Seq<char>),
    Binary(BinaryOperator, Box<Expr>, Box<Expr>),
    Unary(UnaryOperator, Box<Expr>),
}

impl View for ExpressionNode {
    type V = Expr;

    open spec fn view(&self) -> Expr {
        expr_of(self)
    }
}

/// The value of the tree rooted at `e`.
pub open spec fn expr_of(e: &ExpressionNode) -> Expr
    decreases e,
{
    match e {
        ExpressionNode::Integer(v) => Expr::Integer(*v),
        ExpressionNode::String(s) => Expr::Str(s@),
        ExpressionNode::Binary(op, l, r) => Expr::Binary(*op, Box::new(expr_of(l)), Box::new(expr_of(r))),
        ExpressionNode::Unary(op, x) => Expr::Unary(*op, Box::new(expr_of(x))),
    }
}

} // verus!
