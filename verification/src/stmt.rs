//! The syntax tree: expressions and statements.

use crate::token::{Literal, LiteralView, Token, TokenView};
use vstd::prelude::*;

verus! {

/// An expression of the language. Each node owns its operands.
#[derive(Debug, PartialEq)]
pub enum Expr {
    /// A constant fixed when the program was parsed.
    Literal { val: Literal },
    /// A parenthesised expression.
    Grouping { expr: Box<Expr> },
    /// A read of the binding that the token names.
    Variable { name: Token },
    /// A prefix operator applied to one operand.
    Unary { operator: Token, right: Box<Expr> },
    /// An arithmetic, relational or equality operator between two operands.
    Binary { left: Box<Expr>, operator: Token, right: Box<Expr> },
    /// `and` or `or`, which evaluate their right operand only when needed.
    Logical { left: Box<Expr>, operator: Token, right: Box<Expr> },
    /// An assignment to an existing binding; its value is the assigned value.
    Assign { name: Token, value: Box<Expr> },
}

/// The mathematical content of an [`Expr`].
pub enum ExprView {
    Literal { val: LiteralView },
    Grouping { expr: Box<ExprView> },
    Variable { name: TokenView },
    Unary { operator: TokenView, right: Box<ExprView> },
    Binary { left: Box<ExprView>, operator: TokenView, right: Box<ExprView> },
    Logical { left: Box<ExprView>, operator: TokenView, right: Box<ExprView> },
    Assign { name: TokenView, value: Box<ExprView> },
}

impl Expr {
    /// The contents of the expression, node by node.
    pub open spec fn model(&self) -> ExprView
        decreases self,
    {
        match self {
            Expr::Literal { val } => ExprView::Literal { val: val@ },
            Expr::Grouping { expr } => ExprView::Grouping { expr: Box::new(expr.model()) },
            Expr::Variable { name } => ExprView::Variable { name: name@ },
            Expr::Unary { operator, right } => ExprView::Unary {
                operator: operator@,
                right: Box::new(right.model()),
            },
            Expr::Binary { left, operator, right } => ExprView::Binary {
                left: Box::new(left.model()),
                operator: operator@,
                right: Box::new(right.model()),
            },
            Expr::Logical { left, operator, right } => ExprView::Logical {
                left: Box::new(left.model()),
                operator: operator@,
                right: Box::new(right.model()),
            },
            Expr::Assign { name, value } => ExprView::Assign {
                name: name@,
                value: Box::new(value.model()),
            },
        }
    }
}

impl ExprView {
    /// Whether every token that names a variable in the expression lies inside its source.
    pub open spec fn is_placed(self) -> bool
        decreases self,
    {
        match self {
            ExprView::Literal { .. } => true,
            ExprView::Grouping { expr } => expr.is_placed(),
            ExprView::Variable { name } => name.is_placed(),
            ExprView::Unary { right, .. } => right.is_placed(),
            ExprView::Binary { left, right, .. } => left.is_placed() && right.is_placed(),
            ExprView::Logical { left, right, .. } => left.is_placed() && right.is_placed(),
            ExprView::Assign { name, value } => name.is_placed() && value.is_placed(),
        }
    }
}

impl View for Expr {
    type V = ExprView;

    open spec fn view(&self) -> ExprView {
        self.model()
    }
}

/// A statement of the language.
#[derive(Debug, PartialEq)]
pub enum Stmt {
    /// Evaluate the expression and drop its value.
    Expression { expr: Expr },
    /// Evaluate the expression and write its value out.
    Print { expr: Expr },
    /// Declare a binding in the innermost scope.
    Var { name: Token, initializer: Option<Expr> },
    /// Run the statements in a scope of their own.
    Block { statements: Vec<Stmt> },
    If { condition: Expr, then_branch: Box<Stmt>, else_branch: Option<Box<Stmt>> },
    While { condition: Expr, body: Box<Stmt> },
}

/// The mathematical content of a [`Stmt`].
pub enum StmtView {
    Expression { expr: ExprView },
    Print { expr: ExprView },
    Var { name: TokenView, initializer: Option<ExprView> },
    Block { statements: Seq<StmtView> },
    If { condition: ExprView, then_branch: Box<StmtView>, else_branch: Option<Box<StmtView>> },
    While { condition: ExprView, body: Box<StmtView> },
}

impl Stmt {
    /// The contents of the statement, node by node.
    pub open spec fn model(&self) -> StmtView
        decreases self,
    {
        match self {
            Stmt::Expression { expr } => StmtView::Expression { expr: expr@ },
            Stmt::Print { expr } => StmtView::Print { expr: expr@ },
            Stmt::Var { name, initializer } => StmtView::Var {
                name: name@,
                initializer: match initializer {
                    Some(expr) => Some(expr@),
                    None => None,
                },
            },
            Stmt::Block { statements } => StmtView::Block {
                statements: Seq::new(
                    statements@.len(),
                    |i: int|
                        if 0 <= i < statements@.len() {
                            statements@[i].model()
                        } else {
                            arbitrary()
                        },
                ),
            },
            Stmt::If { condition, then_branch, else_branch } => StmtView::If {
                condition: condition@,
                then_branch: Box::new(then_branch.model()),
                else_branch: match else_branch {
                    Some(branch) => Some(Box::new(branch.model())),
                    None => None,
                },
            },
            Stmt::While { condition, body } => StmtView::While {
                condition: condition@,
                body: Box::new(body.model()),
            },
        }
    }
}

impl StmtView {
    /// Whether every token that names a variable in the statement lies inside its source.
    pub open spec fn is_placed(self) -> bool
        decreases self,
    {
        match self {
            StmtView::Expression { expr } => expr.is_placed(),
            StmtView::Print { expr } => expr.is_placed(),
            StmtView::Var { name, initializer } => name.is_placed() && match initializer {
                Some(expr) => expr.is_placed(),
                None => true,
            },
            StmtView::Block { statements } => forall|i: int|
                0 <= i < statements.len() ==> (#[trigger] statements[i]).is_placed(),
            StmtView::If { condition, then_branch, else_branch } => condition.is_placed()
                && then_branch.is_placed() && match else_branch {
                Some(branch) => branch.is_placed(),
                None => true,
            },
            StmtView::While { condition, body } => condition.is_placed() && body.is_placed(),
        }
    }
}

/// Whether every token that names a variable in a list of statements lies inside its source.
pub open spec fn all_placed(statements: Seq<StmtView>) -> bool {
    forall|i: int| 0 <= i < statements.len() ==> (#[trigger] statements[i]).is_placed()
}

impl View for Stmt {
    type V = StmtView;

    open spec fn view(&self) -> StmtView {
        self.model()
    }
}

/// The contents of a list of statements.
pub open spec fn statements_view(statements: Seq<Stmt>) -> Seq<StmtView> {
    Seq::new(statements.len(), |i: int| statements[i]@)
}

} // verus!
