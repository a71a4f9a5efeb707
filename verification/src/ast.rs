//! The syntax tree: expressions and statements, each node owning its
//! children and referring to the tokens it was built from.

use vstd::prelude::*;
use crate::grammar::{is_prefix_operator, operator_rank};
use crate::token::{borrowed_views, Token, TokenKind, TokenView};

verus! {

/// An expression.
#[derive(Debug, PartialEq, Eq)]
pub enum Expr<'a> {
    /// `left operator right`, such as `1 + 2`.
    Binary { left: Box<Expr<'a>>, operator: &'a Token<'a>, right: Box<Expr<'a>> },
    /// `operator right`, such as `-1`.
    Unary { operator: &'a Token<'a>, right: Box<Expr<'a>> },
    /// A constant, `true` or `false`: the payload of its token.
    Literal(&'a str),
    /// A name.
    Identifier(&'a Token<'a>),
    /// An expression in parentheses. It stays a node of its own.
    Grouping(Box<Expr<'a>>),
}

/// An expression, as plain values.
pub ghost enum ExprView {
    Binary { left: Box<ExprView>, operator: TokenView, right: Box<ExprView> },
    Unary { operator: TokenView, right: Box<ExprView> },
    Literal(Seq<char>),
    Identifier(TokenView),
    Grouping(Box<ExprView>),
}

/// The view of an expression.
pub open spec fn expr_view(expr: Expr<'_>) -> ExprView
    decreases expr,
{
    match expr {
        Expr::Binary { left, operator, right } => ExprView::Binary {
            left: Box::new(expr_view(*left)),
            operator: operator@,
            right: Box::new(expr_view(*right)),
        },
        Expr::Unary { operator, right } => ExprView::Unary {
            operator: operator@,
            right: Box::new(expr_view(*right)),
        },
        Expr::Literal(text) => ExprView::Literal(text@),
        Expr::Identifier(name) => ExprView::Identifier(name@),
        Expr::Grouping(inner) => ExprView::Grouping(Box::new(expr_view(*inner))),
    }
}

impl<'a> View for Expr<'a> {
    type V = ExprView;

    open spec fn view(&self) -> ExprView {
        expr_view(*self)
    }
}

/// The number of grouping nodes in an expression.
pub open spec fn groupings(expr: ExprView) -> nat
    decreases expr,
{
    match expr {
        ExprView::Binary { left, right, .. } => groupings(*left) + groupings(*right),
        ExprView::Unary { right, .. } => groupings(*right),
        ExprView::Literal(_) => 0,
        ExprView::Identifier(_) => 0,
        ExprView::Grouping(inner) => 1 + groupings(*inner),
    }
}

/// How loosely the top of an expression binds: the rank of its operator
/// for a binary expression, and 0 for any other, which binds tightest.
pub open spec fn looseness(expr: ExprView) -> nat {
    match expr {
        ExprView::Binary { operator, .. } => operator_rank(operator.kind),
        _ => 0,
    }
}

/// Whether an expression is built as the grammar builds it. The operator
/// of a binary node is a binary operator; its left side binds at least as
/// tightly as the operator, and its right side binds tighter, so operators
/// of one level nest to the left and a tighter operator lies below a looser
/// one. The operator of a unary node is `!` or `-`, and its operand is no
/// binary expression. A name is an `Identifier` token. Inside a grouping
/// stands any well-formed expression.
pub open spec fn well_formed(expr: ExprView) -> bool
    decreases expr,
{
    match expr {
        ExprView::Binary { left, operator, right } => {
            &&& operator_rank(operator.kind) > 0
            &&& looseness(*left) <= operator_rank(operator.kind)
            &&& looseness(*right) < operator_rank(operator.kind)
            &&& well_formed(*left)
            &&& well_formed(*right)
        },
        ExprView::Unary { operator, right } => {
            &&& is_prefix_operator(operator.kind)
            &&& looseness(*right) == 0
            &&& well_formed(*right)
        },
        ExprView::Literal(_) => true,
        ExprView::Identifier(name) => name.kind == TokenKind::Identifier,
        ExprView::Grouping(inner) => well_formed(*inner),
    }
}

/// A statement.
#[derive(Debug, PartialEq, Eq)]
pub enum Statement<'a> {
    /// An expression used as a statement.
    Expression(Expr<'a>),
    /// `return;` or `return value;`.
    Return { keyword: &'a Token<'a>, value: Option<Expr<'a>> },
    /// The declaration of a variable, with or without a first value.
    VarDecl { name: &'a Token<'a>, initialiser: Option<Expr<'a>> },
    /// The definition of a function: its name, the names of its parameters
    /// and the statements of its body.
    Function { name: &'a Token<'a>, params: Vec<&'a Token<'a>>, body: Vec<Statement<'a>> },
}

/// A statement, as plain values.
pub ghost enum StatementView {
    Expression(ExprView),
    Return { keyword: TokenView, value: Option<ExprView> },
    VarDecl { name: TokenView, initialiser: Option<ExprView> },
    Function { name: TokenView, params: Seq<TokenView>, body: Seq<StatementView> },
}

/// The view of an expression that may be absent.
pub open spec fn optional_view(expr: Option<Expr<'_>>) -> Option<ExprView> {
    match expr {
        Some(e) => Some(e@),
        None => None,
    }
}

/// The view of a statement.
pub open spec fn statement_view(statement: Statement<'_>) -> StatementView
    decreases statement,
{
    match statement {
        Statement::Expression(expr) => StatementView::Expression(expr@),
        Statement::Return { keyword, value } => StatementView::Return {
            keyword: keyword@,
            value: optional_view(value),
        },
        Statement::VarDecl { name, initialiser } => StatementView::VarDecl {
            name: name@,
            initialiser: optional_view(initialiser),
        },
        Statement::Function { name, params, body } => StatementView::Function {
            name: name@,
            params: borrowed_views(params@),
            body: Seq::new(
                body@.len(),
                |i: int|
                    if 0 <= i < body@.len() {
                        statement_view(body@[i])
                    } else {
                        arbitrary()
                    },
            ),
        },
    }
}

impl<'a> View for Statement<'a> {
    type V = StatementView;

    open spec fn view(&self) -> StatementView {
        statement_view(*self)
    }
}

/// Whether an expression that may be absent is well formed.
pub open spec fn optional_well_formed(value: Option<ExprView>) -> bool {
    match value {
        Some(expr) => well_formed(expr),
        None => true,
    }
}

/// Whether each of `names` is an `Identifier` token.
pub open spec fn are_names(names: Seq<TokenView>) -> bool {
    forall|i: int| 0 <= i < names.len() ==> (#[trigger] names[i]).kind == TokenKind::Identifier
}

/// Whether a statement is built as the grammar builds it: its expressions
/// are well formed, its keyword is `return`, its names are `Identifier`
/// tokens, and the statements of its body are well formed in turn.
pub open spec fn statement_well_formed(statement: StatementView) -> bool
    decreases statement,
{
    match statement {
        StatementView::Expression(expr) => well_formed(expr),
        StatementView::Return { keyword, value } => keyword.kind == TokenKind::Return
            && optional_well_formed(value),
        StatementView::VarDecl { name, initialiser } => name.kind == TokenKind::Identifier
            && optional_well_formed(initialiser),
        StatementView::Function { name, params, body } => {
            &&& name.kind == TokenKind::Identifier
            &&& are_names(params)
            &&& forall|i: int| 0 <= i < body.len() ==> statement_well_formed(#[trigger] body[i])
        },
    }
}

/// Whether each of `statements` is well formed.
pub open spec fn all_well_formed(statements: Seq<StatementView>) -> bool {
    forall|i: int|
        0 <= i < statements.len() ==> statement_well_formed(#[trigger] statements[i])
}

/// The views of a sequence of statements, in order.
pub open spec fn statement_views(statements: Seq<Statement<'_>>) -> Seq<StatementView> {
    statements.map_values(|s: Statement<'_>| s@)
}

} // verus!
