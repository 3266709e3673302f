//! The tree produced by parsing: expressions, statements and
//! declarations. Nodes are immutable once built, and each carries the
//! source line of its leftmost token for diagnostics.

use vstd::prelude::*;

verus! {

/// The binary operators, from the equality level down to the factor level.
#[derive(Copy, Clone, Debug, PartialEq, Eq, Structural)]
pub enum BinOp {
    Eq,
    Neq,
    Gt,
    GtEq,
    Lt,
    LtEq,
    Add,
    Sub,
    Div,
    Mult,
}

/// The unary operators: numeric negation and boolean inversion.
#[derive(Copy, Clone, Debug, PartialEq, Eq, Structural)]
pub enum UnaryOp {
    Negative,
    Inverse,
}

/// One expression node, carrying its source line.
#[derive(Debug, PartialEq)]
pub struct Expr {
    pub data: ExprData,
    pub line: u32,
}

/// The expression variants. A number literal is held as the bit
/// pattern of the IEEE binary32 value it denotes.
#[derive(Debug, PartialEq)]
pub enum ExprData {
    Binary(BinOp, Box<Expr>, Box<Expr>),
    Unary(UnaryOp, Box<Expr>),
    NumberLiteral(u32),
    Identifier(String),
    StringLiteral(String),
    True,
    False,
    Nil,
}

/// Mathematical model of an [`Expr`].
pub struct ExprView {
    pub data: ExprDataView,
    pub line: u32,
}

/// Mathematical model of an [`ExprData`].
pub enum ExprDataView {
    Binary(BinOp, Box<ExprView>, Box<ExprView>),
    Unary(UnaryOp, Box<ExprView>),
    NumberLiteral(u32),
    Identifier(Seq<char>),
    StringLiteral(Seq<char>),
    True,
    False,
    Nil,
}

/// The model of an expression node.
pub open spec fn expr_view(e: Expr) -> ExprView
    decreases e,
{
    ExprView { data: expr_data_view(e.data), line: e.line }
}

/// The model of an expression variant.
pub open spec fn expr_data_view(d: ExprData) -> ExprDataView
    decreases d,
{
    match d {
        ExprData::Binary(op, l, r) => ExprDataView::Binary(
            op,
            Box::new(expr_view(*l)),
            Box::new(expr_view(*r)),
        ),
        ExprData::Unary(op, e) => ExprDataView::Unary(op, Box::new(expr_view(*e))),
        ExprData::NumberLiteral(n) => ExprDataView::NumberLiteral(n),
        ExprData::Identifier(s) => ExprDataView::Identifier(s@),
        ExprData::StringLiteral(s) => ExprDataView::StringLiteral(s@),
        ExprData::True => ExprDataView::True,
        ExprData::False => ExprDataView::False,
        ExprData::Nil => ExprDataView::Nil,
    }
}

impl View for Expr {
    type V = ExprView;

    open spec fn view(&self) -> ExprView {
        expr_view(*self)
    }
}

impl View for ExprData {
    type V = ExprDataView;

    open spec fn view(&self) -> ExprDataView {
        expr_data_view(*self)
    }
}

impl Expr {
    /// Pairs an expression variant with its source line.
    pub fn new(data: ExprData, line: u32) -> (r: Self)
        ensures
            r@ == (ExprView { data: data@, line }),
    {
        Self { data, line }
    }
}

/// One executable statement: an expression evaluated for effect, or a
/// print of an expression's value.
#[derive(Debug, PartialEq)]
pub enum Stmt {
    Expr(Expr),
    Print(Expr),
}

/// Mathematical model of a [`Stmt`].
pub enum StmtView {
    Expr(ExprView),
    Print(ExprView),
}

impl View for Stmt {
    type V = StmtView;

    open spec fn view(&self) -> StmtView {
        match self {
            Stmt::Expr(e) => StmtView::Expr(e@),
            Stmt::Print(e) => StmtView::Print(e@),
        }
    }
}

/// One top-level program unit: a variable declaration (whose first
/// expression is always an identifier) or a statement.
#[derive(Debug, PartialEq)]
pub enum Decl {
    VarDecl(Expr, Expr),
    Stmt(Stmt),
}

/// Mathematical model of a [`Decl`].
pub enum DeclView {
    VarDecl(ExprView, ExprView),
    Stmt(StmtView),
}

impl View for Decl {
    type V = DeclView;

    open spec fn view(&self) -> DeclView {
        match self {
            Decl::VarDecl(id, init) => DeclView::VarDecl(id@, init@),
            Decl::Stmt(s) => DeclView::Stmt(s@),
        }
    }
}

/// A program: an ordered sequence of declarations, evaluated in order.
pub type Program = Vec<Decl>;

} // verus!
