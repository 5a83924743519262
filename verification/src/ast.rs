//! Node model of the abstract syntax tree: programs are ordered sequences
//! of labeled blocks, blocks hold statements, statements hold expressions,
//! and expressions bottom out in literals and identifiers.
//!
//! Each executable node type has a mathematical model (`LiteralModel`,
//! `ExprModel`, ...) reached through its view, so that contracts can speak
//! of values rather than of heap strings.

use vstd::prelude::*;

verus! {

/// A parsed flow: the ordered sequence of its labeled steps.
pub type Program = Vec<BlockStmt>;

/// One step of a flow: a label and the ordered statements under it.
#[derive(Debug)]
pub struct BlockStmt {
    pub label: String,
    pub block: Vec<Stmt>,
}

/// A statement either evaluates an expression for its effects or binds
/// the expression's value to a named memory slot.
#[derive(Debug, PartialEq)]
pub enum Stmt {
    ExprStmt(Expr),
    MemStmt(Ident, Expr),
}

/// An expression of the language subset: built-in calls, identifier
/// references, literals, conditionals without an else branch, and ordered
/// expression lists (also used as argument lists of built-in calls).
#[derive(Debug, PartialEq)]
pub enum Expr {
    Action { fun: Literal, act: Box<Expr> },
    IdentExpr(Ident),
    LitExpr(Literal),
    IfExpr { cond: Box<Expr>, consequence: Vec<Expr> },
    ArrayExpr(Vec<Expr>),
}

/// A literal value. Integers and strings are the values the interpreter
/// computes with; the grammar additionally recognizes floating-point text
/// (kept as its matched source text), booleans, and the null keyword.
#[derive(Debug, PartialEq)]
pub enum Literal {
    IntLiteral(i64),
    StringLiteral(String),
    FloatLiteral(String),
    BoolLiteral(bool),
    NullLiteral,
}

/// A string-wrapped identifier, compared by value.
#[derive(Debug, PartialEq, Eq)]
pub struct Ident(pub String);

/// Comparison operator tags available to condition expressions.
/// Arithmetic operators are not part of the modeled subset.
#[derive(Debug, PartialEq, Clone, Copy)]
pub enum Infix {
    Equal,
    GreaterThanEqual,
    LessThanEqual,
    GreaterThan,
    LessThan,
}

/// Mathematical model of a literal: text as a sequence of characters,
/// integers as unbounded integers.
pub enum LiteralModel {
    Int(int),
    Str(Seq<char>),
    Float(Seq<char>),
    Bool(bool),
    Null,
}

/// Mathematical model of an expression.
pub enum ExprModel {
    Action { fun: LiteralModel, act: Box<ExprModel> },
    Ident(Seq<char>),
    Lit(LiteralModel),
    If { cond: Box<ExprModel>, consequence: Seq<ExprModel> },
    Array(Seq<ExprModel>),
}

/// Mathematical model of a statement.
pub enum StmtModel {
    Expr(ExprModel),
    Mem(Seq<char>, ExprModel),
}

impl View for Literal {
    type V = LiteralModel;

    open spec fn view(&self) -> LiteralModel {
        match self {
            Literal::IntLiteral(i) => LiteralModel::Int(*i as int),
            Literal::StringLiteral(s) => LiteralModel::Str(s@),
            Literal::FloatLiteral(t) => LiteralModel::Float(t@),
            Literal::BoolLiteral(b) => LiteralModel::Bool(*b),
            Literal::NullLiteral => LiteralModel::Null,
        }
    }
}

impl View for Ident {
    type V = Seq<char>;

    open spec fn view(&self) -> Seq<char> {
        self.0@
    }
}

/// Model of an expression, by structural recursion.
pub open spec fn expr_model(e: Expr) -> ExprModel
    decreases e,
{
    match e {
        Expr::Action { fun, act } => ExprModel::Action { fun: fun@, act: Box::new(expr_model(*act)) },
        Expr::IdentExpr(id) => ExprModel::Ident(id@),
        Expr::LitExpr(l) => ExprModel::Lit(l@),
        Expr::IfExpr { cond, consequence } => ExprModel::If {
            cond: Box::new(expr_model(*cond)),
            consequence: expr_models(consequence@),
        },
        Expr::ArrayExpr(es) => ExprModel::Array(expr_models(es@)),
    }
}

/// Models of an ordered list of expressions, element by element.
pub open spec fn expr_models(es: Seq<Expr>) -> Seq<ExprModel>
    decreases es,
{
    if es.len() == 0 {
        Seq::empty()
    } else {
        expr_models(es.drop_last()).push(expr_model(es.last()))
    }
}

impl View for Expr {
    type V = ExprModel;

    open spec fn view(&self) -> ExprModel {
        expr_model(*self)
    }
}

impl View for Stmt {
    type V = StmtModel;

    open spec fn view(&self) -> StmtModel {
        match self {
            Stmt::ExprStmt(e) => StmtModel::Expr(e@),
            Stmt::MemStmt(id, e) => StmtModel::Mem(id@, e@),
        }
    }
}

impl Clone for Literal {
    /// Cloning a literal keeps its modeled value.
    fn clone(&self) -> (r: Self)
        ensures
            r@ == self@,
    {
        match self {
            Literal::IntLiteral(i) => Literal::IntLiteral(*i),
            Literal::StringLiteral(s) => Literal::StringLiteral(s.clone()),
            Literal::FloatLiteral(t) => Literal::FloatLiteral(t.clone()),
            Literal::BoolLiteral(b) => Literal::BoolLiteral(*b),
            Literal::NullLiteral => Literal::NullLiteral,
        }
    }
}

impl Clone for Ident {
    /// Cloning an identifier keeps its name.
    fn clone(&self) -> (r: Self)
        ensures
            r@ == self@,
    {
        Ident(self.0.clone())
    }
}

} // verus!
