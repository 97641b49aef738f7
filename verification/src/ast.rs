//! Abstract syntax of dokusy programs, and its mathematical model.
//!
//! Every executable node has a view in which strings are `Seq<char>` and
//! vectors are `Seq`, so that contracts compare syntax trees by content.
use vstd::prelude::*;

verus! {

/// A source position: 1-based line and column.
#[derive(Debug, Clone, Copy, PartialEq, Eq, Structural)]
pub struct Span {
    pub line: usize,
    pub column: usize,
}

impl Span {
    pub fn new(line: usize, column: usize) -> (s: Span)
        ensures
            s == (Span { line, column }),
    {
        Span { line, column }
    }
}

/// The declared type of a parameter or of a function's result.
#[derive(Debug, Clone, Copy, PartialEq, Eq, Structural)]
pub enum TypeName {
    I64,
    Bool,
    String,
    Unit,
}

#[derive(Debug, Clone, Copy, PartialEq, Eq, Structural)]
pub enum BinaryOp {
    Add,
    Sub,
    Mul,
    Div,
    Eq,
    Ne,
    Lt,
    Le,
    Gt,
    Ge,
    And,
    Or,
}

#[derive(Debug, Clone, Copy, PartialEq, Eq, Structural)]
pub enum UnaryOp {
    Not,
    Neg,
}

#[derive(Debug, PartialEq)]
pub struct Expr {
    pub kind: ExprKind,
    pub span: Span,
}

#[derive(Debug, PartialEq)]
#[allow(inconsistent_fields)]
pub enum ExprKind {
    Int(i64),
    Bool(bool),
    String(String),
    Var(String),
    Unary { op: UnaryOp, expr: Box<Expr> },
    Binary { left: Box<Expr>, op: BinaryOp, right: Box<Expr> },
    Call { name: String, args: Vec<Expr> },
}

#[derive(Debug, PartialEq)]
pub struct Stmt {
    pub kind: StmtKind,
    pub span: Span,
}

#[derive(Debug, PartialEq)]
pub enum StmtKind {
    Let { name: String, mutable: bool, value: Expr },
    Assign { name: String, value: Expr },
    ExprStmt(Expr),
    Block(Vec<Stmt>),
    If { cond: Expr, then_branch: Box<Stmt>, else_branch: Option<Box<Stmt>> },
    While { cond: Expr, body: Box<Stmt> },
    Return(Expr),
}

#[derive(Debug, Clone, PartialEq)]
pub struct Param {
    pub name: String,
    pub ty: TypeName,
    pub span: Span,
}

#[derive(Debug, PartialEq)]
pub struct Function {
    pub name: String,
    pub params: Vec<Param>,
    pub return_type: TypeName,
    pub body: Stmt,
    pub span: Span,
}

#[derive(Debug, PartialEq)]
pub struct Program {
    pub functions: Vec<Function>,
}

// ----------------------------------------------------------------------
// Mathematical model
// ----------------------------------------------------------------------

pub struct SpecExpr {
    pub kind: SpecExprKind,
    pub span: Span,
}

#[allow(inconsistent_fields)]
pub enum SpecExprKind {
    Int(i64),
    Bool(bool),
    Str(Seq<char>),
    Var(Seq<char>),
    Unary { op: UnaryOp, expr: Box<SpecExpr> },
    Binary { left: Box<SpecExpr>, op: BinaryOp, right: Box<SpecExpr> },
    Call { name: Seq<char>, args: Seq<SpecExpr> },
}

pub struct SpecStmt {
    pub kind: SpecStmtKind,
    pub span: Span,
}

pub enum SpecStmtKind {
    Let { name: Seq<char>, mutable: bool, value: SpecExpr },
    Assign { name: Seq<char>, value: SpecExpr },
    ExprStmt(SpecExpr),
    Block(Seq<SpecStmt>),
    If { cond: SpecExpr, then_branch: Box<SpecStmt>, else_branch: Option<Box<SpecStmt>> },
    While { cond: SpecExpr, body: Box<SpecStmt> },
    Return(SpecExpr),
}

pub struct SpecParam {
    pub name: Seq<char>,
    pub ty: TypeName,
    pub span: Span,
}

pub struct SpecFunction {
    pub name: Seq<char>,
    pub params: Seq<SpecParam>,
    pub return_type: TypeName,
    pub body: SpecStmt,
    pub span: Span,
}

pub struct SpecProgram {
    pub functions: Seq<SpecFunction>,
}

pub open spec fn expr_view(e: Expr) -> SpecExpr
    decreases e,
{
    SpecExpr {
        kind: match e.kind {
            ExprKind::Int(v) => SpecExprKind::Int(v),
            ExprKind::Bool(b) => SpecExprKind::Bool(b),
            ExprKind::String(s) => SpecExprKind::Str(s@),
            ExprKind::Var(s) => SpecExprKind::Var(s@),
            ExprKind::Unary { op, expr } => SpecExprKind::Unary {
                op,
                expr: Box::new(expr_view(*expr)),
            },
            ExprKind::Binary { left, op, right } => SpecExprKind::Binary {
                left: Box::new(expr_view(*left)),
                op,
                right: Box::new(expr_view(*right)),
            },
            ExprKind::Call { name, args } => SpecExprKind::Call {
                name: name@,
                args: exprs_view(args@),
            },
        },
        span: e.span,
    }
}

pub open spec fn exprs_view(s: Seq<Expr>) -> Seq<SpecExpr>
    decreases s,
{
    if s.len() == 0 {
        Seq::empty()
    } else {
        exprs_view(s.drop_last()).push(expr_view(s.last()))
    }
}

pub open spec fn stmt_view(st: Stmt) -> SpecStmt
    decreases st,
{
    SpecStmt {
        kind: match st.kind {
            StmtKind::Let { name, mutable, value } => SpecStmtKind::Let {
                name: name@,
                mutable,
                value: expr_view(value),
            },
            StmtKind::Assign { name, value } => SpecStmtKind::Assign {
                name: name@,
                value: expr_view(value),
            },
            StmtKind::ExprStmt(e) => SpecStmtKind::ExprStmt(expr_view(e)),
            StmtKind::Block(v) => SpecStmtKind::Block(stmts_view(v@)),
            StmtKind::If { cond, then_branch, else_branch } => SpecStmtKind::If {
                cond: expr_view(cond),
                then_branch: Box::new(stmt_view(*then_branch)),
                else_branch: match else_branch {
                    Some(b) => Some(Box::new(stmt_view(*b))),
                    None => None,
                },
            },
            StmtKind::While { cond, body } => SpecStmtKind::While {
                cond: expr_view(cond),
                body: Box::new(stmt_view(*body)),
            },
            StmtKind::Return(e) => SpecStmtKind::Return(expr_view(e)),
        },
        span: st.span,
    }
}

pub open spec fn stmts_view(s: Seq<Stmt>) -> Seq<SpecStmt>
    decreases s,
{
    if s.len() == 0 {
        Seq::empty()
    } else {
        stmts_view(s.drop_last()).push(stmt_view(s.last()))
    }
}

impl View for Expr {
    type V = SpecExpr;

    open spec fn view(&self) -> SpecExpr {
        expr_view(*self)
    }
}

impl View for Stmt {
    type V = SpecStmt;

    open spec fn view(&self) -> SpecStmt {
        stmt_view(*self)
    }
}

impl View for Param {
    type V = SpecParam;

    open spec fn view(&self) -> SpecParam {
        SpecParam { name: self.name@, ty: self.ty, span: self.span }
    }
}

pub open spec fn params_view(s: Seq<Param>) -> Seq<SpecParam> {
    s.map_values(|p: Param| p@)
}

impl View for Function {
    type V = SpecFunction;

    open spec fn view(&self) -> SpecFunction {
        SpecFunction {
            name: self.name@,
            params: params_view(self.params@),
            return_type: self.return_type,
            body: self.body@,
            span: self.span,
        }
    }
}

pub open spec fn functions_view(s: Seq<Function>) -> Seq<SpecFunction> {
    s.map_values(|f: Function| f@)
}

impl View for Program {
    type V = SpecProgram;

    open spec fn view(&self) -> SpecProgram {
        SpecProgram { functions: functions_view(self.functions@) }
    }
}

/// The view of a sequence of expressions is taken element by element.
pub proof fn lemma_exprs_view(s: Seq<Expr>)
    ensures
        exprs_view(s).len() == s.len(),
        forall|i: int| 0 <= i < s.len() ==> #[trigger] exprs_view(s)[i] == expr_view(s[i]),
    decreases s.len(),
{
    if s.len() > 0 {
        lemma_exprs_view(s.drop_last());
    }
}

/// The view of a sequence of statements is taken element by element.
pub proof fn lemma_stmts_view(s: Seq<Stmt>)
    ensures
        stmts_view(s).len() == s.len(),
        forall|i: int| 0 <= i < s.len() ==> #[trigger] stmts_view(s)[i] == stmt_view(s[i]),
    decreases s.len(),
{
    if s.len() > 0 {
        lemma_stmts_view(s.drop_last());
    }
}

} // verus!
