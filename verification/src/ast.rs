use vstd::prelude::*;

verus! {

/// Binary arithmetic operators of PIRTM expressions.
#[derive(Debug, Clone, Copy, PartialEq, Eq)]
pub enum BinOp {
    Add,
    Sub,
    Mul,
    Div,
    Mod,
    Eq,
    Ne,
    Lt,
    Le,
    Gt,
    Ge,
}

/// Logical connectives of PIRTM expressions.
#[derive(Debug, Clone, Copy, PartialEq, Eq)]
pub enum LogicOp {
    And,
    Or,
}

/// PIRTM expressions, as far as the governance checks read them.
#[derive(Debug)]
pub enum Expr {
    /// Integer literal.
    Literal(u64),
    /// Floating-point literal, held as the bit pattern of its `f64` value.
    FloatLit(u64),
    CharLit(char),
    StringLit(String),
    Ident(String),
    /// Prime operator atom `Ap(p)`.
    Atom { prime: u64 },
    Binary { left: Box<Expr>, op: BinOp, right: Box<Expr> },
    LogicalOp { left: Box<Expr>, op: LogicOp, right: Box<Expr> },
    Call { name: String, args: Vec<Expr> },
    MethodCall { obj: Box<Expr>, method: String, args: Vec<Expr> },
    If { cond: Box<Expr>, then_branch: Vec<Stmt>, else_branch: Option<Vec<Stmt>> },
    Successor(Box<Expr>),
    StratumBoundary(Box<Expr>),
    PrimeShift(Box<Expr>),
    Sin(Box<Expr>),
    Cos(Box<Expr>),
    Log(Box<Expr>),
    Not(Box<Expr>),
    Try(Box<Expr>),
    Tuple(Vec<Expr>),
    StructInit { name: String, fields: Vec<(String, Expr)> },
    FieldAccess { obj: Box<Expr>, field: String },
    Match { expr: Box<Expr>, arms: Vec<(String, Vec<Stmt>)> },
}

/// PIRTM statements, as far as the governance checks read them.
#[derive(Debug)]
pub enum Stmt {
    Expr(Expr),
    Let { name: String, expr: Expr },
    LetMut { name: String, expr: Expr },
    Assign { name: String, expr: Expr },
    Return(Option<Expr>),
    Block(Vec<Stmt>),
    If { cond: Expr, then_branch: Vec<Stmt>, else_branch: Option<Vec<Stmt>> },
    Loop { cond: Option<Expr>, body: Vec<Stmt> },
    FnDef { name: String, params: Vec<String>, body: Vec<Stmt> },
    ImplDef { name: String, methods: Vec<Stmt> },
    Import(String),
    Ensemble(String),
}

/// A parsed PIRTM program.
#[derive(Debug)]
pub struct Program {
    pub stmts: Vec<Stmt>,
}

} // verus!
