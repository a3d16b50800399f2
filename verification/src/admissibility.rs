use vstd::prelude::*;
use crate::ast::{BinOp, Expr, Stmt};
use crate::primes::{check_prime, prime_verdict};

verus! {

pub open spec fn float_text() -> Seq<char> {
    "L0 Invariant Violation: floating-point literal used as stability proof is forbidden"@
}

pub open spec fn loop_text() -> Seq<char> {
    "L0 Invariant Violation: unbounded loop without explicit bound annotation"@
}

pub open spec fn prime_violation_text(m: Seq<char>) -> Seq<char> {
    "Prime operator violation: "@ + m
}

/// The first of two verdicts that rejects, else acceptance.
pub open spec fn both(a: Result<(), Seq<char>>, b: Result<(), Seq<char>>) -> Result<(), Seq<char>> {
    if a is Err {
        a
    } else {
        b
    }
}

/// Admissibility of an expression: no floating-point literal, every prime atom prime, and
/// every nested statement admissible; the first violation in reading order is reported.
pub open spec fn expr_verdict(e: Expr) -> Result<(), Seq<char>>
    decreases e,
{
    match e {
        Expr::FloatLit(_) => Err(float_text()),
        Expr::Atom { prime } => match prime_verdict(prime as nat) {
            Ok(()) => Ok(()),
            Err(m) => Err(prime_violation_text(m)),
        },
        Expr::Binary { left, right, .. } => both(expr_verdict(*left), expr_verdict(*right)),
        Expr::LogicalOp { left, right, .. } => both(expr_verdict(*left), expr_verdict(*right)),
        Expr::Call { args, .. } => exprs_verdict(args@),
        Expr::MethodCall { obj, args, .. } => both(expr_verdict(*obj), exprs_verdict(args@)),
        Expr::If { cond, then_branch, else_branch } => both(
            expr_verdict(*cond),
            both(
                stmts_verdict(then_branch@),
                match else_branch {
                    Some(b) => stmts_verdict(b@),
                    None => Ok(()),
                },
            ),
        ),
        Expr::Successor(x) => expr_verdict(*x),
        Expr::StratumBoundary(x) => expr_verdict(*x),
        Expr::PrimeShift(x) => expr_verdict(*x),
        Expr::Sin(x) => expr_verdict(*x),
        Expr::Cos(x) => expr_verdict(*x),
        Expr::Log(x) => expr_verdict(*x),
        Expr::Not(x) => expr_verdict(*x),
        Expr::Try(x) => expr_verdict(*x),
        Expr::Tuple(es) => exprs_verdict(es@),
        Expr::StructInit { fields, .. } => fields_verdict(fields@),
        Expr::FieldAccess { obj, .. } => expr_verdict(*obj),
        Expr::Match { expr, arms } => both(expr_verdict(*expr), arms_verdict(arms@)),
        _ => Ok(()),
    }
}

pub open spec fn exprs_verdict(s: Seq<Expr>) -> Result<(), Seq<char>>
    decreases s,
{
    if s.len() == 0 {
        Ok(())
    } else {
        both(exprs_verdict(s.drop_last()), expr_verdict(s.last()))
    }
}

pub open spec fn fields_verdict(s: Seq<(String, Expr)>) -> Result<(), Seq<char>>
    decreases s,
{
    if s.len() == 0 {
        Ok(())
    } else {
        both(fields_verdict(s.drop_last()), expr_verdict(s.last().1))
    }
}

pub open spec fn arms_verdict(s: Seq<(String, Vec<Stmt>)>) -> Result<(), Seq<char>>
    decreases s,
{
    if s.len() == 0 {
        Ok(())
    } else {
        both(arms_verdict(s.drop_last()), stmts_verdict(s.last().1@))
    }
}

/// Admissibility of a statement: loops must carry a bound, and the expressions and
/// statements inside must be admissible.
pub open spec fn stmt_verdict(st: Stmt) -> Result<(), Seq<char>>
    decreases st,
{
    match st {
        Stmt::Loop { cond: None, .. } => Err(loop_text()),
        Stmt::Expr(e) => expr_verdict(e),
        Stmt::Let { expr, .. } => expr_verdict(expr),
        Stmt::LetMut { expr, .. } => expr_verdict(expr),
        Stmt::Assign { expr, .. } => expr_verdict(expr),
        Stmt::Return(Some(e)) => expr_verdict(e),
        Stmt::Block(ss) => stmts_verdict(ss@),
        Stmt::If { cond, then_branch, else_branch } => both(
            expr_verdict(cond),
            both(
                stmts_verdict(then_branch@),
                match else_branch {
                    Some(b) => stmts_verdict(b@),
                    None => Ok(()),
                },
            ),
        ),
        Stmt::FnDef { body, .. } => stmts_verdict(body@),
        Stmt::ImplDef { methods, .. } => stmts_verdict(methods@),
        _ => Ok(()),
    }
}

pub open spec fn stmts_verdict(s: Seq<Stmt>) -> Result<(), Seq<char>>
    decreases s,
{
    if s.len() == 0 {
        Ok(())
    } else {
        both(stmts_verdict(s.drop_last()), stmt_verdict(s.last()))
    }
}

/// What an accepted node's receipt is anchored to: the expression's own rendering, or the
/// kind of statement that was checked.
#[derive(Debug, Clone, Copy, PartialEq, Eq, Structural)]
pub enum ReceiptAnchor {
    Expression,
    Block,
    If,
    Fn,
    Impl,
    Skip,
}

/// Receipt issued for an admissible node.
#[derive(Debug, Clone, PartialEq, Eq)]
pub struct AdmissionReceipt {
    pub anchor: ReceiptAnchor,
    pub signature: String,
    pub signer_pubkey: String,
}

/// The anchor of the receipt issued for an admissible statement.
pub open spec fn stmt_anchor(st: Stmt) -> ReceiptAnchor {
    match st {
        Stmt::Expr(_) => ReceiptAnchor::Expression,
        Stmt::Let { .. } => ReceiptAnchor::Expression,
        Stmt::LetMut { .. } => ReceiptAnchor::Expression,
        Stmt::Assign { .. } => ReceiptAnchor::Expression,
        Stmt::Return(Some(_)) => ReceiptAnchor::Expression,
        Stmt::Block(_) => ReceiptAnchor::Block,
        Stmt::If { .. } => ReceiptAnchor::If,
        Stmt::FnDef { .. } => ReceiptAnchor::Fn,
        Stmt::ImplDef { .. } => ReceiptAnchor::Impl,
        _ => ReceiptAnchor::Skip,
    }
}

pub open spec fn receipt_ok(rc: AdmissionReceipt, anchor: ReceiptAnchor) -> bool {
    &&& rc.anchor == anchor
    &&& rc.signature@ == "admissibility_validator"@
    &&& rc.signer_pubkey@ == "validator"@
}

/// Checks PIRTM syntax trees against the L0 admissibility invariants.
#[derive(Debug, Clone, Copy)]
pub struct AdmissibilityValidator {}

fn receipt(anchor: ReceiptAnchor) -> (rc: AdmissionReceipt)
    ensures
        receipt_ok(rc, anchor),
{
    proof {
        reveal_strlit("admissibility_validator");
        reveal_strlit("validator");
    }
    AdmissionReceipt {
        anchor,
        signature: String::from_str("admissibility_validator"),
        signer_pubkey: String::from_str("validator"),
    }
}

fn text(s: &str) -> (r: String)
    ensures
        r@ == s@,
{
    String::from_str(s)
}

impl AdmissibilityValidator {
    pub fn new() -> (v: Self) {
        Self {}
    }

    /// Checks that a prime index is prime.
    pub fn validate_prime(&self, n: u64) -> (r: Result<(), String>)
        ensures
            match prime_verdict(n as nat) {
                Ok(()) => r is Ok,
                Err(m) => r matches Err(s) && s@ == m,
            },
    {
        check_prime(n)
    }

    /// Checks an expression tree; the error is the first violation in reading order.
    pub fn validate(&self, ast: &Expr) -> (r: Result<AdmissionReceipt, String>)
        ensures
            match expr_verdict(*ast) {
                Ok(()) => r matches Ok(rc) && receipt_ok(rc, ReceiptAnchor::Expression),
                Err(m) => r matches Err(s) && s@ == m,
            },
    {
        self.validate_expr(ast)
    }

    fn validate_expr(&self, expr: &Expr) -> (r: Result<AdmissionReceipt, String>)
        ensures
            match expr_verdict(*expr) {
                Ok(()) => r matches Ok(rc) && receipt_ok(rc, ReceiptAnchor::Expression),
                Err(m) => r matches Err(s) && s@ == m,
            },
    {
        match self.check_expr(expr) {
            Ok(()) => Ok(receipt(ReceiptAnchor::Expression)),
            Err(s) => Err(s),
        }
    }

    fn check_expr(&self, expr: &Expr) -> (r: Result<(), String>)
        ensures
            match expr_verdict(*expr) {
                Ok(()) => r is Ok,
                Err(m) => r matches Err(s) && s@ == m,
            },
        decreases expr,
    {
        proof {
            reveal_strlit("L0 Invariant Violation: floating-point literal used as stability proof is forbidden");
            reveal_strlit("Prime operator violation: ");
        }
        match expr {
            Expr::FloatLit(_) => Err(
                text("L0 Invariant Violation: floating-point literal used as stability proof is forbidden"),
            ),
            Expr::Atom { prime } => match check_prime(*prime) {
                Ok(()) => Ok(()),
                Err(m) => {
                    let mut s = text("Prime operator violation: ");
                    s.append(m.as_str());
                    Err(s)
                },
            },
            Expr::Binary { left, right, .. } => {
                proof {
                    assert(decreases_to!(*expr => *left));
                    assert(decreases_to!(*expr => *right));
                }
                match self.check_expr(left) {
                    Err(s) => Err(s),
                    Ok(()) => self.check_expr(right),
                }
            },
            Expr::LogicalOp { left, right, .. } => {
                proof {
                    assert(decreases_to!(*expr => *left));
                    assert(decreases_to!(*expr => *right));
                }
                match self.check_expr(left) {
                    Err(s) => Err(s),
                    Ok(()) => self.check_expr(right),
                }
            },
            Expr::Call { args, .. } => {
                proof {
                    assert(decreases_to!(*expr => expr->Call_args));
                }
                self.check_exprs(args)
            },
            Expr::MethodCall { obj, args, .. } => {
                proof {
                    assert(decreases_to!(*expr => *obj));
                    assert(decreases_to!(*expr => expr->MethodCall_args));
                }
                match self.check_expr(obj) {
                    Err(s) => Err(s),
                    Ok(()) => self.check_exprs(args),
                }
            },
            Expr::If { cond, then_branch, else_branch } => {
                proof {
                    assert(decreases_to!(*expr => *cond));
                    assert(decreases_to!(*expr => expr->If_then_branch));
                }
                match self.check_expr(cond) {
                    Err(s) => {
                        return Err(s);
                    },
                    Ok(()) => {},
                }
                match self.check_stmts(then_branch) {
                    Err(s) => {
                        return Err(s);
                    },
                    Ok(()) => {},
                }
                match else_branch {
                    Some(b) => {
                        proof {
                            assert(decreases_to!(*expr => expr->If_else_branch));
                            assert(decreases_to!(expr->If_else_branch => expr->If_else_branch->0));
                        }
                        self.check_stmts(b)
                    },
                    None => Ok(()),
                }
            },
            Expr::Successor(x) => {
                proof {
                    assert(decreases_to!(*expr => *x));
                }
                self.check_expr(x)
            },
            Expr::StratumBoundary(x) => {
                proof {
                    assert(decreases_to!(*expr => *x));
                }
                self.check_expr(x)
            },
            Expr::PrimeShift(x) => {
                proof {
                    assert(decreases_to!(*expr => *x));
                }
                self.check_expr(x)
            },
            Expr::Sin(x) => {
                proof {
                    assert(decreases_to!(*expr => *x));
                }
                self.check_expr(x)
            },
            Expr::Cos(x) => {
                proof {
                    assert(decreases_to!(*expr => *x));
                }
                self.check_expr(x)
            },
            Expr::Log(x) => {
                proof {
                    assert(decreases_to!(*expr => *x));
                }
                self.check_expr(x)
            },
            Expr::Not(x) => {
                proof {
                    assert(decreases_to!(*expr => *x));
                }
                self.check_expr(x)
            },
            Expr::Try(x) => {
                proof {
                    assert(decreases_to!(*expr => *x));
                }
                self.check_expr(x)
            },
            Expr::Tuple(es) => {
                proof {
                    assert(decreases_to!(*expr => expr->Tuple_0));
                }
                self.check_exprs(es)
            },
            Expr::StructInit { fields, .. } => {
                proof {
                    assert(decreases_to!(*expr => expr->fields));
                }
                self.check_fields(fields)
            },
            Expr::FieldAccess { obj, .. } => {
                proof {
                    assert(decreases_to!(*expr => *obj));
                }
                self.check_expr(obj)
            },
            Expr::Match { expr: scrutinee, arms } => {
                proof {
                    assert(decreases_to!(*expr => *scrutinee));
                    assert(decreases_to!(*expr => expr->arms));
                }
                match self.check_expr(scrutinee) {
                    Err(s) => Err(s),
                    Ok(()) => self.check_arms(arms),
                }
            },
            _ => Ok(()),
        }
    }

    fn check_exprs(&self, es: &Vec<Expr>) -> (r: Result<(), String>)
        ensures
            match exprs_verdict(es@) {
                Ok(()) => r is Ok,
                Err(m) => r matches Err(s) && s@ == m,
            },
        decreases es,
    {
        let mut i: usize = 0;
        while i < es.len()
            invariant
                0 <= i <= es.len(),
                exprs_verdict(es@.take(i as int)) is Ok,
            decreases es.len() - i,
        {
            proof {
                assert(es@.take(i + 1).drop_last() =~= es@.take(i as int));
                assert(decreases_to!(*es => es@));
                assert(decreases_to!(es@ => es@[i as int]));
            }
            match self.check_expr(&es[i]) {
                Err(s) => {
                    proof {
                        assert(es@.take(i + 1).last() == es@[i as int]);
                        assert(exprs_verdict(es@.take(i + 1)) == Err::<(), Seq<char>>(s@));
                        lemma_exprs_sticky(es@, i + 1, es@.len() as int);
                        assert(es@.take(es@.len() as int) =~= es@);
                    }
                    return Err(s);
                },
                Ok(()) => {},
            }
            i = i + 1;
        }
        assert(es@.take(es.len() as int) =~= es@);
        Ok(())
    }

    fn check_fields(&self, fs: &Vec<(String, Expr)>) -> (r: Result<(), String>)
        ensures
            match fields_verdict(fs@) {
                Ok(()) => r is Ok,
                Err(m) => r matches Err(s) && s@ == m,
            },
        decreases fs,
    {
        let mut i: usize = 0;
        while i < fs.len()
            invariant
                0 <= i <= fs.len(),
                fields_verdict(fs@.take(i as int)) is Ok,
            decreases fs.len() - i,
        {
            proof {
                assert(fs@.take(i + 1).drop_last() =~= fs@.take(i as int));
                assert(decreases_to!(*fs => fs@));
                assert(decreases_to!(fs@ => fs@[i as int]));
                assert(decreases_to!(fs@[i as int] => fs@[i as int].1));
            }
            match self.check_expr(&fs[i].1) {
                Err(s) => {
                    proof {
                        assert(fs@.take(i + 1).last() == fs@[i as int]);
                        assert(fields_verdict(fs@.take(i + 1)) == Err::<(), Seq<char>>(s@));
                        lemma_fields_sticky(fs@, i + 1, fs@.len() as int);
                        assert(fs@.take(fs@.len() as int) =~= fs@);
                    }
                    return Err(s);
                },
                Ok(()) => {},
            }
            i = i + 1;
        }
        assert(fs@.take(fs.len() as int) =~= fs@);
        Ok(())
    }

    fn check_arms(&self, arms: &Vec<(String, Vec<Stmt>)>) -> (r: Result<(), String>)
        ensures
            match arms_verdict(arms@) {
                Ok(()) => r is Ok,
                Err(m) => r matches Err(s) && s@ == m,
            },
        decreases arms,
    {
        let mut i: usize = 0;
        while i < arms.len()
            invariant
                0 <= i <= arms.len(),
                arms_verdict(arms@.take(i as int)) is Ok,
            decreases arms.len() - i,
        {
            proof {
                assert(arms@.take(i + 1).drop_last() =~= arms@.take(i as int));
                assert(decreases_to!(*arms => arms@));
                assert(decreases_to!(arms@ => arms@[i as int]));
                assert(decreases_to!(arms@[i as int] => arms@[i as int].1));
            }
            match self.check_stmts(&arms[i].1) {
                Err(s) => {
                    proof {
                        assert(arms@.take(i + 1).last() == arms@[i as int]);
                        assert(arms_verdict(arms@.take(i + 1)) == Err::<(), Seq<char>>(s@));
                        lemma_arms_sticky(arms@, i + 1, arms@.len() as int);
                        assert(arms@.take(arms@.len() as int) =~= arms@);
                    }
                    return Err(s);
                },
                Ok(()) => {},
            }
            i = i + 1;
        }
        assert(arms@.take(arms.len() as int) =~= arms@);
        Ok(())
    }

    fn check_stmts(&self, ss: &Vec<Stmt>) -> (r: Result<(), String>)
        ensures
            match stmts_verdict(ss@) {
                Ok(()) => r is Ok,
                Err(m) => r matches Err(s) && s@ == m,
            },
        decreases ss,
    {
        let mut i: usize = 0;
        while i < ss.len()
            invariant
                0 <= i <= ss.len(),
                stmts_verdict(ss@.take(i as int)) is Ok,
            decreases ss.len() - i,
        {
            proof {
                assert(ss@.take(i + 1).drop_last() =~= ss@.take(i as int));
                assert(decreases_to!(*ss => ss@));
                assert(decreases_to!(ss@ => ss@[i as int]));
            }
            match self.check_stmt(&ss[i]) {
                Err(s) => {
                    proof {
                        assert(ss@.take(i + 1).last() == ss@[i as int]);
                        assert(stmts_verdict(ss@.take(i + 1)) == Err::<(), Seq<char>>(s@));
                        lemma_stmts_sticky(ss@, i + 1, ss@.len() as int);
                        assert(ss@.take(ss@.len() as int) =~= ss@);
                    }
                    return Err(s);
                },
                Ok(()) => {},
            }
            i = i + 1;
        }
        assert(ss@.take(ss.len() as int) =~= ss@);
        Ok(())
    }

    fn check_stmt(&self, stmt: &Stmt) -> (r: Result<(), String>)
        ensures
            match stmt_verdict(*stmt) {
                Ok(()) => r is Ok,
                Err(m) => r matches Err(s) && s@ == m,
            },
        decreases stmt,
    {
        proof {
            reveal_strlit("L0 Invariant Violation: unbounded loop without explicit bound annotation");
        }
        match stmt {
            Stmt::Loop { cond: None, .. } => Err(
                text("L0 Invariant Violation: unbounded loop without explicit bound annotation"),
            ),
            Stmt::Expr(e) => {
                proof {
                    assert(decreases_to!(*stmt => *e));
                }
                self.check_expr(e)
            },
            Stmt::Let { expr, .. } => {
                proof {
                    assert(decreases_to!(*stmt => *expr));
                }
                self.check_expr(expr)
            },
            Stmt::LetMut { expr, .. } => {
                proof {
                    assert(decreases_to!(*stmt => *expr));
                }
                self.check_expr(expr)
            },
            Stmt::Assign { expr, .. } => {
                proof {
                    assert(decreases_to!(*stmt => *expr));
                }
                self.check_expr(expr)
            },
            Stmt::Return(Some(e)) => {
                proof {
                    assert(decreases_to!(*stmt => stmt->Return_0));
                    assert(decreases_to!(stmt->Return_0 => stmt->Return_0->0));
                }
                self.check_expr(e)
            },
            Stmt::Block(ss) => {
                proof {
                    assert(decreases_to!(*stmt => stmt->Block_0));
                }
                self.check_stmts(ss)
            },
            Stmt::If { cond, then_branch, else_branch } => {
                proof {
                    assert(decreases_to!(*stmt => *cond));
                    assert(decreases_to!(*stmt => stmt->If_then_branch));
                }
                match self.check_expr(cond) {
                    Err(s) => {
                        return Err(s);
                    },
                    Ok(()) => {},
                }
                match self.check_stmts(then_branch) {
                    Err(s) => {
                        return Err(s);
                    },
                    Ok(()) => {},
                }
                match else_branch {
                    Some(b) => {
                        proof {
                            assert(decreases_to!(*stmt => stmt->If_else_branch));
                            assert(decreases_to!(stmt->If_else_branch => stmt->If_else_branch->0));
                        }
                        self.check_stmts(b)
                    },
                    None => Ok(()),
                }
            },
            Stmt::FnDef { body, .. } => {
                proof {
                    assert(decreases_to!(*stmt => stmt->FnDef_body));
                }
                self.check_stmts(body)
            },
            Stmt::ImplDef { methods, .. } => {
                proof {
                    assert(decreases_to!(*stmt => stmt->methods));
                }
                self.check_stmts(methods)
            },
            _ => Ok(()),
        }
    }

    /// Checks a statement; the receipt names the kind of statement that was checked.
    pub fn validate_stmt(&self, stmt: &Stmt) -> (r: Result<AdmissionReceipt, String>)
        ensures
            match stmt_verdict(*stmt) {
                Ok(()) => r matches Ok(rc) && receipt_ok(rc, stmt_anchor(*stmt)),
                Err(m) => r matches Err(s) && s@ == m,
            },
    {
        match self.check_stmt(stmt) {
            Ok(()) => {
                let anchor = match stmt {
                    Stmt::Expr(_) => ReceiptAnchor::Expression,
                    Stmt::Let { .. } => ReceiptAnchor::Expression,
                    Stmt::LetMut { .. } => ReceiptAnchor::Expression,
                    Stmt::Assign { .. } => ReceiptAnchor::Expression,
                    Stmt::Return(Some(_)) => ReceiptAnchor::Expression,
                    Stmt::Block(_) => ReceiptAnchor::Block,
                    Stmt::If { .. } => ReceiptAnchor::If,
                    Stmt::FnDef { .. } => ReceiptAnchor::Fn,
                    Stmt::ImplDef { .. } => ReceiptAnchor::Impl,
                    _ => ReceiptAnchor::Skip,
                };
                Ok(receipt(anchor))
            },
            Err(s) => Err(s),
        }
    }

    /// Checks every statement of a program in order; the error is the first violation.
    pub fn validate_program(&self, program: &crate::ast::Program) -> (r: Result<(), String>)
        ensures
            match stmts_verdict(program.stmts@) {
                Ok(()) => r is Ok,
                Err(m) => r matches Err(s) && s@ == m,
            },
    {
        self.check_stmts(&program.stmts)
    }
}

proof fn lemma_exprs_sticky(s: Seq<Expr>, i: int, k: int)
    requires
        0 <= i <= k <= s.len(),
        exprs_verdict(s.take(i)) is Err,
    ensures
        exprs_verdict(s.take(k)) == exprs_verdict(s.take(i)),
    decreases k - i,
{
    if k > i {
        lemma_exprs_sticky(s, i, k - 1);
        assert(s.take(k).drop_last() =~= s.take(k - 1));
    }
}

proof fn lemma_fields_sticky(s: Seq<(String, Expr)>, i: int, k: int)
    requires
        0 <= i <= k <= s.len(),
        fields_verdict(s.take(i)) is Err,
    ensures
        fields_verdict(s.take(k)) == fields_verdict(s.take(i)),
    decreases k - i,
{
    if k > i {
        lemma_fields_sticky(s, i, k - 1);
        assert(s.take(k).drop_last() =~= s.take(k - 1));
    }
}

proof fn lemma_arms_sticky(s: Seq<(String, Vec<Stmt>)>, i: int, k: int)
    requires
        0 <= i <= k <= s.len(),
        arms_verdict(s.take(i)) is Err,
    ensures
        arms_verdict(s.take(k)) == arms_verdict(s.take(i)),
    decreases k - i,
{
    if k > i {
        lemma_arms_sticky(s, i, k - 1);
        assert(s.take(k).drop_last() =~= s.take(k - 1));
    }
}

proof fn lemma_stmts_sticky(s: Seq<Stmt>, i: int, k: int)
    requires
        0 <= i <= k <= s.len(),
        stmts_verdict(s.take(i)) is Err,
    ensures
        stmts_verdict(s.take(k)) == stmts_verdict(s.take(i)),
    decreases k - i,
{
    if k > i {
        lemma_stmts_sticky(s, i, k - 1);
        assert(s.take(k).drop_last() =~= s.take(k - 1));
    }
}

/// `c` is one of the expressions directly inside `e`.
pub open spec fn expr_child(c: Expr, e: Expr) -> bool {
    match e {
        Expr::Binary { left, right, .. } => c == *left || c == *right,
        Expr::LogicalOp { left, right, .. } => c == *left || c == *right,
        Expr::Call { args, .. } => args@.contains(c),
        Expr::MethodCall { obj, args, .. } => c == *obj || args@.contains(c),
        Expr::If { cond, .. } => c == *cond,
        Expr::Successor(x) => c == *x,
        Expr::StratumBoundary(x) => c == *x,
        Expr::PrimeShift(x) => c == *x,
        Expr::Sin(x) => c == *x,
        Expr::Cos(x) => c == *x,
        Expr::Log(x) => c == *x,
        Expr::Not(x) => c == *x,
        Expr::Try(x) => c == *x,
        Expr::Tuple(es) => es@.contains(c),
        Expr::StructInit { fields, .. } => exists|i: int| 0 <= i < fields@.len() && fields@[i].1 == c,
        Expr::FieldAccess { obj, .. } => c == *obj,
        Expr::Match { expr, .. } => c == *expr,
        _ => false,
    }
}

/// `st` is one of the statements in a branch of the conditional or match `e`.
pub open spec fn expr_stmt_child(st: Stmt, e: Expr) -> bool {
    match e {
        Expr::If { then_branch, else_branch, .. } => then_branch@.contains(st) || (match else_branch {
            Some(b) => b@.contains(st),
            None => false,
        }),
        Expr::Match { arms, .. } => exists|i: int| 0 <= i < arms@.len() && arms@[i].1@.contains(st),
        _ => false,
    }
}

/// `c` is an expression that the statement `st` evaluates directly.
pub open spec fn stmt_expr_child(c: Expr, st: Stmt) -> bool {
    match st {
        Stmt::Expr(e) => c == e,
        Stmt::Let { expr, .. } => c == expr,
        Stmt::LetMut { expr, .. } => c == expr,
        Stmt::Assign { expr, .. } => c == expr,
        Stmt::Return(Some(e)) => c == e,
        Stmt::If { cond, .. } => c == cond,
        _ => false,
    }
}

/// `c` is one of the statements directly inside the block, branch, function body or impl
/// `st` (the body of a bounded loop is not inspected).
pub open spec fn stmt_child(c: Stmt, st: Stmt) -> bool {
    match st {
        Stmt::Block(ss) => ss@.contains(c),
        Stmt::If { then_branch, else_branch, .. } => then_branch@.contains(c) || (match else_branch {
            Some(b) => b@.contains(c),
            None => false,
        }),
        Stmt::FnDef { body, .. } => body@.contains(c),
        Stmt::ImplDef { methods, .. } => methods@.contains(c),
        _ => false,
    }
}

proof fn lemma_exprs_reject(s: Seq<Expr>, x: Expr)
    requires
        s.contains(x),
        expr_verdict(x) is Err,
    ensures
        exprs_verdict(s) is Err,
    decreases s.len(),
{
    if s.last() != x {
        let i = choose|i: int| 0 <= i < s.len() && s[i] == x;
        assert(s.drop_last()[i] == x);
        lemma_exprs_reject(s.drop_last(), x);
    }
}

proof fn lemma_fields_reject(s: Seq<(String, Expr)>, i: int)
    requires
        0 <= i < s.len(),
        expr_verdict(s[i].1) is Err,
    ensures
        fields_verdict(s) is Err,
    decreases s.len(),
{
    if i < s.len() - 1 {
        assert(s.drop_last()[i] == s[i]);
        lemma_fields_reject(s.drop_last(), i);
    }
}

proof fn lemma_stmts_reject(s: Seq<Stmt>, x: Stmt)
    requires
        s.contains(x),
        stmt_verdict(x) is Err,
    ensures
        stmts_verdict(s) is Err,
    decreases s.len(),
{
    if s.last() != x {
        let i = choose|i: int| 0 <= i < s.len() && s[i] == x;
        assert(s.drop_last()[i] == x);
        lemma_stmts_reject(s.drop_last(), x);
    }
}

proof fn lemma_arms_reject(s: Seq<(String, Vec<Stmt>)>, i: int, x: Stmt)
    requires
        0 <= i < s.len(),
        s[i].1@.contains(x),
        stmt_verdict(x) is Err,
    ensures
        arms_verdict(s) is Err,
    decreases s.len(),
{
    if i < s.len() - 1 {
        assert(s.drop_last()[i] == s[i]);
        lemma_arms_reject(s.drop_last(), i, x);
    } else {
        lemma_stmts_reject(s[i].1@, x);
    }
}

/// A floating-point literal is never admissible.
pub proof fn law_float_literal_rejected(bits: u64)
    ensures
        expr_verdict(Expr::FloatLit(bits)) == Err::<(), Seq<char>>(float_text()),
{
}

/// Rejection propagates outward: an expression is rejected whenever one of the expressions
/// directly inside it is rejected, so a floating-point literal anywhere in a tree (in either
/// operand of a binary operator, an argument, a field, ...) rejects the whole tree.
pub proof fn law_expr_rejection_propagates(c: Expr, e: Expr)
    requires
        expr_child(c, e),
        expr_verdict(c) is Err,
    ensures
        expr_verdict(e) is Err,
{
    match e {
        Expr::Call { args, .. } => {
            lemma_exprs_reject(args@, c);
        },
        Expr::MethodCall { obj, args, .. } => {
            if c != *obj {
                lemma_exprs_reject(args@, c);
            }
        },
        Expr::Tuple(es) => {
            lemma_exprs_reject(es@, c);
        },
        Expr::StructInit { fields, .. } => {
            let i = choose|i: int| 0 <= i < fields@.len() && fields@[i].1 == c;
            lemma_fields_reject(fields@, i);
        },
        _ => {},
    }
}

/// A rejected statement inside a branch of a conditional or match expression rejects the
/// expression.
pub proof fn law_branch_rejection_propagates(st: Stmt, e: Expr)
    requires
        expr_stmt_child(st, e),
        stmt_verdict(st) is Err,
    ensures
        expr_verdict(e) is Err,
{
    match e {
        Expr::If { then_branch, else_branch, .. } => {
            if then_branch@.contains(st) {
                lemma_stmts_reject(then_branch@, st);
            } else {
                lemma_stmts_reject(else_branch->Some_0@, st);
            }
        },
        Expr::Match { arms, .. } => {
            let i = choose|i: int| 0 <= i < arms@.len() && arms@[i].1@.contains(st);
            lemma_arms_reject(arms@, i, st);
        },
        _ => {},
    }
}

/// Rejection propagates from the expressions and nested statements of a statement to the
/// statement, and a loop without a bound is rejected.
pub proof fn law_stmt_rejection_propagates(c: Expr, d: Stmt, st: Stmt, body: Vec<Stmt>)
    ensures
        stmt_expr_child(c, st) && expr_verdict(c) is Err ==> stmt_verdict(st) is Err,
        stmt_child(d, st) && stmt_verdict(d) is Err ==> stmt_verdict(st) is Err,
        stmt_verdict(Stmt::Loop { cond: None, body }) == Err::<(), Seq<char>>(loop_text()),
{
    if stmt_child(d, st) && stmt_verdict(d) is Err {
        match st {
            Stmt::Block(ss) => lemma_stmts_reject(ss@, d),
            Stmt::If { then_branch, else_branch, .. } => {
                if then_branch@.contains(d) {
                    lemma_stmts_reject(then_branch@, d);
                } else {
                    lemma_stmts_reject(else_branch->Some_0@, d);
                }
            },
            Stmt::FnDef { body, .. } => lemma_stmts_reject(body@, d),
            Stmt::ImplDef { methods, .. } => lemma_stmts_reject(methods@, d),
            _ => {},
        }
    }
}

/// The first violation in reading order is the one reported: a rejected left operand of a
/// binary or logical operator decides the verdict, and otherwise the right operand's verdict
/// is the operator's.
pub proof fn law_operands_read_left_to_right(l: Expr, op: BinOp, r: Expr)
    ensures
        expr_verdict(l) is Err ==> expr_verdict(Expr::Binary { left: Box::new(l), op, right: Box::new(r) })
            == expr_verdict(l),
        expr_verdict(l) is Ok ==> expr_verdict(Expr::Binary { left: Box::new(l), op, right: Box::new(r) })
            == expr_verdict(r),
{
}

} // verus!
