use vstd::prelude::*;
use crate::anchor::{trim_bounds, trim_chars};
use crate::ast::{Expr, Program, Stmt};
use crate::envelope::{delimiter_from, find_explicit_delimiter_line};
use vstd::string::StringSliceAdditionalSpecFns;
use crate::rational::{error_text, rat_from, EnsembleError, PosRat};
use crate::spectral::Ensemble;

verus! {

/// A rational literal `(num, den)` of an envelope header.
pub type Pair = (u64, u64);

/// Spectral parameters declared by an envelope header: the matrix rows, the gains, and
/// the theorem anchor when one is declared.
pub type SpectralParams = (Vec<Vec<Pair>>, Vec<Pair>, Option<String>);

pub open spec fn pair_of(e: Expr) -> Result<Pair, Seq<char>> {
    match e {
        Expr::Tuple(elems) => if elems@.len() == 2 {
            match elems@[0] {
                Expr::Literal(n) => match elems@[1] {
                    Expr::Literal(d) => if d == 0 {
                        Err("ZeroDenominator: rational denominator must be > 0"@)
                    } else {
                        Ok((n, d))
                    },
                    _ => Err("InvalidASTPair: denominator must be an integer literal"@),
                },
                _ => Err("InvalidASTPair: numerator must be an integer literal"@),
            }
        } else {
            Err("InvalidASTPair: expected tuple expression (num, den)"@)
        },
        _ => Err("InvalidASTPair: expected tuple expression (num, den)"@),
    }
}

/// The pairs of `s`, or the first rejection.
pub open spec fn pairs_of(s: Seq<Expr>) -> Result<Seq<Pair>, Seq<char>>
    decreases s.len(),
{
    if s.len() == 0 {
        Ok(Seq::empty())
    } else {
        match pairs_of(s.drop_last()) {
            Err(m) => Err(m),
            Ok(ps) => match pair_of(s.last()) {
                Err(m) => Err(m),
                Ok(p) => Ok(ps.push(p)),
            },
        }
    }
}

pub open spec fn row_of(e: Expr) -> Result<Seq<Pair>, Seq<char>> {
    match e {
        Expr::Tuple(elems) => pairs_of(elems@),
        _ => Err("InvalidASTRow: expected tuple of rational pairs"@),
    }
}

/// The rows of `s`, or the first rejection.
pub open spec fn rows_of(s: Seq<Expr>) -> Result<Seq<Seq<Pair>>, Seq<char>>
    decreases s.len(),
{
    if s.len() == 0 {
        Ok(Seq::empty())
    } else {
        match rows_of(s.drop_last()) {
            Err(m) => Err(m),
            Ok(rs) => match row_of(s.last()) {
                Err(m) => Err(m),
                Ok(r) => Ok(rs.push(r)),
            },
        }
    }
}

pub open spec fn theorem_text() -> Seq<char> {
    "InvalidTheoremDeclaration: 'theorem' must be a string literal or dotted identifier path (e.g. Foundations.ADR.Foo.bar)"@
}

/// A theorem path: a string literal, an identifier, or a dotted field access of one.
pub open spec fn theorem_path(e: Expr) -> Result<Seq<char>, Seq<char>>
    decreases e,
{
    match e {
        Expr::StringLit(s) => Ok(s@),
        Expr::Ident(s) => Ok(s@),
        Expr::FieldAccess { obj, field } => match theorem_path(*obj) {
            Err(m) => Err(m),
            Ok(p) => Ok(p + "."@ + field@),
        },
        _ => Err(theorem_text()),
    }
}

/// Header bindings gathered so far: matrix, gains, theorem.
pub type HeaderView = (Option<Seq<Seq<Pair>>>, Option<Seq<Pair>>, Option<Seq<char>>);

pub open spec fn unexpected_let_text(name: Seq<char>) -> Seq<char> {
    "InvalidHeaderStatement: unexpected let binding 'let "@ + name + "' in envelope header per ADR-058"@
}

pub open spec fn quarantine_text() -> Seq<char> {
    "InvalidHeaderStatement: application statements are quarantined from the envelope header per ADR-058"@
}

pub open spec fn matrix_text() -> Seq<char> {
    "InvalidASTMatrix: 'let matrix' must be a nested tuple of rows"@
}

/// Effect of one header binding `let name = expr`.
pub open spec fn header_binding(h: HeaderView, name: Seq<char>, expr: Expr) -> Result<HeaderView, Seq<char>> {
    if name == "matrix"@ {
        match expr {
            Expr::Tuple(rows) => match rows_of(rows@) {
                Ok(m) => Ok((Some(m), h.1, h.2)),
                Err(e) => Err(e),
            },
            _ => Err(matrix_text()),
        }
    } else if name == "lambdas"@ {
        match row_of(expr) {
            Ok(l) => Ok((h.0, Some(l), h.2)),
            Err(e) => Err(e),
        }
    } else if name == "theorem"@ {
        match theorem_path(expr) {
            Ok(t) => Ok((h.0, h.1, Some(t))),
            Err(e) => Err(e),
        }
    } else {
        Err(unexpected_let_text(name))
    }
}

/// The header statements walked in order: only `let` bindings of `matrix`, `lambdas` and
/// `theorem` (later ones win), imports and ensemble declarations may stand there.
pub open spec fn header_walk(s: Seq<Stmt>) -> Result<HeaderView, Seq<char>>
    decreases s.len(),
{
    if s.len() == 0 {
        Ok((None, None, None))
    } else {
        match header_walk(s.drop_last()) {
            Err(m) => Err(m),
            Ok(h) => match s.last() {
                Stmt::Let { name, expr } => header_binding(h, name@, expr),
                Stmt::LetMut { name, expr } => header_binding(h, name@, expr),
                Stmt::Import(_) => Ok(h),
                Stmt::Ensemble(_) => Ok(h),
                _ => Err(quarantine_text()),
            },
        }
    }
}

/// The spectral parameters of a header, once its statements have been walked.
pub open spec fn header_params(h: Result<HeaderView, Seq<char>>) -> Result<HeaderView, Seq<char>> {
    match h {
        Err(m) => Err(m),
        Ok((None, _, _)) => Err("MissingSpectralParams: program AST does not declare 'let matrix = ...;' statement"@),
        Ok((_, None, _)) => Err("MissingSpectralParams: program AST does not declare 'let lambdas = ...;' statement"@),
        Ok((Some(m), Some(l), t)) => if m.len() == 0 || l.len() == 0 {
            Err("MissingSpectralParams: empty matrix or lambdas declared in AST"@)
        } else {
            Ok((Some(m), Some(l), t))
        },
    }
}

pub open spec fn params_view(p: SpectralParams) -> HeaderView {
    (
        Some(p.0@.map_values(|r: Vec<Pair>| r@)),
        Some(p.1@),
        match p.2 {
            Some(t) => Some(t@),
            None => None,
        },
    )
}

fn text(s: &str) -> (r: String)
    ensures
        r@ == s@,
{
    s.to_owned()
}

fn same_text(a: &String, b: &str) -> (r: bool)
    ensures
        r == (a@ == b@),
{
    let t = b.to_owned();
    *a == t
}

/// A rational literal `(num, den)` with a nonzero denominator.
pub fn parse_ast_pair(expr: &Expr) -> (r: Result<Pair, String>)
    ensures
        match pair_of(*expr) {
            Ok(p) => r == Ok::<Pair, String>(p),
            Err(m) => r matches Err(s) && s@ == m,
        },
{
    proof {
        reveal_strlit("ZeroDenominator: rational denominator must be > 0");
        reveal_strlit("InvalidASTPair: denominator must be an integer literal");
        reveal_strlit("InvalidASTPair: numerator must be an integer literal");
        reveal_strlit("InvalidASTPair: expected tuple expression (num, den)");
    }
    match expr {
        Expr::Tuple(elems) => {
            if elems.len() != 2 {
                return Err(text("InvalidASTPair: expected tuple expression (num, den)"));
            }
            let n = match &elems[0] {
                Expr::Literal(num) => *num,
                _ => {
                    return Err(text("InvalidASTPair: numerator must be an integer literal"));
                },
            };
            let d = match &elems[1] {
                Expr::Literal(den) => *den,
                _ => {
                    return Err(text("InvalidASTPair: denominator must be an integer literal"));
                },
            };
            if d == 0 {
                return Err(text("ZeroDenominator: rational denominator must be > 0"));
            }
            Ok((n, d))
        },
        _ => Err(text("InvalidASTPair: expected tuple expression (num, den)")),
    }
}

fn parse_pairs(es: &Vec<Expr>) -> (r: Result<Vec<Pair>, String>)
    ensures
        match pairs_of(es@) {
            Ok(ps) => r matches Ok(v) && v@ == ps,
            Err(m) => r matches Err(s) && s@ == m,
        },
{
    let mut row: Vec<Pair> = Vec::new();
    let mut i: usize = 0;
    while i < es.len()
        invariant
            0 <= i <= es@.len(),
            pairs_of(es@.take(i as int)) == Ok::<Seq<Pair>, Seq<char>>(row@),
        decreases es.len() - i,
    {
        proof {
            assert(es@.take(i + 1).drop_last() =~= es@.take(i as int));
        }
        match parse_ast_pair(&es[i]) {
            Ok(p) => {
                row.push(p);
            },
            Err(m) => {
                proof {
                    lemma_pairs_sticky(es@, i + 1, es@.len() as int);
                    assert(es@.take(es@.len() as int) =~= es@);
                }
                return Err(m);
            },
        }
        i = i + 1;
    }
    assert(es@.take(es@.len() as int) =~= es@);
    Ok(row)
}

proof fn lemma_pairs_sticky(s: Seq<Expr>, i: int, k: int)
    requires
        0 <= i <= k <= s.len(),
        pairs_of(s.take(i)) is Err,
    ensures
        pairs_of(s.take(k)) == pairs_of(s.take(i)),
    decreases k - i,
{
    if k > i {
        lemma_pairs_sticky(s, i, k - 1);
        assert(s.take(k).drop_last() =~= s.take(k - 1));
    }
}

proof fn lemma_rows_sticky(s: Seq<Expr>, i: int, k: int)
    requires
        0 <= i <= k <= s.len(),
        rows_of(s.take(i)) is Err,
    ensures
        rows_of(s.take(k)) == rows_of(s.take(i)),
    decreases k - i,
{
    if k > i {
        lemma_rows_sticky(s, i, k - 1);
        assert(s.take(k).drop_last() =~= s.take(k - 1));
    }
}

proof fn lemma_walk_sticky(s: Seq<Stmt>, i: int, k: int)
    requires
        0 <= i <= k <= s.len(),
        header_walk(s.take(i)) is Err,
    ensures
        header_walk(s.take(k)) == header_walk(s.take(i)),
    decreases k - i,
{
    if k > i {
        lemma_walk_sticky(s, i, k - 1);
        assert(s.take(k).drop_last() =~= s.take(k - 1));
    }
}

/// A row of rational literals.
pub fn parse_ast_row(expr: &Expr) -> (r: Result<Vec<Pair>, String>)
    ensures
        match row_of(*expr) {
            Ok(ps) => r matches Ok(v) && v@ == ps,
            Err(m) => r matches Err(s) && s@ == m,
        },
{
    match expr {
        Expr::Tuple(elems) => parse_pairs(elems),
        _ => {
            proof {
                reveal_strlit("InvalidASTRow: expected tuple of rational pairs");
            }
            Err(text("InvalidASTRow: expected tuple of rational pairs"))
        },
    }
}

fn parse_rows(rows: &Vec<Expr>) -> (r: Result<Vec<Vec<Pair>>, String>)
    ensures
        match rows_of(rows@) {
            Ok(m) => r matches Ok(v) && v@.map_values(|x: Vec<Pair>| x@) == m,
            Err(msg) => r matches Err(s) && s@ == msg,
        },
{
    let mut m: Vec<Vec<Pair>> = Vec::new();
    let mut i: usize = 0;
    assert(m@.map_values(|x: Vec<Pair>| x@) =~= Seq::<Seq<Pair>>::empty());
    while i < rows.len()
        invariant
            0 <= i <= rows@.len(),
            rows_of(rows@.take(i as int)) == Ok::<Seq<Seq<Pair>>, Seq<char>>(m@.map_values(|x: Vec<Pair>| x@)),
        decreases rows.len() - i,
    {
        proof {
            assert(rows@.take(i + 1).drop_last() =~= rows@.take(i as int));
        }
        match parse_ast_row(&rows[i]) {
            Ok(r) => {
                let ghost before = m@;
                m.push(r);
                assert(m@.map_values(|x: Vec<Pair>| x@) =~= before.map_values(|x: Vec<Pair>| x@).push(r@));
            },
            Err(e) => {
                proof {
                    lemma_rows_sticky(rows@, i + 1, rows@.len() as int);
                    assert(rows@.take(rows@.len() as int) =~= rows@);
                }
                return Err(e);
            },
        }
        i = i + 1;
    }
    assert(rows@.take(rows@.len() as int) =~= rows@);
    Ok(m)
}

/// A qualified theorem path from a string literal or a dotted identifier path.
pub fn flatten_theorem_expr(expr: &Expr) -> (r: Result<String, String>)
    ensures
        match theorem_path(*expr) {
            Ok(p) => r matches Ok(s) && s@ == p,
            Err(m) => r matches Err(s) && s@ == m,
        },
    decreases expr,
{
    match expr {
        Expr::StringLit(s) => Ok(s.clone()),
        Expr::Ident(s) => Ok(s.clone()),
        Expr::FieldAccess { obj, field } => {
            let mut prefix = match flatten_theorem_expr(obj) {
                Ok(p) => p,
                Err(m) => {
                    return Err(m);
                },
            };
            proof {
                reveal_strlit(".");
            }
            prefix.append(".");
            prefix.append(field.as_str());
            Ok(prefix)
        },
        _ => {
            proof {
                reveal_strlit(
                    "InvalidTheoremDeclaration: 'theorem' must be a string literal or dotted identifier path (e.g. Foundations.ADR.Foo.bar)",
                );
            }
            Err(
                text(
                    "InvalidTheoremDeclaration: 'theorem' must be a string literal or dotted identifier path (e.g. Foundations.ADR.Foo.bar)",
                ),
            )
        },
    }
}

type HeaderState = (Option<Vec<Vec<Pair>>>, Option<Vec<Pair>>, Option<String>);

spec fn state_view(h: HeaderState) -> HeaderView {
    (
        match h.0 {
            Some(m) => Some(m@.map_values(|x: Vec<Pair>| x@)),
            None => None,
        },
        match h.1 {
            Some(l) => Some(l@),
            None => None,
        },
        match h.2 {
            Some(t) => Some(t@),
            None => None,
        },
    )
}

fn apply_binding(h: HeaderState, name: &String, expr: &Expr) -> (r: Result<HeaderState, String>)
    ensures
        match header_binding(state_view(h), name@, *expr) {
            Ok(v) => r matches Ok(s) && state_view(s) == v,
            Err(m) => r matches Err(s) && s@ == m,
        },
{
    let (matrix, lambdas, theorem) = h;
    proof {
        reveal_strlit("matrix");
        reveal_strlit("lambdas");
        reveal_strlit("theorem");
    }
    if same_text(name, "matrix") {
        match expr {
            Expr::Tuple(rows) => match parse_rows(rows) {
                Ok(m) => Ok((Some(m), lambdas, theorem)),
                Err(e) => Err(e),
            },
            _ => {
                proof {
                    reveal_strlit("InvalidASTMatrix: 'let matrix' must be a nested tuple of rows");
                }
                Err(text("InvalidASTMatrix: 'let matrix' must be a nested tuple of rows"))
            },
        }
    } else if same_text(name, "lambdas") {
        match parse_ast_row(expr) {
            Ok(l) => Ok((matrix, Some(l), theorem)),
            Err(e) => Err(e),
        }
    } else if same_text(name, "theorem") {
        match flatten_theorem_expr(expr) {
            Ok(t) => Ok((matrix, lambdas, Some(t))),
            Err(e) => Err(e),
        }
    } else {
        proof {
            reveal_strlit("InvalidHeaderStatement: unexpected let binding 'let ");
            reveal_strlit("' in envelope header per ADR-058");
        }
        let mut s = text("InvalidHeaderStatement: unexpected let binding 'let ");
        s.append(name.as_str());
        s.append("' in envelope header per ADR-058");
        Err(s)
    }
}

/// Reads the spectral parameters off an envelope's parsed header: the body after the
/// delimiter may hold no further delimiter, the header must have parsed, and only the
/// `matrix`, `lambdas` and `theorem` bindings may stand in it, the first two non-empty.
pub fn spectral_params_from_header(body_text: &str, header: Result<Program, String>) -> (r: Result<
    SpectralParams,
    String,
>)
    ensures
        body_text@.len() != 0 && delimiter_from(body_text.spec_bytes(), 0, false, false, 0) is Some ==> (
        r matches Err(s) && s@
            == "MultipleHeaderDelimiters: multiple '---' header delimiters are strictly forbidden per ADR-061"@),
        !(body_text@.len() != 0 && delimiter_from(body_text.spec_bytes(), 0, false, false, 0) is Some) ==> (
        match header {
            Err(e) => r matches Err(s) && s@ == "ParseError in envelope header: "@ + e@,
            Ok(p) => match header_params(header_walk(p.stmts@)) {
                Ok(v) => r matches Ok(q) && params_view(q) == v,
                Err(m) => r matches Err(s) && s@ == m,
            },
        }),
{
    if body_text.unicode_len() != 0 && find_explicit_delimiter_line(body_text).is_some() {
        proof {
            reveal_strlit("MultipleHeaderDelimiters: multiple '---' header delimiters are strictly forbidden per ADR-061");
        }
        return Err(text("MultipleHeaderDelimiters: multiple '---' header delimiters are strictly forbidden per ADR-061"));
    }
    let program = match header {
        Ok(p) => p,
        Err(e) => {
            proof {
                reveal_strlit("ParseError in envelope header: ");
            }
            let mut s = text("ParseError in envelope header: ");
            s.append(e.as_str());
            return Err(s);
        },
    };
    let ghost ss = program.stmts@;
    let mut h: HeaderState = (None, None, None);
    let mut i: usize = 0;
    while i < program.stmts.len()
        invariant
            0 <= i <= ss.len(),
            ss == program.stmts@,
            !(body_text@.len() != 0 && delimiter_from(body_text.spec_bytes(), 0, false, false, 0) is Some),
            header matches Ok(p) && p.stmts@ == ss,
            header_walk(ss.take(i as int)) == Ok::<HeaderView, Seq<char>>(state_view(h)),
        decreases program.stmts.len() - i,
    {
        proof {
            assert(ss.take(i + 1).drop_last() =~= ss.take(i as int));
            assert(ss.take(i + 1).last() == ss[i as int]);
        }
        let step = match &program.stmts[i] {
            Stmt::Let { name, expr } => apply_binding(h, name, expr),
            Stmt::LetMut { name, expr } => apply_binding(h, name, expr),
            Stmt::Import(_) => Ok(h),
            Stmt::Ensemble(_) => Ok(h),
            _ => {
                proof {
                    reveal_strlit(
                        "InvalidHeaderStatement: application statements are quarantined from the envelope header per ADR-058",
                    );
                }
                Err(
                    text(
                        "InvalidHeaderStatement: application statements are quarantined from the envelope header per ADR-058",
                    ),
                )
            },
        };
        match step {
            Ok(h2) => {
                h = h2;
            },
            Err(e) => {
                proof {
                    lemma_walk_sticky(ss, i + 1, ss.len() as int);
                    assert(ss.take(ss.len() as int) =~= ss);
                }
                return Err(e);
            },
        }
        i = i + 1;
    }
    assert(ss.take(ss.len() as int) =~= ss);
    proof {
        reveal_strlit("MissingSpectralParams: program AST does not declare 'let matrix = ...;' statement");
        reveal_strlit("MissingSpectralParams: program AST does not declare 'let lambdas = ...;' statement");
        reveal_strlit("MissingSpectralParams: empty matrix or lambdas declared in AST");
    }
    let (matrix, lambdas, theorem) = h;
    let m = match matrix {
        Some(m) => m,
        None => {
            return Err(text("MissingSpectralParams: program AST does not declare 'let matrix = ...;' statement"));
        },
    };
    let l = match lambdas {
        Some(l) => l,
        None => {
            return Err(text("MissingSpectralParams: program AST does not declare 'let lambdas = ...;' statement"));
        },
    };
    if m.len() == 0 || l.len() == 0 {
        return Err(text("MissingSpectralParams: empty matrix or lambdas declared in AST"));
    }
    Ok((m, l, theorem))
}

/// The two daemon methods that certify an envelope.
#[derive(Debug, Clone, Copy, PartialEq, Eq, Structural)]
pub enum EnvelopeMethod {
    Compile,
    Validate,
}

pub open spec fn usable_rpc_theorem(rt: Seq<char>) -> bool {
    trim_chars(rt).len() != 0 && rt != "author_declared_lambda"@
}

pub open spec fn missing_anchor_text(m: EnvelopeMethod) -> Seq<char> {
    match m {
        EnvelopeMethod::Compile => "MissingTheoremAnchor: 'theorem_name' must be explicitly specified in header or RPC parameter per ADR-055"@,
        EnvelopeMethod::Validate => "MissingTheoremAnchor: 'theorem_name' is required and author_declared_lambda fallback is forbidden per ADR-055"@,
    }
}

pub open spec fn mismatch_text(ht: Seq<char>, rt: Seq<char>) -> Seq<char> {
    "TheoremAnchorMismatch: header declaration theorem '"@ + ht + "' does not match RPC parameter theorem_name '"@
        + rt + "' per ADR-055"@
}

/// The theorem anchor an envelope is certified under: the header's declaration, which a
/// usable RPC parameter must match, else a usable RPC parameter; the placeholder
/// `author_declared_lambda` and blank names are not usable.
pub open spec fn anchor_choice(m: EnvelopeMethod, header: Option<Seq<char>>, rpc: Option<Seq<char>>) -> Result<
    Seq<char>,
    Seq<char>,
> {
    match (header, rpc) {
        (Some(ht), Some(rt)) => if usable_rpc_theorem(rt) {
            if ht != rt {
                Err(mismatch_text(ht, rt))
            } else {
                Ok(ht)
            }
        } else {
            Ok(ht)
        },
        (Some(ht), None) => Ok(ht),
        (None, Some(rt)) => if usable_rpc_theorem(rt) {
            Ok(rt)
        } else {
            Err(missing_anchor_text(m))
        },
        (None, None) => Err(missing_anchor_text(m)),
    }
}

fn usable(rt: &str) -> (b: bool)
    ensures
        b == usable_rpc_theorem(rt@),
{
    let (a, e) = trim_bounds(rt);
    proof {
        reveal_strlit("author_declared_lambda");
    }
    let o = rt.to_owned();
    let placeholder = "author_declared_lambda".to_owned();
    a < e && !(o == placeholder)
}

/// Resolves the theorem anchor of an envelope from its header and the RPC parameter.
pub fn resolve_theorem(method: EnvelopeMethod, header: Option<String>, rpc: Option<&str>) -> (r: Result<
    String,
    String,
>)
    ensures
        match anchor_choice(
            method,
            match header {
                Some(h) => Some(h@),
                None => None,
            },
            match rpc {
                Some(x) => Some(x@),
                None => None,
            },
        ) {
            Ok(t) => r matches Ok(s) && s@ == t,
            Err(m) => r matches Err(s) && s@ == m,
        },
{
    proof {
        reveal_strlit(
            "MissingTheoremAnchor: 'theorem_name' must be explicitly specified in header or RPC parameter per ADR-055",
        );
        reveal_strlit(
            "MissingTheoremAnchor: 'theorem_name' is required and author_declared_lambda fallback is forbidden per ADR-055",
        );
        reveal_strlit("TheoremAnchorMismatch: header declaration theorem '");
        reveal_strlit("' does not match RPC parameter theorem_name '");
        reveal_strlit("' per ADR-055");
    }
    let missing = match method {
        EnvelopeMethod::Compile => text(
            "MissingTheoremAnchor: 'theorem_name' must be explicitly specified in header or RPC parameter per ADR-055",
        ),
        EnvelopeMethod::Validate => text(
            "MissingTheoremAnchor: 'theorem_name' is required and author_declared_lambda fallback is forbidden per ADR-055",
        ),
    };
    match (header, rpc) {
        (Some(ht), Some(rt)) => {
            if usable(rt) {
                if !same_text(&ht, rt) {
                    let mut s = text("TheoremAnchorMismatch: header declaration theorem '");
                    s.append(ht.as_str());
                    s.append("' does not match RPC parameter theorem_name '");
                    s.append(rt);
                    s.append("' per ADR-055");
                    return Err(s);
                }
                Ok(ht)
            } else {
                Ok(ht)
            }
        },
        (Some(ht), None) => Ok(ht),
        (None, Some(rt)) => {
            if usable(rt) {
                Ok(text(rt))
            } else {
                Err(missing)
            }
        },
        (None, None) => Err(missing),
    }
}

/// A `compile` request needs source text that is not blank.
pub fn check_source(source: Option<&str>) -> (r: Result<(), String>)
    ensures
        match source {
            Some(s) => (r is Ok) == (trim_chars(s@).len() != 0),
            None => r is Err,
        },
        r matches Err(m) ==> m@ == "MissingSourceCode: 'source' parameter is required and cannot be empty"@,
{
    proof {
        reveal_strlit("MissingSourceCode: 'source' parameter is required and cannot be empty");
    }
    match source {
        Some(s) => {
            let (a, e) = trim_bounds(s);
            if a < e {
                return Ok(());
            }
        },
        None => {},
    }
    Err(text("MissingSourceCode: 'source' parameter is required and cannot be empty"))
}


/// Every pair has a nonzero denominator.
pub open spec fn pairs_ok(ps: Seq<Pair>) -> bool {
    forall|i: int| 0 <= i < ps.len() ==> (#[trigger] ps[i]).1 != 0
}

/// The pairs as reduced rationals.
pub open spec fn rats_of(ps: Seq<Pair>) -> Seq<PosRat> {
    ps.map_values(
        |p: Pair|
            match rat_from(p.0 as nat, p.1 as nat) {
                Ok(q) => q,
                Err(_) => PosRat { num: 0, den: 1 },
            },
    )
}

pub open spec fn rows_ok(rows: Seq<Vec<Pair>>) -> bool {
    forall|i: int| 0 <= i < rows.len() ==> pairs_ok((#[trigger] rows[i])@)
}

pub open spec fn opt_view(o: Option<String>) -> Option<Seq<char>> {
    match o {
        Some(s) => Some(s@),
        None => None,
    }
}

pub open spec fn opt_str_view(o: Option<&str>) -> Option<Seq<char>> {
    match o {
        Some(s) => Some(s@),
        None => None,
    }
}

fn rats(ps: &Vec<Pair>) -> (r: Result<Vec<PosRat>, String>)
    ensures
        pairs_ok(ps@) ==> (r matches Ok(v) && v@ == rats_of(ps@)),
        !pairs_ok(ps@) ==> (r matches Err(s) && s@ == error_text(EnsembleError::InvalidRational)),
{
    let mut out: Vec<PosRat> = Vec::new();
    let mut i: usize = 0;
    while i < ps.len()
        invariant
            i <= ps@.len(),
            out@ == rats_of(ps@.take(i as int)),
            forall|k: int| 0 <= k < i ==> (#[trigger] ps@[k]).1 != 0,
        decreases ps@.len() - i,
    {
        let (n, d) = ps[i];
        match PosRat::new(n, d) {
            Ok(q) => {
                proof {
                    assert(rats_of(ps@.take(i + 1)) =~= rats_of(ps@.take(i as int)).push(q));
                }
                out.push(q);
            },
            Err(e) => {
                proof {
                    assert(!pairs_ok(ps@) && ps@[i as int].1 == 0);
                }
                return Err(e.message());
            },
        }
        i += 1;
    }
    proof {
        assert(ps@.take(ps@.len() as int) =~= ps@);
    }
    Ok(out)
}

/// The ensemble an envelope certifies: the header's parameters (or the error met reading
/// them), the theorem anchor resolved from the header and the RPC parameter, then the
/// matrix rows and the gains as reduced rationals, under `name`.
pub fn envelope_ensemble(
    method: EnvelopeMethod,
    name: &str,
    params: Result<SpectralParams, String>,
    rpc_theorem: Option<&str>,
) -> (r: Result<Ensemble, String>)
    ensures
        match params {
            Err(e) => r matches Err(s) && s@ == e@,
            Ok(p) => match anchor_choice(method, opt_view(p.2), opt_str_view(rpc_theorem)) {
                Err(m) => r matches Err(s) && s@ == m,
                Ok(t) => if rows_ok(p.0@) && pairs_ok(p.1@) {
                    r matches Ok(e) && e.name@ == name@ && e.theorem_name@ == t && e.adjacency@.len() == p.0@.len()
                        && (forall|i: int| 0 <= i < p.0@.len() ==> (#[trigger] e.adjacency@[i])@ == rats_of(p.0@[i]@))
                        && e.lambdas@ == rats_of(p.1@)
                } else {
                    r matches Err(s) && s@ == error_text(EnsembleError::InvalidRational)
                },
            },
        },
{
    let ghost p0 = params;
    let (matrix, lambdas, header_theorem) = match params {
        Ok(p) => p,
        Err(e) => {
            return Err(e);
        },
    };
    let theorem = resolve_theorem(method, header_theorem, rpc_theorem)?;
    let ghost t = theorem@;
    let mut rows: Vec<Vec<PosRat>> = Vec::new();
    let mut i: usize = 0;
    while i < matrix.len()
        invariant
            p0 == params,
            p0 matches Ok(p) && p.0 == matrix && p.1 == lambdas && anchor_choice(
                method,
                opt_view(p.2),
                opt_str_view(rpc_theorem),
            ) == Ok::<Seq<char>, Seq<char>>(t),
            i <= matrix@.len(),
            rows@.len() == i,
            forall|k: int| 0 <= k < i ==> (#[trigger] rows@[k])@ == rats_of(matrix@[k]@),
            forall|k: int| 0 <= k < i ==> pairs_ok((#[trigger] matrix@[k])@),
        decreases matrix@.len() - i,
    {
        let row = rats(&matrix[i])?;
        rows.push(row);
        i += 1;
    }
    let lams = rats(&lambdas)?;
    Ok(Ensemble::from_rationals(name, rows, lams).with_theorem_name(theorem.as_str()))
}

} // verus!
