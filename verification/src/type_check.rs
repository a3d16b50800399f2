use vstd::prelude::*;

verus! {

/// Types of the PIRTM core calculus.
#[derive(Debug)]
pub enum PirtmType {
    Stratum,
    Tensor(Vec<usize>),
    Transcendental { fn_name: String, arg: Box<PirtmType> },
}

/// Value-level picture of a [`PirtmType`].
pub enum TypeView {
    Stratum,
    Tensor(Seq<usize>),
    Transcendental { fn_name: Seq<char>, arg: Box<TypeView> },
}

pub open spec fn type_view(t: PirtmType) -> TypeView
    decreases t,
{
    match t {
        PirtmType::Stratum => TypeView::Stratum,
        PirtmType::Tensor(d) => TypeView::Tensor(d@),
        PirtmType::Transcendental { fn_name, arg } => TypeView::Transcendental {
            fn_name: fn_name@,
            arg: Box::new(type_view(*arg)),
        },
    }
}

impl View for PirtmType {
    type V = TypeView;

    open spec fn view(&self) -> TypeView {
        type_view(*self)
    }
}

/// Expressions of the PIRTM core calculus.
#[derive(Debug)]
pub enum PirtmExpr {
    Const(i64),
    Var(String),
    Add(Box<PirtmExpr>, Box<PirtmExpr>),
    Sin(Box<PirtmExpr>),
    Cos(Box<PirtmExpr>),
    Log(Box<PirtmExpr>),
    /// An operator applied to a tensor.
    TensorApply(Box<PirtmExpr>, Box<PirtmExpr>),
}

/// Type errors.
#[derive(Debug)]
pub enum TypeError {
    TypeMismatch { expected: PirtmType, actual: PirtmType },
    UndefinedVar { name: String },
    MultiplicityMismatch { op_mult: usize, in_mult: usize },
}

/// Value-level picture of a [`TypeError`].
pub enum TypeErrorView {
    TypeMismatch { expected: TypeView, actual: TypeView },
    UndefinedVar { name: Seq<char> },
    MultiplicityMismatch { op_mult: usize, in_mult: usize },
}

impl View for TypeError {
    type V = TypeErrorView;

    open spec fn view(&self) -> TypeErrorView {
        match *self {
            TypeError::TypeMismatch { expected, actual } => TypeErrorView::TypeMismatch {
                expected: expected@,
                actual: actual@,
            },
            TypeError::UndefinedVar { name } => TypeErrorView::UndefinedVar { name: name@ },
            TypeError::MultiplicityMismatch { op_mult, in_mult } => TypeErrorView::MultiplicityMismatch {
                op_mult,
                in_mult,
            },
        }
    }
}

/// Product of the dimensions.
pub open spec fn prod(s: Seq<usize>) -> nat
    decreases s.len(),
{
    if s.len() == 0 {
        1
    } else {
        prod(s.drop_last()) * (s.last() as nat)
    }
}

/// Every running product of the dimensions fits in `usize`.
pub open spec fn prod_fits(s: Seq<usize>) -> bool {
    forall|k: int| 0 <= k <= s.len() ==> #[trigger] prod(s.take(k)) <= usize::MAX
}

/// Type of the first binding of `name` in the context.
pub open spec fn lookup(ctx: Seq<(String, PirtmType)>, name: Seq<char>) -> Option<TypeView>
    decreases ctx.len(),
{
    if ctx.len() == 0 {
        None
    } else if ctx[0].0@ == name {
        Some(ctx[0].1@)
    } else {
        lookup(ctx.subrange(1, ctx.len() as int), name)
    }
}

pub open spec fn transcendental(name: Seq<char>) -> TypeView {
    TypeView::Transcendental { fn_name: name, arg: Box::new(TypeView::Stratum) }
}

/// The typing relation: the type of `e` in `ctx`, the type error, or `None` where a
/// multiplicity product would overflow `usize`.
pub open spec fn type_of(ctx: Seq<(String, PirtmType)>, e: PirtmExpr) -> Option<Result<TypeView, TypeErrorView>>
    decreases e,
{
    match e {
        PirtmExpr::Const(_) => Some(Ok(TypeView::Stratum)),
        PirtmExpr::Var(name) => match lookup(ctx, name@) {
            Some(t) => Some(Ok(t)),
            None => Some(Err(TypeErrorView::UndefinedVar { name: name@ })),
        },
        PirtmExpr::Add(a, b) => match type_of(ctx, *a) {
            None => None,
            Some(Err(x)) => Some(Err(x)),
            Some(Ok(t1)) => match type_of(ctx, *b) {
                None => None,
                Some(Err(x)) => Some(Err(x)),
                Some(Ok(t2)) => if t1 == t2 {
                    Some(Ok(t1))
                } else {
                    Some(Err(TypeErrorView::TypeMismatch { expected: t1, actual: t2 }))
                },
            },
        },
        PirtmExpr::TensorApply(op, input) => match type_of(ctx, *op) {
            None => None,
            Some(Err(x)) => Some(Err(x)),
            Some(Ok(t_op)) => match type_of(ctx, *input) {
                None => None,
                Some(Err(x)) => Some(Err(x)),
                Some(Ok(t_in)) => match (t_op, t_in) {
                    (TypeView::Tensor(od), TypeView::Tensor(id)) => if prod_fits(od) && prod_fits(id) && prod(od)
                        * prod(id) <= usize::MAX {
                        Some(Ok(TypeView::Tensor(seq![(prod(od) * prod(id)) as usize])))
                    } else {
                        None
                    },
                    (actual, _) => Some(
                        Err(TypeErrorView::TypeMismatch { expected: TypeView::Tensor(Seq::empty()), actual }),
                    ),
                },
            },
        },
        PirtmExpr::Sin(x) => match type_of(ctx, *x) {
            None => None,
            Some(Err(y)) => Some(Err(y)),
            Some(Ok(_)) => Some(Ok(transcendental("sin"@))),
        },
        PirtmExpr::Cos(x) => match type_of(ctx, *x) {
            None => None,
            Some(Err(y)) => Some(Err(y)),
            Some(Ok(_)) => Some(Ok(transcendental("cos"@))),
        },
        PirtmExpr::Log(x) => match type_of(ctx, *x) {
            None => None,
            Some(Err(y)) => Some(Err(y)),
            Some(Ok(_)) => Some(Ok(transcendental("log"@))),
        },
    }
}

pub open spec fn type_result_view(r: Result<PirtmType, TypeError>) -> Result<TypeView, TypeErrorView> {
    match r {
        Ok(t) => Ok(t@),
        Err(e) => Err(e@),
    }
}

fn str_eq(a: &String, b: &String) -> (r: bool)
    ensures
        r == (a@ == b@),
{
    *a == *b
}

fn dims_eq(a: &Vec<usize>, b: &Vec<usize>) -> (r: bool)
    ensures
        r == (a@ == b@),
{
    if a.len() != b.len() {
        return false;
    }
    let mut i: usize = 0;
    while i < a.len()
        invariant
            0 <= i <= a.len(),
            a.len() == b.len(),
            forall|k: int| 0 <= k < i ==> a@[k] == b@[k],
        decreases a.len() - i,
    {
        if a[i] != b[i] {
            return false;
        }
        i = i + 1;
    }
    assert(a@ =~= b@);
    true
}

fn copy_dims(a: &Vec<usize>) -> (r: Vec<usize>)
    ensures
        r@ == a@,
{
    let mut r: Vec<usize> = Vec::new();
    let mut i: usize = 0;
    while i < a.len()
        invariant
            0 <= i <= a.len(),
            r@ == a@.take(i as int),
        decreases a.len() - i,
    {
        r.push(a[i]);
        proof {
            assert(a@.take(i + 1) =~= a@.take(i as int).push(a@[i as int]));
        }
        i = i + 1;
    }
    assert(a@.take(a.len() as int) =~= a@);
    r
}

impl PirtmType {
    /// Structural equality of types.
    pub fn same_as(&self, other: &PirtmType) -> (r: bool)
        ensures
            r == (self@ == other@),
        decreases self,
    {
        match (self, other) {
            (PirtmType::Stratum, PirtmType::Stratum) => true,
            (PirtmType::Tensor(a), PirtmType::Tensor(b)) => dims_eq(a, b),
            (
                PirtmType::Transcendental { fn_name: n1, arg: a1 },
                PirtmType::Transcendental { fn_name: n2, arg: a2 },
            ) => {
                if !str_eq(n1, n2) {
                    return false;
                }
                let r = a1.same_as(a2);
                proof {
                    if r {
                        assert(type_view(**a1) == type_view(**a2));
                        assert(self@ == other@);
                    }
                }
                r
            },
            _ => false,
        }
    }

    /// A copy with the same view.
    pub fn duplicate(&self) -> (r: PirtmType)
        ensures
            r@ == self@,
        decreases self,
    {
        match self {
            PirtmType::Stratum => PirtmType::Stratum,
            PirtmType::Tensor(d) => PirtmType::Tensor(copy_dims(d)),
            PirtmType::Transcendental { fn_name, arg } => PirtmType::Transcendental {
                fn_name: fn_name.clone(),
                arg: Box::new(arg.duplicate()),
            },
        }
    }
}

fn product(dims: &Vec<usize>) -> (r: Option<usize>)
    ensures
        prod_fits(dims@) <==> r is Some,
        r matches Some(p) ==> p == prod(dims@),
{
    let mut acc: usize = 1;
    let mut i: usize = 0;
    assert(dims@.take(0) =~= Seq::<usize>::empty());
    while i < dims.len()
        invariant
            0 <= i <= dims.len(),
            acc == prod(dims@.take(i as int)),
            forall|k: int| 0 <= k <= i ==> #[trigger] prod(dims@.take(k)) <= usize::MAX,
        decreases dims.len() - i,
    {
        proof {
            assert(dims@.take(i + 1).drop_last() =~= dims@.take(i as int));
        }
        match acc.checked_mul(dims[i]) {
            Some(p) => {
                acc = p;
            },
            None => {
                assert(!(prod(dims@.take(i + 1)) <= usize::MAX));
                return None;
            },
        }
        i = i + 1;
    }
    assert(dims@.take(dims.len() as int) =~= dims@);
    Some(acc)
}

fn find_var(ctx: &[(String, PirtmType)], name: &String) -> (r: Option<PirtmType>)
    ensures
        match lookup(ctx@, name@) {
            Some(t) => r matches Some(u) && u@ == t,
            None => r is None,
        },
{
    let mut i: usize = 0;
    assert(ctx@.subrange(0, ctx@.len() as int) =~= ctx@);
    while i < ctx.len()
        invariant
            0 <= i <= ctx@.len(),
            lookup(ctx@, name@) == lookup(ctx@.subrange(i as int, ctx@.len() as int), name@),
        decreases ctx.len() - i,
    {
        proof {
            let rest = ctx@.subrange(i as int, ctx@.len() as int);
            assert(rest.subrange(1, rest.len() as int) =~= ctx@.subrange(i + 1, ctx@.len() as int));
            assert(rest[0] == ctx@[i as int]);
        }
        if str_eq(&ctx[i].0, name) {
            return Some(ctx[i].1.duplicate());
        }
        i = i + 1;
    }
    None
}

/// Type of `expr` in `ctx`, or `None` where a multiplicity product would overflow `usize`.
pub fn try_type_check(ctx: &[(String, PirtmType)], expr: &PirtmExpr) -> (r: Option<Result<PirtmType, TypeError>>)
    ensures
        match type_of(ctx@, *expr) {
            None => r is None,
            Some(t) => r matches Some(x) && type_result_view(x) == t,
        },
    decreases expr,
{
    match expr {
        PirtmExpr::Const(_) => Some(Ok(PirtmType::Stratum)),
        PirtmExpr::Var(name) => match find_var(ctx, name) {
            Some(t) => Some(Ok(t)),
            None => Some(Err(TypeError::UndefinedVar { name: name.clone() })),
        },
        PirtmExpr::Add(a, b) => {
            let t1 = match try_type_check(ctx, a) {
                None => {
                    return None;
                },
                Some(Err(x)) => {
                    return Some(Err(x));
                },
                Some(Ok(t)) => t,
            };
            let t2 = match try_type_check(ctx, b) {
                None => {
                    return None;
                },
                Some(Err(x)) => {
                    return Some(Err(x));
                },
                Some(Ok(t)) => t,
            };
            if t1.same_as(&t2) {
                Some(Ok(t1))
            } else {
                Some(Err(TypeError::TypeMismatch { expected: t1, actual: t2 }))
            }
        },
        PirtmExpr::TensorApply(op, input) => {
            let t_op = match try_type_check(ctx, op) {
                None => {
                    return None;
                },
                Some(Err(x)) => {
                    return Some(Err(x));
                },
                Some(Ok(t)) => t,
            };
            let t_in = match try_type_check(ctx, input) {
                None => {
                    return None;
                },
                Some(Err(x)) => {
                    return Some(Err(x));
                },
                Some(Ok(t)) => t,
            };
            match (t_op, t_in) {
                (PirtmType::Tensor(od), PirtmType::Tensor(id)) => {
                    let op_mult = match product(&od) {
                        Some(p) => p,
                        None => {
                            return None;
                        },
                    };
                    let in_mult = match product(&id) {
                        Some(p) => p,
                        None => {
                            return None;
                        },
                    };
                    match op_mult.checked_mul(in_mult) {
                        Some(m) => {
                            let out = vec![m];
                            assert(out@ =~= seq![m]);
                            Some(Ok(PirtmType::Tensor(out)))
                        },
                        None => None,
                    }
                },
                (actual, _) => {
                    let empty: Vec<usize> = Vec::new();
                    Some(Err(TypeError::TypeMismatch { expected: PirtmType::Tensor(empty), actual }))
                },
            }
        },
        PirtmExpr::Sin(x) | PirtmExpr::Cos(x) | PirtmExpr::Log(x) => {
            match try_type_check(ctx, x) {
                None => {
                    return None;
                },
                Some(Err(y)) => {
                    return Some(Err(y));
                },
                Some(Ok(_)) => {},
            }
            let name = match expr {
                PirtmExpr::Sin(_) => {
                    proof {
                        reveal_strlit("sin");
                    }
                    String::from_str("sin")
                },
                PirtmExpr::Cos(_) => {
                    proof {
                        reveal_strlit("cos");
                    }
                    String::from_str("cos")
                },
                _ => {
                    proof {
                        reveal_strlit("log");
                    }
                    String::from_str("log")
                },
            };
            Some(Ok(PirtmType::Transcendental { fn_name: name, arg: Box::new(PirtmType::Stratum) }))
        },
    }
}

/// Type of `expr` in `ctx`.
pub fn type_check(ctx: &[(String, PirtmType)], expr: &PirtmExpr) -> (r: Result<PirtmType, TypeError>)
    requires
        type_of(ctx@, *expr) is Some,
    ensures
        type_of(ctx@, *expr) == Some(type_result_view(r)),
{
    match try_type_check(ctx, expr) {
        Some(r) => r,
        None => Err(TypeError::MultiplicityMismatch { op_mult: 0, in_mult: 0 }),
    }
}

/// Reference multiplicity of an expression when every variable stands for a tensor of
/// multiplicity two: an application multiplies the multiplicities of its operands.
pub open spec fn spec_expected_multiplicity(e: PirtmExpr) -> nat
    decreases e,
{
    match e {
        PirtmExpr::Var(_) => 2,
        PirtmExpr::TensorApply(op, t) => spec_expected_multiplicity(*op) * spec_expected_multiplicity(*t),
        _ => 1,
    }
}

proof fn lemma_expected_positive(e: PirtmExpr)
    ensures
        spec_expected_multiplicity(e) >= 1,
    decreases e,
{
    if let PirtmExpr::TensorApply(op, t) = e {
        lemma_expected_positive(*op);
        lemma_expected_positive(*t);
        let a = spec_expected_multiplicity(*op);
        let b = spec_expected_multiplicity(*t);
        assert(a * b >= 1) by (nonlinear_arith)
            requires
                a >= 1,
                b >= 1,
        ;
    }
}

/// Reference multiplicity of `expr`.
pub fn expected_multiplicity(expr: &PirtmExpr) -> (m: usize)
    requires
        spec_expected_multiplicity(*expr) <= usize::MAX,
    ensures
        m == spec_expected_multiplicity(*expr),
    decreases expr,
{
    match expr {
        PirtmExpr::Var(_) => 2,
        PirtmExpr::TensorApply(op, t) => {
            proof {
                lemma_expected_positive(**op);
                lemma_expected_positive(**t);
                let a = spec_expected_multiplicity(**op);
                let b = spec_expected_multiplicity(**t);
                assert(a <= a * b && b <= a * b) by (nonlinear_arith)
                    requires
                        a >= 1,
                        b >= 1,
                ;
            }
            let a = expected_multiplicity(op);
            let b = expected_multiplicity(t);
            a * b
        },
        _ => 1,
    }
}

/// Expressions built from variables bound to tensors of multiplicity two by operator
/// applications.
pub open spec fn tensor_tree(ctx: Seq<(String, PirtmType)>, e: PirtmExpr) -> bool
    decreases e,
{
    match e {
        PirtmExpr::Var(n) => lookup(ctx, n@) == Some(TypeView::Tensor(seq![2usize])),
        PirtmExpr::TensorApply(op, t) => tensor_tree(ctx, *op) && tensor_tree(ctx, *t),
        _ => false,
    }
}

proof fn lemma_prod_single(m: usize)
    ensures
        prod(seq![m]) == m,
        prod_fits(seq![m]),
{
    let s = seq![m];
    assert(s.len() == 1);
    assert(s.drop_last() =~= Seq::<usize>::empty());
    assert(prod(s.drop_last()) == 1);
    assert(s.last() == m);
    assert(prod(s) == 1 * (m as nat));
    assert forall|k: int| 0 <= k <= 1 implies #[trigger] prod(seq![m].take(k)) <= usize::MAX by {
        if k == 0 {
            assert(seq![m].take(k) =~= Seq::<usize>::empty());
        } else {
            assert(seq![m].take(k) =~= seq![m]);
        }
    }
}

/// Multiplicity conservation: applying an operator to a tensor multiplies their
/// multiplicities, so a tree of applications over multiplicity-two tensors types as a
/// tensor whose multiplicity is the reference one; the checker gives up (by overflow)
/// exactly when that multiplicity exceeds `usize`.
pub proof fn law_multiplicity_conservation(ctx: Seq<(String, PirtmType)>, e: PirtmExpr)
    requires
        tensor_tree(ctx, e),
    ensures
        type_of(ctx, e) is Some <==> spec_expected_multiplicity(e) <= usize::MAX,
        type_of(ctx, e) matches Some(r) ==> r matches Ok(TypeView::Tensor(d)) && d.len() == 1 && prod(d)
            == spec_expected_multiplicity(e),
    decreases e,
{
    lemma_expected_positive(e);
    match e {
        PirtmExpr::Var(n) => {
            lemma_prod_single(2);
        },
        PirtmExpr::TensorApply(op, t) => {
            law_multiplicity_conservation(ctx, *op);
            law_multiplicity_conservation(ctx, *t);
            lemma_expected_positive(*op);
            lemma_expected_positive(*t);
            let a = spec_expected_multiplicity(*op);
            let b = spec_expected_multiplicity(*t);
            assert(a <= a * b && b <= a * b) by (nonlinear_arith)
                requires
                    a >= 1,
                    b >= 1,
            ;
            if let (Some(Ok(TypeView::Tensor(od))), Some(Ok(TypeView::Tensor(id)))) = (
                type_of(ctx, *op),
                type_of(ctx, *t),
            ) {
                lemma_prod_single(od[0]);
                lemma_prod_single(id[0]);
                assert(od =~= seq![od[0]]);
                assert(id =~= seq![id[0]]);
                if a * b <= usize::MAX {
                    lemma_prod_single((a * b) as usize);
                }
            }
        },
        _ => {},
    }
}

/// Atoms type as declared: a constant is always a stratum, and a variable takes the type of
/// its first binding in the context (an unbound one is an undefined-variable error).
pub proof fn law_atom_types(ctx: Seq<(String, PirtmType)>, c: i64, name: String)
    ensures
        type_of(ctx, PirtmExpr::Const(c)) == Some(Ok::<TypeView, TypeErrorView>(TypeView::Stratum)),
        lookup(ctx, name@) matches Some(t) ==> type_of(ctx, PirtmExpr::Var(name)) == Some(
            Ok::<TypeView, TypeErrorView>(t),
        ),
        lookup(ctx, name@) is None ==> type_of(ctx, PirtmExpr::Var(name)) == Some(
            Err::<TypeView, TypeErrorView>(TypeErrorView::UndefinedVar { name: name@ }),
        ),
{
}

/// A sum is typed only when both operands have one and the same type, and then it has that
/// type: an operand's error comes first (left before right), and operands of two different
/// types are a mismatch that names the left type as expected and the right one as found.
pub proof fn law_add_types(ctx: Seq<(String, PirtmType)>, a: PirtmExpr, b: PirtmExpr, t: TypeView, u: TypeView)
    ensures
        type_of(ctx, PirtmExpr::Add(Box::new(a), Box::new(b))) == Some(Ok::<TypeView, TypeErrorView>(t)) ==> type_of(
            ctx,
            a,
        ) == Some(Ok::<TypeView, TypeErrorView>(t)) && type_of(ctx, b) == Some(Ok::<TypeView, TypeErrorView>(t)),
        type_of(ctx, a) == Some(Ok::<TypeView, TypeErrorView>(t)) && type_of(ctx, b) == Some(
            Ok::<TypeView, TypeErrorView>(t),
        ) ==> type_of(ctx, PirtmExpr::Add(Box::new(a), Box::new(b))) == Some(Ok::<TypeView, TypeErrorView>(t)),
        type_of(ctx, a) == Some(Ok::<TypeView, TypeErrorView>(t)) && type_of(ctx, b) == Some(
            Ok::<TypeView, TypeErrorView>(u),
        ) && t != u ==> type_of(ctx, PirtmExpr::Add(Box::new(a), Box::new(b))) == Some(
            Err::<TypeView, TypeErrorView>(TypeErrorView::TypeMismatch { expected: t, actual: u }),
        ),
        type_of(ctx, a) matches Some(Err(x)) ==> type_of(ctx, PirtmExpr::Add(Box::new(a), Box::new(b))) == Some(
            Err::<TypeView, TypeErrorView>(x),
        ),
{
}

/// A transcendental function types exactly when its argument does, as a transcendental of
/// that function over a stratum, and passes on the argument's error.
pub proof fn law_transcendental_types(ctx: Seq<(String, PirtmType)>, x: PirtmExpr)
    ensures
        type_of(ctx, x) matches Some(Ok(_)) ==> type_of(ctx, PirtmExpr::Sin(Box::new(x))) == Some(
            Ok::<TypeView, TypeErrorView>(transcendental("sin"@)),
        ) && type_of(ctx, PirtmExpr::Cos(Box::new(x))) == Some(Ok::<TypeView, TypeErrorView>(transcendental("cos"@)))
            && type_of(ctx, PirtmExpr::Log(Box::new(x))) == Some(Ok::<TypeView, TypeErrorView>(transcendental("log"@))),
        type_of(ctx, x) matches Some(Err(y)) ==> type_of(ctx, PirtmExpr::Sin(Box::new(x))) == Some(
            Err::<TypeView, TypeErrorView>(y),
        ),
{
}

} // verus!
