//! Operator-first arithmetic: exact rational intervals over arbitrary-precision integers,
//! terms of the initial algebra and its endomorphisms.
use vstd::prelude::*;
use num_bigint::{BigInt, Sign};
use vstd::string::StrSliceExecFns;
use crate::decimal::{decimal, push_decimal};
use crate::digest::{hex_digit, hex_str, hex_lower, sha256_of, sha256_hex};
use crate::clock::timestamp_now;

verus! {

/// `256^n`.
pub open spec fn pow256(n: nat) -> nat
    decreases n,
{
    if n == 0 {
        1
    } else {
        256 * pow256((n - 1) as nat)
    }
}

/// Unsigned value of little-endian base-256 digits.
pub open spec fn unsigned_le(b: Seq<u8>) -> nat
    decreases b.len(),
{
    if b.len() == 0 {
        0
    } else {
        b[0] as nat + 256 * unsigned_le(b.drop_first())
    }
}

/// Value of little-endian two's-complement bytes (the empty sequence is zero).
pub open spec fn signed_le(b: Seq<u8>) -> int {
    if b.len() > 0 && b.last() >= 128 {
        unsigned_le(b) - pow256(b.len())
    } else {
        unsigned_le(b) as int
    }
}

/// An arbitrary-precision integer, held as its little-endian two's-complement bytes.
#[derive(Debug, Clone, PartialEq, Eq)]
pub struct Big {
    pub bytes: Vec<u8>,
}

impl Big {
    /// The integer the bytes stand for.
    pub open spec fn value(&self) -> int {
        signed_le(self.bytes@)
    }
}

/// Calls `BigInt::from(i64)` and `BigInt::to_signed_bytes_le`: the bytes of `v`.
#[verifier::external_body]
fn big_from_i64(v: i64) -> (r: Big)
    ensures
        r.value() == v,
{
    Big { bytes: BigInt::from(v).to_signed_bytes_le() }
}

/// Calls `+` on two `BigInt` (read with `BigInt::from_signed_bytes_le`): the exact sum.
#[verifier::external_body]
fn big_add(a: &Big, b: &Big) -> (r: Big)
    ensures
        r.value() == a.value() + b.value(),
{
    let x = BigInt::from_signed_bytes_le(&a.bytes) + BigInt::from_signed_bytes_le(&b.bytes);
    Big { bytes: x.to_signed_bytes_le() }
}

/// Calls `-` on two `BigInt`: the exact difference.
#[verifier::external_body]
fn big_sub(a: &Big, b: &Big) -> (r: Big)
    ensures
        r.value() == a.value() - b.value(),
{
    let x = BigInt::from_signed_bytes_le(&a.bytes) - BigInt::from_signed_bytes_le(&b.bytes);
    Big { bytes: x.to_signed_bytes_le() }
}

/// Calls `*` on two `BigInt`: the exact product.
#[verifier::external_body]
fn big_mul(a: &Big, b: &Big) -> (r: Big)
    ensures
        r.value() == a.value() * b.value(),
{
    let x = BigInt::from_signed_bytes_le(&a.bytes) * BigInt::from_signed_bytes_le(&b.bytes);
    Big { bytes: x.to_signed_bytes_le() }
}

/// Calls `<` on two `BigInt`: their exact order.
#[verifier::external_body]
fn big_lt(a: &Big, b: &Big) -> (r: bool)
    ensures
        r == (a.value() < b.value()),
{
    BigInt::from_signed_bytes_le(&a.bytes) < BigInt::from_signed_bytes_le(&b.bytes)
}

impl Big {
    /// The integer `v`.
    pub fn from_i64(v: i64) -> (r: Big)
        ensures
            r.value() == v,
    {
        big_from_i64(v)
    }
}

/// Exact rational interval `[lower/denominator, upper/denominator]`.
#[derive(Debug, Clone, PartialEq, Eq)]
pub struct RatInterval {
    pub lower: Big,
    pub upper: Big,
    pub denominator: Big,
}

pub open spec fn min4(a: int, b: int, c: int, d: int) -> int {
    let m1 = if b < a { b } else { a };
    let m2 = if c < m1 { c } else { m1 };
    if d < m2 { d } else { m2 }
}

pub open spec fn max4(a: int, b: int, c: int, d: int) -> int {
    let m1 = if a < b { b } else { a };
    let m2 = if m1 < c { c } else { m1 };
    if m2 < d { d } else { m2 }
}

impl RatInterval {
    /// `(lower, upper, denominator)` as integers.
    pub open spec fn view_ints(&self) -> (int, int, int) {
        (self.lower.value(), self.upper.value(), self.denominator.value())
    }

    /// The interval `[lower, upper] / denominator`; the bounds must be ordered and the
    /// denominator positive.
    pub fn new(lower: Big, upper: Big, denominator: Big) -> (r: RatInterval)
        requires
            lower.value() <= upper.value(),
            denominator.value() > 0,
        ensures
            r.lower == lower,
            r.upper == upper,
            r.denominator == denominator,
    {
        RatInterval { lower, upper, denominator }
    }

    /// The one-point interval `q / denom`.
    pub fn singleton(q: Big, denom: Big) -> (r: RatInterval)
        requires
            denom.value() > 0,
        ensures
            r.lower == q,
            r.upper.value() == q.value(),
            r.denominator == denom,
    {
        let upper = Big { bytes: q.bytes.clone() };
        proof {
            assert(upper.bytes@ == q.bytes@);
        }
        RatInterval::new(q, upper, denom)
    }

    /// Interval sum over the product of the denominators.
    pub fn add(&self, other: &RatInterval) -> (r: RatInterval)
        ensures
            r.denominator.value() == self.denominator.value() * other.denominator.value(),
            r.lower.value() == self.lower.value() * other.denominator.value()
                + other.lower.value() * self.denominator.value(),
            r.upper.value() == self.upper.value() * other.denominator.value()
                + other.upper.value() * self.denominator.value(),
    {
        let common_denom = big_mul(&self.denominator, &other.denominator);
        let self_num = big_mul(&self.lower, &other.denominator);
        let other_num_l = big_mul(&other.lower, &self.denominator);
        let self_num_u = big_mul(&self.upper, &other.denominator);
        let other_num_u = big_mul(&other.upper, &self.denominator);
        RatInterval {
            lower: big_add(&self_num, &other_num_l),
            upper: big_add(&self_num_u, &other_num_u),
            denominator: common_denom,
        }
    }

    /// Interval product: the least and greatest of the four bound products, over the
    /// product of the denominators.
    pub fn mul(&self, other: &RatInterval) -> (r: RatInterval)
        ensures
            r.denominator.value() == self.denominator.value() * other.denominator.value(),
            r.lower.value() == min4(
                self.lower.value() * other.lower.value(),
                self.lower.value() * other.upper.value(),
                self.upper.value() * other.lower.value(),
                self.upper.value() * other.upper.value(),
            ),
            r.upper.value() == max4(
                self.lower.value() * other.lower.value(),
                self.lower.value() * other.upper.value(),
                self.upper.value() * other.lower.value(),
                self.upper.value() * other.upper.value(),
            ),
    {
        let common_denom = big_mul(&self.denominator, &other.denominator);
        let c0 = big_mul(&self.lower, &other.lower);
        let c1 = big_mul(&self.lower, &other.upper);
        let c2 = big_mul(&self.upper, &other.lower);
        let c3 = big_mul(&self.upper, &other.upper);
        let m1 = if big_lt(&c1, &c0) { &c1 } else { &c0 };
        let m2 = if big_lt(&c2, m1) { &c2 } else { m1 };
        let min = if big_lt(&c3, m2) { &c3 } else { m2 };
        let x1 = if big_lt(&c0, &c1) { &c1 } else { &c0 };
        let x2 = if big_lt(x1, &c2) { &c2 } else { x1 };
        let max = if big_lt(x2, &c3) { &c3 } else { x2 };
        let lower = Big { bytes: min.bytes.clone() };
        let upper = Big { bytes: max.bytes.clone() };
        proof {
            assert(lower.bytes@ == min.bytes@);
            assert(upper.bytes@ == max.bytes@);
        }
        RatInterval { lower, upper, denominator: common_denom }
    }

    /// `upper - lower`.
    pub fn width(&self) -> (r: Big)
        ensures
            r.value() == self.upper.value() - self.lower.value(),
    {
        big_sub(&self.upper, &self.lower)
    }

    /// Whether the width is below `lip_bound`.
    pub fn is_contractive(&self, lip_bound: &Big) -> (r: bool)
        ensures
            r == (self.upper.value() - self.lower.value() < lip_bound.value()),
    {
        let w = self.width();
        big_lt(&w, lip_bound)
    }
}


/// Operator symbol with arity and contraction bound.
#[derive(Debug, Clone, PartialEq, Eq)]
pub struct OpSymbol {
    pub name: String,
    pub arity: usize,
    pub lip_bound: RatInterval,
}

/// Terms of the initial algebra over an operator signature.
#[derive(Debug, PartialEq, Eq)]
pub enum Term {
    Var { name: String },
    App { op: OpSymbol, args: Vec<Term> },
}

/// Nesting depth of applications: `0` for a variable.
pub open spec fn term_depth(t: Term) -> nat
    decreases t, 0int,
{
    match t {
        Term::Var { .. } => 0,
        Term::App { args, .. } => 1 + max_depth_upto(args, args.len() as int),
    }
}

/// The largest depth among the first `k` terms of `args` (`0` for none).
pub open spec fn max_depth_upto(args: Vec<Term>, k: int) -> nat
    decreases args, k,
{
    if k <= 0 || k > args.len() {
        0
    } else {
        let m = max_depth_upto(args, k - 1);
        let d = term_depth(args[k - 1]);
        if d > m {
            d
        } else {
            m
        }
    }
}

/// Number of nodes: variables and applications.
pub open spec fn term_size(t: Term) -> nat
    decreases t, 0int,
{
    match t {
        Term::Var { .. } => 1,
        Term::App { args, .. } => 1 + sum_size_upto(args, args.len() as int),
    }
}

/// The summed sizes of the first `k` terms of `args`.
pub open spec fn sum_size_upto(args: Vec<Term>, k: int) -> nat
    decreases args, k,
{
    if k <= 0 || k > args.len() {
        0
    } else {
        sum_size_upto(args, k - 1) + term_size(args[k - 1])
    }
}

proof fn lemma_depth_below_size(t: Term)
    ensures
        term_depth(t) <= term_size(t),
    decreases t, 0int,
{
    if let Term::App { args, .. } = t {
        lemma_max_below_sum(args, args.len() as int);
    }
}

proof fn lemma_max_below_sum(args: Vec<Term>, k: int)
    requires
        0 <= k <= args.len(),
    ensures
        max_depth_upto(args, k) <= sum_size_upto(args, k),
    decreases args, k,
{
    if k > 0 {
        lemma_max_below_sum(args, k - 1);
        lemma_depth_below_size(args[k - 1]);
    }
}

proof fn lemma_sum_grows(args: Vec<Term>, j: int, k: int)
    requires
        0 <= j < k <= args.len(),
    ensures
        sum_size_upto(args, j) + term_size(args[j]) <= sum_size_upto(args, k),
    decreases k,
{
    if j < k - 1 {
        lemma_sum_grows(args, j, k - 1);
    }
}

impl Term {
    /// Nesting depth of applications.
    pub fn depth(&self) -> (r: usize)
        requires
            term_size(*self) <= usize::MAX,
        ensures
            r == term_depth(*self),
        decreases self,
    {
        match self {
            Term::Var { .. } => 0,
            Term::App { args, .. } => {
                proof {
                    lemma_depth_below_size(*self);
                }
                let mut m: usize = 0;
                let mut i: usize = 0;
                while i < args.len()
                    invariant
                        i <= args.len(),
                        m == max_depth_upto(*args, i as int),
                        *self == (Term::App { op: self->op, args: *args }),
                        term_size(*self) <= usize::MAX,
                        term_depth(*self) <= term_size(*self),
                    decreases args.len() - i,
                {
                    proof {
                        lemma_sum_grows(*args, i as int, args.len() as int);
                        lemma_max_below_sum(*args, i as int + 1);
                    }
                    let d = args[i].depth();
                    if d > m {
                        m = d;
                    }
                    i += 1;
                }
                1 + m
            },
        }
    }

    /// Number of nodes.
    pub fn size(&self) -> (r: usize)
        requires
            term_size(*self) <= usize::MAX,
        ensures
            r == term_size(*self),
        decreases self,
    {
        match self {
            Term::Var { .. } => 1,
            Term::App { args, .. } => {
                let mut total: usize = 0;
                let mut i: usize = 0;
                while i < args.len()
                    invariant
                        i <= args.len(),
                        total == sum_size_upto(*args, i as int),
                        *self == (Term::App { op: self->op, args: *args }),
                        term_size(*self) <= usize::MAX,
                    decreases args.len() - i,
                {
                    proof {
                        lemma_sum_grows(*args, i as int, args.len() as int);
                    }
                    let d = args[i].size();
                    total = total + d;
                    i += 1;
                }
                1 + total
            },
        }
    }
}


/// `x` (over `iv.denominator`) lies in the interval.
pub open spec fn contains(iv: (int, int, int), x: int) -> bool {
    iv.0 <= x <= iv.1
}

/// Interval addition is sound: the sum of two points of the operands, over the product of
/// the denominators, is a point of the sum.
pub proof fn law_add_contains(a: (int, int, int), b: (int, int, int), x: int, y: int)
    requires
        a.2 > 0,
        b.2 > 0,
        contains(a, x),
        contains(b, y),
    ensures
        contains(
            (a.0 * b.2 + b.0 * a.2, a.1 * b.2 + b.1 * a.2, a.2 * b.2),
            x * b.2 + y * a.2,
        ),
{
    assert(a.0 * b.2 <= x * b.2 <= a.1 * b.2) by (nonlinear_arith)
        requires
            a.0 <= x <= a.1,
            b.2 > 0,
    ;
    assert(b.0 * a.2 <= y * a.2 <= b.1 * a.2) by (nonlinear_arith)
        requires
            b.0 <= y <= b.1,
            a.2 > 0,
    ;
}

proof fn lemma_between_corners(l: int, u: int, y: int, x: int)
    requires
        l <= x <= u,
    ensures
        (l * y <= x * y <= u * y) || (u * y <= x * y <= l * y),
{
    if y >= 0 {
        assert(l * y <= x * y <= u * y) by (nonlinear_arith)
            requires
                l <= x <= u,
                y >= 0,
        ;
    } else {
        assert(u * y <= x * y <= l * y) by (nonlinear_arith)
            requires
                l <= x <= u,
                y < 0,
        ;
    }
}

/// Interval multiplication is sound: the product of two points of the operands is a point
/// of the product.
pub proof fn law_mul_contains(a: (int, int, int), b: (int, int, int), x: int, y: int)
    requires
        contains(a, x),
        contains(b, y),
    ensures
        min4(a.0 * b.0, a.0 * b.1, a.1 * b.0, a.1 * b.1) <= x * y <= max4(
            a.0 * b.0,
            a.0 * b.1,
            a.1 * b.0,
            a.1 * b.1,
        ),
{
    lemma_between_corners(a.0, a.1, y, x);
    lemma_between_corners(b.0, b.1, a.0, y);
    lemma_between_corners(b.0, b.1, a.1, y);
    assert(a.0 * y == y * a.0 && a.1 * y == y * a.1) by (nonlinear_arith);
    assert(b.0 * a.0 == a.0 * b.0 && b.1 * a.0 == a.0 * b.1 && b.0 * a.1 == a.1 * b.0 && b.1 * a.1 == a.1 * b.1)
        by (nonlinear_arith);
    assert(y * a.0 == a.0 * y && y * a.1 == a.1 * y) by (nonlinear_arith);
}

/// An operator symbol as values: name, arity and the bounds of its contraction interval.
pub ghost struct OpV {
    pub name: Seq<char>,
    pub arity: nat,
    pub lip: (int, int, int),
}

/// A term as values.
pub ghost enum TermV {
    Var(Seq<char>),
    App(OpV, Seq<TermV>),
}

impl View for OpSymbol {
    type V = OpV;

    open spec fn view(&self) -> OpV {
        OpV { name: self.name@, arity: self.arity as nat, lip: self.lip_bound.view_ints() }
    }
}

pub open spec fn term_view(t: Term) -> TermV
    decreases t, 0int,
{
    match t {
        Term::Var { name } => TermV::Var(name@),
        Term::App { op, args } => TermV::App(op@, args_view(args, args.len() as int)),
    }
}

/// Views of the first `k` terms of `args`.
pub open spec fn args_view(args: Vec<Term>, k: int) -> Seq<TermV>
    decreases args, k,
{
    if k <= 0 || k > args.len() {
        Seq::empty()
    } else {
        args_view(args, k - 1).push(term_view(args[k - 1]))
    }
}

impl View for Term {
    type V = TermV;

    open spec fn view(&self) -> TermV {
        term_view(*self)
    }
}

proof fn lemma_args_view(args: Vec<Term>, k: int)
    requires
        0 <= k <= args.len(),
    ensures
        args_view(args, k).len() == k,
        forall|j: int| 0 <= j < k ==> #[trigger] args_view(args, k)[j] == term_view(args[j]),
    decreases k,
{
    if k > 0 {
        lemma_args_view(args, k - 1);
    }
}

proof fn lemma_args_view_eq(v1: Vec<Term>, v2: Vec<Term>, k: int)
    requires
        0 <= k <= v1.len(),
        k <= v2.len(),
        forall|j: int| 0 <= j < k ==> term_view(#[trigger] v1[j]) == term_view(v2[j]),
    ensures
        args_view(v1, k) == args_view(v2, k),
    decreases k,
{
    if k > 0 {
        lemma_args_view_eq(v1, v2, k - 1);
    }
}

impl Big {
    /// A copy with the same bytes.
    pub fn duplicate(&self) -> (r: Big)
        ensures
            r.bytes@ == self.bytes@,
            r.value() == self.value(),
    {
        Big { bytes: self.bytes.clone() }
    }
}

impl RatInterval {
    /// A copy with the same bounds.
    pub fn duplicate(&self) -> (r: RatInterval)
        ensures
            r.view_ints() == self.view_ints(),
    {
        RatInterval {
            lower: self.lower.duplicate(),
            upper: self.upper.duplicate(),
            denominator: self.denominator.duplicate(),
        }
    }
}

impl OpSymbol {
    /// A copy of the symbol.
    pub fn duplicate(&self) -> (r: OpSymbol)
        ensures
            r@ == self@,
    {
        OpSymbol { name: self.name.clone(), arity: self.arity, lip_bound: self.lip_bound.duplicate() }
    }
}

impl Term {
    /// A copy of the term.
    pub fn duplicate(&self) -> (r: Term)
        ensures
            r@ == self@,
        decreases self,
    {
        match self {
            Term::Var { name } => Term::Var { name: name.clone() },
            Term::App { op, args } => {
                let mut out: Vec<Term> = Vec::new();
                let mut i: usize = 0;
                while i < args.len()
                    invariant
                        i <= args.len(),
                        out.len() == i,
                        *self == (Term::App { op: self->op, args: *args }),
                        forall|j: int| 0 <= j < i ==> term_view(#[trigger] out[j]) == term_view(args[j]),
                    decreases args.len() - i,
                {
                    proof {
                        assert(decreases_to!(*self => self->args));
                    }
                    let t = args[i].duplicate();
                    out.push(t);
                    i += 1;
                }
                proof {
                    lemma_args_view_eq(out, *args, args.len() as int);
                }
                Term::App { op: op.duplicate(), args: out }
            },
        }
    }
}


/// Endomorphism of the initial algebra: the images of variables and the argument lists
/// bound to operator names, each an association list whose names occur once.
#[derive(Debug)]
pub struct Endomorphism {
    pub on_var: Vec<(String, Term)>,
    pub on_app: Vec<(String, Vec<Term>)>,
}

/// The image bound to `name` at or after position `i` of `m`, the first such.
pub open spec fn var_image(m: Seq<(String, Term)>, name: Seq<char>, i: int) -> Option<TermV>
    decreases m.len() - i,
{
    if i < 0 || i >= m.len() {
        None
    } else if m[i].0@ == name {
        Some(term_view(m[i].1))
    } else {
        var_image(m, name, i + 1)
    }
}

/// `t` with each variable bound in `m` replaced by its image.
pub open spec fn apply_view(m: Seq<(String, Term)>, t: Term) -> TermV
    decreases t, 0int,
{
    match t {
        Term::Var { name } => match var_image(m, name@, 0) {
            Some(v) => v,
            None => TermV::Var(name@),
        },
        Term::App { op, args } => TermV::App(op@, apply_args(m, args, args.len() as int)),
    }
}

/// `apply_view` over the first `k` terms of `args`.
pub open spec fn apply_args(m: Seq<(String, Term)>, args: Vec<Term>, k: int) -> Seq<TermV>
    decreases args, k,
{
    if k <= 0 || k > args.len() {
        Seq::empty()
    } else {
        apply_args(m, args, k - 1).push(apply_view(m, args[k - 1]))
    }
}

proof fn lemma_apply_args_eq(m: Seq<(String, Term)>, out: Vec<Term>, args: Vec<Term>, k: int)
    requires
        0 <= k <= out.len(),
        k <= args.len(),
        forall|j: int| 0 <= j < k ==> term_view(#[trigger] out[j]) == apply_view(m, args[j]),
    ensures
        args_view(out, k) == apply_args(m, args, k),
    decreases k,
{
    if k > 0 {
        lemma_apply_args_eq(m, out, args, k - 1);
    }
}

/// The names of an association list occur once.
pub open spec fn names_distinct<T>(m: Seq<(String, T)>) -> bool {
    forall|i: int, j: int| 0 <= i < j < m.len() ==> (#[trigger] m[i]).0@ != (#[trigger] m[j]).0@
}

impl Endomorphism {
    /// Each variable and each operator name is bound at most once.
    pub open spec fn wf(&self) -> bool {
        names_distinct(self.on_var@) && names_distinct(self.on_app@)
    }

    /// The endomorphism that binds nothing.
    pub fn identity() -> (e: Endomorphism)
        ensures
            e.on_var@.len() == 0,
            e.on_app@.len() == 0,
            e.wf(),
    {
        Endomorphism { on_var: Vec::new(), on_app: Vec::new() }
    }

    /// `term` with each bound variable replaced by a copy of its image.
    pub fn apply(&self, term: &Term) -> (r: Term)
        ensures
            r@ == apply_view(self.on_var@, *term),
        decreases term,
    {
        match term {
            Term::Var { name } => {
                let mut i: usize = 0;
                while i < self.on_var.len()
                    invariant
                        i <= self.on_var@.len(),
                        var_image(self.on_var@, name@, 0) == var_image(self.on_var@, name@, i as int),
                        *term == (Term::Var { name: *name }),
                    decreases self.on_var@.len() - i,
                {
                    if self.on_var[i].0 == *name {
                        let r = self.on_var[i].1.duplicate();
                        proof {
                            assert(var_image(self.on_var@, name@, i as int) == Some(term_view(self.on_var@[i as int].1)));
                        }
                        return r;
                    }
                    i += 1;
                }
                Term::Var { name: name.clone() }
            },
            Term::App { op, args } => {
                let mut out: Vec<Term> = Vec::new();
                let mut i: usize = 0;
                while i < args.len()
                    invariant
                        i <= args.len(),
                        out.len() == i,
                        *term == (Term::App { op: term->op, args: *args }),
                        forall|j: int|
                            0 <= j < i ==> term_view(#[trigger] out[j]) == apply_view(self.on_var@, args[j]),
                    decreases args.len() - i,
                {
                    proof {
                        assert(decreases_to!(*term => term->args));
                    }
                    let t = self.apply(&args[i]);
                    out.push(t);
                    i += 1;
                }
                proof {
                    lemma_apply_args_eq(self.on_var@, out, *args, args.len() as int);
                }
                Term::App { op: op.duplicate(), args: out }
            },
        }
    }

    /// `self` followed by `other`: each variable bound by `self` is bound to `other` applied
    /// to its image, and each argument list bound by `self` is mapped through `other`.
    pub fn compose(&self, other: &Endomorphism) -> (r: Endomorphism)
        ensures
            r.on_var@.len() == self.on_var@.len(),
            forall|i: int|
                0 <= i < self.on_var@.len() ==> (#[trigger] r.on_var@[i]).0@ == self.on_var@[i].0@
                    && r.on_var@[i].1@ == apply_view(other.on_var@, self.on_var@[i].1),
            r.on_app@.len() == self.on_app@.len(),
            forall|i: int|
                0 <= i < self.on_app@.len() ==> (#[trigger] r.on_app@[i]).0@ == self.on_app@[i].0@
                    && r.on_app@[i].1.len() == self.on_app@[i].1.len()
                    && args_view(r.on_app@[i].1, r.on_app@[i].1.len() as int) == apply_args(
                    other.on_var@,
                    self.on_app@[i].1,
                    self.on_app@[i].1.len() as int,
                ),
            self.wf() ==> r.wf(),
    {
        let mut on_var: Vec<(String, Term)> = Vec::new();
        let mut i: usize = 0;
        while i < self.on_var.len()
            invariant
                i <= self.on_var@.len(),
                on_var@.len() == i,
                forall|k: int|
                    0 <= k < i ==> (#[trigger] on_var@[k]).0@ == self.on_var@[k].0@
                        && on_var@[k].1@ == apply_view(other.on_var@, self.on_var@[k].1),
            decreases self.on_var@.len() - i,
        {
            let x = self.on_var[i].0.clone();
            let t = other.apply(&self.on_var[i].1);
            on_var.push((x, t));
            i += 1;
        }
        let mut on_app: Vec<(String, Vec<Term>)> = Vec::new();
        let mut i: usize = 0;
        while i < self.on_app.len()
            invariant
                i <= self.on_app@.len(),
                on_app@.len() == i,
                forall|k: int|
                    0 <= k < i ==> (#[trigger] on_app@[k]).0@ == self.on_app@[k].0@
                        && on_app@[k].1.len() == self.on_app@[k].1.len()
                        && args_view(on_app@[k].1, on_app@[k].1.len() as int) == apply_args(
                        other.on_var@,
                        self.on_app@[k].1,
                        self.on_app@[k].1.len() as int,
                    ),
            decreases self.on_app@.len() - i,
        {
            let args = &self.on_app[i].1;
            let mut mapped: Vec<Term> = Vec::new();
            let mut k: usize = 0;
            while k < args.len()
                invariant
                    k <= args.len(),
                    mapped.len() == k,
                    forall|j: int|
                        0 <= j < k ==> term_view(#[trigger] mapped[j]) == apply_view(other.on_var@, args[j]),
                decreases args.len() - k,
            {
                let t = other.apply(&args[k]);
                mapped.push(t);
                k += 1;
            }
            proof {
                lemma_apply_args_eq(other.on_var@, mapped, *args, args.len() as int);
            }
            let op = self.on_app[i].0.clone();
            on_app.push((op, mapped));
            i += 1;
        }
        let r = Endomorphism { on_var, on_app };
        proof {
            if self.wf() {
                assert forall|a: int, b: int| 0 <= a < b < r.on_var@.len() implies (#[trigger] r.on_var@[a]).0@
                    != (#[trigger] r.on_var@[b]).0@ by {
                    assert(self.on_var@[a].0@ != self.on_var@[b].0@);
                }
                assert forall|a: int, b: int| 0 <= a < b < r.on_app@.len() implies (#[trigger] r.on_app@[a]).0@
                    != (#[trigger] r.on_app@[b]).0@ by {
                    assert(self.on_app@[a].0@ != self.on_app@[b].0@);
                }
            }
        }
        r
    }

    /// Whether every variable image is itself a variable (depth zero).
    pub fn is_contractive(&self) -> (r: bool)
        ensures
            r == forall|i: int| 0 <= i < self.on_var@.len() ==> term_depth(#[trigger] self.on_var@[i].1) == 0,
    {
        let mut i: usize = 0;
        while i < self.on_var.len()
            invariant
                i <= self.on_var@.len(),
                forall|k: int| 0 <= k < i ==> term_depth(#[trigger] self.on_var@[k].1) == 0,
            decreases self.on_var@.len() - i,
        {
            match &self.on_var[i].1 {
                Term::App { .. } => {
                    return false;
                },
                Term::Var { .. } => {},
            }
            i += 1;
        }
        true
    }
}

proof fn lemma_identity_args(args: Vec<Term>, k: int)
    requires
        0 <= k <= args.len(),
    ensures
        apply_args(Seq::empty(), args, k) == args_view(args, k),
    decreases args, k,
{
    if k > 0 {
        lemma_identity_args(args, k - 1);
        law_identity_fixes(args[k - 1]);
    }
}

/// An endomorphism that binds no variable leaves every term as it is.
pub proof fn law_identity_fixes(t: Term)
    ensures
        apply_view(Seq::empty(), t) == term_view(t),
    decreases t, 1int,
{
    if let Term::App { args, .. } = t {
        lemma_identity_args(args, args.len() as int);
    }
}


/// Calls `String::push`: appends one character.
#[verifier::external_body]
fn push_char(s: &mut String, c: char)
    ensures
        final(s)@ == old(s)@.push(c),
{
    s.push(c);
}

/// Base-`2^32` digits of `n`, least significant first, with no trailing zero.
pub open spec fn u32_digits(n: nat) -> Seq<u32>
    decreases n,
{
    if n == 0 {
        Seq::empty()
    } else {
        seq![(n % 0x1_0000_0000) as u32] + u32_digits(n / 0x1_0000_0000)
    }
}

pub open spec fn abs_int(v: int) -> nat {
    if v < 0 {
        (-v) as nat
    } else {
        v as nat
    }
}

/// `-1`, `0` or `1` as the sign of `v`.
pub open spec fn sign_of(v: int) -> i8 {
    if v < 0 {
        -1i8
    } else if v == 0 {
        0i8
    } else {
        1i8
    }
}

/// Calls `BigInt::to_u32_digits`: the sign of the value and the base-`2^32` digits of its
/// magnitude, least significant first and without trailing zeros.
#[verifier::external_body]
fn big_u32_digits(a: &Big) -> (r: (i8, Vec<u32>))
    ensures
        r.0 == sign_of(a.value()),
        r.1@ == u32_digits(abs_int(a.value())),
{
    let (sign, digits) = BigInt::from_signed_bytes_le(&a.bytes).to_u32_digits();
    let s: i8 = match sign {
        Sign::Minus => -1,
        Sign::NoSign => 0,
        Sign::Plus => 1,
    };
    (s, digits)
}

/// JSON escape of one character, as serde_json writes it.
pub open spec fn escape_char(c: char) -> Seq<char> {
    let u = c as u32;
    if c == '"' {
        seq!['\\', '"']
    } else if c == '\\' {
        seq!['\\', '\\']
    } else if u == 8 {
        seq!['\\', 'b']
    } else if u == 9 {
        seq!['\\', 't']
    } else if u == 10 {
        seq!['\\', 'n']
    } else if u == 12 {
        seq!['\\', 'f']
    } else if u == 13 {
        seq!['\\', 'r']
    } else if u < 32 {
        seq!['\\', 'u', '0', '0', hex_digit((u / 16) as nat), hex_digit((u % 16) as nat)]
    } else {
        seq![c]
    }
}

pub open spec fn escape_chars(s: Seq<char>) -> Seq<char>
    decreases s.len(),
{
    if s.len() == 0 {
        Seq::empty()
    } else {
        escape_chars(s.drop_last()) + escape_char(s.last())
    }
}

/// A JSON string literal holding `s`.
pub open spec fn json_string(s: Seq<char>) -> Seq<char> {
    seq!['"'] + escape_chars(s) + seq!['"']
}

/// Comma-separated decimal digits.
pub open spec fn json_u32_list(d: Seq<u32>) -> Seq<char>
    decreases d.len(),
{
    if d.len() == 0 {
        Seq::empty()
    } else if d.len() == 1 {
        decimal(d[0] as nat)
    } else {
        json_u32_list(d.drop_last()) + seq![','] + decimal(d.last() as nat)
    }
}

pub open spec fn sign_text(v: int) -> Seq<char> {
    if v < 0 {
        seq!['-', '1']
    } else if v == 0 {
        seq!['0']
    } else {
        seq!['1']
    }
}

/// A big integer as serde writes it: `[sign,[digits]]`.
pub open spec fn json_big(v: int) -> Seq<char> {
    seq!['['] + sign_text(v) + seq![',', '['] + json_u32_list(u32_digits(abs_int(v))) + seq![']', ']']
}

pub open spec fn json_interval(iv: RatInterval) -> Seq<char> {
    "{\"lower\":"@ + json_big(iv.lower.value()) + ",\"upper\":"@ + json_big(iv.upper.value())
        + ",\"denominator\":"@ + json_big(iv.denominator.value()) + seq!['}']
}

pub open spec fn json_op(op: OpSymbol) -> Seq<char> {
    "{\"name\":"@ + json_string(op.name@) + ",\"arity\":"@ + decimal(op.arity as nat)
        + ",\"lip_bound\":"@ + json_interval(op.lip_bound) + seq!['}']
}

/// A term as serde_json writes it.
pub open spec fn json_term(t: Term) -> Seq<char>
    decreases t, 0int,
{
    match t {
        Term::Var { name } => "{\"Var\":{\"name\":"@ + json_string(name@) + seq!['}', '}'],
        Term::App { op, args } => "{\"App\":{\"op\":"@ + json_op(op) + ",\"args\":["@ + json_args(
            args,
            args.len() as int,
        ) + seq![']', '}', '}'],
    }
}

/// The first `k` terms of `args`, comma-separated.
pub open spec fn json_args(args: Vec<Term>, k: int) -> Seq<char>
    decreases args, k,
{
    if k <= 0 || k > args.len() {
        Seq::empty()
    } else if k == 1 {
        json_term(args[0])
    } else {
        json_args(args, k - 1) + seq![','] + json_term(args[k - 1])
    }
}

fn push_escaped(out: &mut String, c: char)
    ensures
        final(out)@ == old(out)@ + escape_char(c),
{
    let u = c as u32;
    proof {
        reveal_strlit("\\\"");
        reveal_strlit("\\\\");
        reveal_strlit("\\b");
        reveal_strlit("\\t");
        reveal_strlit("\\n");
        reveal_strlit("\\f");
        reveal_strlit("\\r");
        reveal_strlit("\\u00");
    }
    if c == '"' {
        out.append("\\\"");
    } else if c == '\\' {
        out.append("\\\\");
    } else if u == 8 {
        out.append("\\b");
    } else if u == 9 {
        out.append("\\t");
    } else if u == 10 {
        out.append("\\n");
    } else if u == 12 {
        out.append("\\f");
    } else if u == 13 {
        out.append("\\r");
    } else if u < 32 {
        let ghost before = out@;
        out.append("\\u00");
        out.append(hex_str((u / 16) as u8));
        out.append(hex_str((u % 16) as u8));
        assert(out@ =~= before + escape_char(c));
    } else {
        push_char(out, c);
    }
}

/// Appends `s` as a JSON string literal.
pub fn push_json_string(out: &mut String, s: &String)
    ensures
        final(out)@ == old(out)@ + json_string(s@),
{
    let ghost start = out@;
    proof {
        reveal_strlit("\"");
    }
    out.append("\"");
    let n = s.as_str().unicode_len();
    let mut i: usize = 0;
    while i < n
        invariant
            n == s@.len(),
            i <= n,
            out@ == start + seq!['"'] + escape_chars(s@.take(i as int)),
        decreases n - i,
    {
        let c = s.as_str().get_char(i);
        proof {
            assert(s@.take(i + 1).drop_last() =~= s@.take(i as int));
        }
        push_escaped(out, c);
        i += 1;
    }
    assert(s@.take(n as int) =~= s@);
    out.append("\"");
}

fn push_big(out: &mut String, v: &Big)
    ensures
        final(out)@ == old(out)@ + json_big(v.value()),
{
    let ghost start = out@;
    let (sign, digits) = big_u32_digits(v);
    proof {
        reveal_strlit("[");
        reveal_strlit("-1");
        reveal_strlit("0");
        reveal_strlit("1");
        reveal_strlit(",[");
        reveal_strlit(",");
        reveal_strlit("]]");
    }
    out.append("[");
    if sign < 0 {
        out.append("-1");
    } else if sign == 0 {
        out.append("0");
    } else {
        out.append("1");
    }
    out.append(",[");
    let ghost mid = out@;
    let mut i: usize = 0;
    while i < digits.len()
        invariant
            i <= digits@.len(),
            out@ == mid + json_u32_list(digits@.take(i as int)),
        decreases digits@.len() - i,
    {
        proof {
            assert(digits@.take(i + 1).drop_last() =~= digits@.take(i as int));
        }
        let ghost before = out@;
        proof {
            reveal_strlit(",");
        }
        if i > 0 {
            out.append(",");
        }
        push_decimal(out, digits[i] as u64);
        proof {
            let t = digits@.take(i + 1);
            assert(t.last() == digits@[i as int]);
            if i == 0 {
                assert(out@ =~= mid + json_u32_list(t));
            } else {
                assert(out@ =~= before + seq![','] + decimal(digits@[i as int] as nat));
                assert(json_u32_list(t) == json_u32_list(t.drop_last()) + seq![','] + decimal(t.last() as nat));
                assert(out@ =~= mid + json_u32_list(t));
            }
        }
        i += 1;
    }
    assert(digits@.take(digits@.len() as int) =~= digits@);
    out.append("]]");
    assert(out@ =~= start + json_big(v.value()));
}

pub(crate) fn push_interval(out: &mut String, iv: &RatInterval)
    ensures
        final(out)@ == old(out)@ + json_interval(*iv),
{
    let ghost start = out@;
    out.append("{\"lower\":");
    push_big(out, &iv.lower);
    out.append(",\"upper\":");
    push_big(out, &iv.upper);
    out.append(",\"denominator\":");
    push_big(out, &iv.denominator);
    proof {
        reveal_strlit("}");
    }
    out.append("}");
    assert(out@ =~= start + json_interval(*iv));
}

fn push_op(out: &mut String, op: &OpSymbol)
    ensures
        final(out)@ == old(out)@ + json_op(*op),
{
    let ghost start = out@;
    out.append("{\"name\":");
    push_json_string(out, &op.name);
    out.append(",\"arity\":");
    push_decimal(out, op.arity as u64);
    out.append(",\"lip_bound\":");
    push_interval(out, &op.lip_bound);
    proof {
        reveal_strlit("}");
    }
    out.append("}");
    assert(out@ =~= start + json_op(*op));
}

fn push_term(out: &mut String, t: &Term)
    ensures
        final(out)@ == old(out)@ + json_term(*t),
    decreases t,
{
    let ghost start = out@;
    proof {
        reveal_strlit("}}");
        reveal_strlit(",");
        reveal_strlit("]}}");
    }
    match t {
        Term::Var { name } => {
            out.append("{\"Var\":{\"name\":");
            push_json_string(out, name);
            out.append("}}");
            assert(out@ =~= start + json_term(*t));
        },
        Term::App { op, args } => {
            out.append("{\"App\":{\"op\":");
            push_op(out, op);
            out.append(",\"args\":[");
            let ghost mid = out@;
            let mut i: usize = 0;
            while i < args.len()
                invariant
                    i <= args.len(),
                    *t == (Term::App { op: t->op, args: *args }),
                    out@ == mid + json_args(*args, i as int),
                decreases args.len() - i,
            {
                let ghost before = out@;
                proof {
                    reveal_strlit(",");
                }
                if i > 0 {
                    out.append(",");
                }
                proof {
                    assert(decreases_to!(*t => t->args));
                }
                push_term(out, &args[i]);
                proof {
                    if i == 0 {
                        assert(out@ =~= mid + json_args(*args, 1));
                    } else {
                        assert(out@ =~= before + seq![','] + json_term(args[i as int]));
                        assert(out@ =~= mid + json_args(*args, i + 1));
                    }
                }
                i += 1;
            }
            out.append("]}}");
            assert(out@ =~= start + json_term(*t));
        },
    }
}

impl Term {
    /// The term as serde_json writes it.
    pub fn to_json(&self) -> (s: String)
        ensures
            s@ == json_term(*self),
    {
        let mut s = String::new();
        push_term(&mut s, self);
        s
    }

    /// Lower-case hex SHA-256 digest of the term's JSON text.
    pub fn hash(&self) -> (h: String)
        ensures
            h@ == hex_lower(sha256_of(vstd::utf8::encode_utf8(json_term(*self)))),
    {
        let j = self.to_json();
        sha256_hex(j.as_str().as_bytes())
    }
}


/// Operator-first arithmetic: an operator with a Lipschitz interval.
pub trait Operator {
    type Domain;

    type Codomain;

    fn apply(&self, input: Self::Domain) -> Self::Codomain;

    fn lip_constant(&self) -> RatInterval;

    /// Whether the width of the Lipschitz interval is below one.
    fn is_contractive(&self) -> bool {
        let l = self.lip_constant();
        let one = Big::from_i64(1);
        l.is_contractive(&one)
    }
}

/// Endomorphism rule for bounded composition.
pub trait EndomorphismRule: Sized {
    fn compose(&self, other: &Self) -> Self;

    fn identity() -> Self;

    fn verify_contraction(&self, bound: &RatInterval) -> bool;
}

/// Deterministic witness for bounded model checking.
#[derive(Debug, Clone)]
pub struct Witness {
    pub term_hash: String,
    pub interval: RatInterval,
    pub dimension: usize,
    pub verified: bool,
}

/// Telemetry binding for the audit trail.
#[derive(Debug, Clone)]
pub struct Telemetry {
    pub timestamp: String,
    pub witness: Witness,
    pub governor: String,
    pub contract_id: String,
}

pub open spec fn json_bool(b: bool) -> Seq<char> {
    if b {
        seq!['t', 'r', 'u', 'e']
    } else {
        seq!['f', 'a', 'l', 's', 'e']
    }
}

pub open spec fn json_witness(w: Witness) -> Seq<char> {
    "{\"term_hash\":"@ + json_string(w.term_hash@) + ",\"interval\":"@ + json_interval(w.interval)
        + ",\"dimension\":"@ + decimal(w.dimension as nat) + ",\"verified\":"@ + json_bool(w.verified)
        + seq!['}']
}

pub open spec fn json_telemetry(t: Telemetry) -> Seq<char> {
    "{\"timestamp\":"@ + json_string(t.timestamp@) + ",\"witness\":"@ + json_witness(t.witness)
        + ",\"governor\":"@ + json_string(t.governor@) + ",\"contract_id\":"@ + json_string(
        t.contract_id@,
    ) + seq!['}']
}

pub(crate) fn push_bool(out: &mut String, b: bool)
    ensures
        final(out)@ == old(out)@ + json_bool(b),
{
    proof {
        reveal_strlit("true");
        reveal_strlit("false");
    }
    if b {
        out.append("true");
    } else {
        out.append("false");
    }
}

fn push_witness(out: &mut String, w: &Witness)
    ensures
        final(out)@ == old(out)@ + json_witness(*w),
{
    let ghost start = out@;
    out.append("{\"term_hash\":");
    push_json_string(out, &w.term_hash);
    out.append(",\"interval\":");
    push_interval(out, &w.interval);
    out.append(",\"dimension\":");
    push_decimal(out, w.dimension as u64);
    out.append(",\"verified\":");
    push_bool(out, w.verified);
    proof {
        reveal_strlit("}");
    }
    out.append("}");
    assert(out@ =~= start + json_witness(*w));
}

impl Telemetry {
    /// A record stamped with the current Unix time in seconds.
    pub fn new(witness: Witness, governor: String, contract_id: String) -> (t: Telemetry)
        ensures
            t.witness == witness,
            t.governor == governor,
            t.contract_id == contract_id,
            exists|secs: u64| t.timestamp@ == decimal(secs as nat),
    {
        Telemetry { timestamp: timestamp_now(), witness, governor, contract_id }
    }

    /// The record as serde_json writes it.
    pub fn to_json(&self) -> (s: String)
        ensures
            s@ == json_telemetry(*self),
    {
        let mut out = String::new();
        out.append("{\"timestamp\":");
        push_json_string(&mut out, &self.timestamp);
        out.append(",\"witness\":");
        push_witness(&mut out, &self.witness);
        out.append(",\"governor\":");
        push_json_string(&mut out, &self.governor);
        out.append(",\"contract_id\":");
        push_json_string(&mut out, &self.contract_id);
        proof {
            reveal_strlit("}");
        }
        out.append("}");
        assert(out@ =~= json_telemetry(*self));
        out
    }

    /// Lower-case hex SHA-256 digest of the record's JSON text.
    pub fn anchor(&self) -> (h: String)
        ensures
            h@ == hex_lower(sha256_of(vstd::utf8::encode_utf8(json_telemetry(*self)))),
    {
        let j = self.to_json();
        sha256_hex(j.as_str().as_bytes())
    }
}

} // verus!
