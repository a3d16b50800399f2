use vstd::prelude::*;
use num_rational::Ratio;
use num_traits::{CheckedAdd, CheckedSub};
use crate::rational::gcd;
use crate::decimal::{signed_decimal, push_signed_decimal};

verus! {

/// Critical phase divergence threshold `3/100`, as `(numerator, denominator)`.
pub const EPSILON_CRIT: (i64, i64) = (3, 100);

/// Reasons the pre-flight interlock refuses a transition.
#[derive(Debug, Clone, Copy, PartialEq, Eq, Structural)]
pub enum GeneratorViolation {
    /// The distance `n/d` reached the threshold `cn/cd`: `(n, d, cn, cd)`.
    PhaseDissonance(i64, i64, i64, i64),
    DimensionMismatch,
}

/// Phase-projected hypergraph: a square adjacency tensor of exact rationals, each held as
/// `(numerator, denominator)` with a positive denominator.
#[derive(Debug, Clone, PartialEq, Eq)]
pub struct PhaseHypergraph {
    pub dimension: usize,
    pub tensor: Vec<Vec<(i64, i64)>>,
}

/// The rational `x.0 / x.1` read over the integers.
pub open spec fn q(x: (i64, i64)) -> (int, int) {
    (x.0 as int, x.1 as int)
}

/// `x` and `y` stand for the same rational.
pub open spec fn same_value(x: (int, int), y: (int, int)) -> bool {
    x.0 * y.1 == y.0 * x.1
}

pub open spec fn abs_int(x: int) -> int {
    if x < 0 {
        -x
    } else {
        x
    }
}

/// In lowest terms with a positive denominator, as num-rational keeps its values.
pub open spec fn reduced(x: (i64, i64)) -> bool {
    x.1 > 0 && gcd(abs_int(x.0 as int) as nat, x.1 as nat) == 1
}

pub open spec fn q_sub(x: (int, int), y: (int, int)) -> (int, int) {
    (x.0 * y.1 - y.0 * x.1, x.1 * y.1)
}

pub open spec fn q_add(x: (int, int), y: (int, int)) -> (int, int) {
    (x.0 * y.1 + y.0 * x.1, x.1 * y.1)
}

pub open spec fn q_abs(x: (int, int)) -> (int, int) {
    (abs_int(x.0), x.1)
}

/// `x > y` for rationals with positive denominators.
pub open spec fn q_gt(x: (int, int), y: (int, int)) -> bool {
    x.0 * y.1 > y.0 * x.1
}

pub open spec fn fits_i64(x: int) -> bool {
    i64::MIN <= x <= i64::MAX
}

/// Whether num-rational's checked sum (`add`) or difference of `a` and `b` stays in `i64`:
/// it brings both to the common denominator `(a.1 / gcd(a.1, b.1)) * b.1`, rescales each
/// numerator to it, and adds or subtracts them, failing where any of these four values
/// leaves `i64` (the final reduction divides by a positive gcd and cannot fail).
pub open spec fn ratio_fits(a: (i64, i64), b: (i64, i64), add: bool) -> bool {
    let l: int = (a.1 as int / gcd(a.1 as nat, b.1 as nat) as int) * b.1;
    let ln: int = (l / a.1 as int) * a.0;
    let rn: int = (l / b.1 as int) * b.0;
    &&& fits_i64(l)
    &&& fits_i64(ln)
    &&& fits_i64(rn)
    &&& fits_i64(if add { ln + rn } else { ln - rn })
}

/// What `checked_sub` of num-rational returns on `a - b`.
pub uninterp spec fn ratio_checked_sub_of(a: (i64, i64), b: (i64, i64)) -> Option<(i64, i64)>;

/// What `checked_add` of num-rational returns on `a + b`.
pub uninterp spec fn ratio_checked_add_of(a: (i64, i64), b: (i64, i64)) -> Option<(i64, i64)>;

/// Calls `<Ratio<i64> as CheckedSub>::checked_sub` on `a - b`. Claims that the result is the
/// name `ratio_checked_sub_of` of the operands, that it returns nothing exactly where
/// `ratio_fits` fails, and that a value it returns is the exact difference in lowest terms.
#[verifier::external_body]
fn ratio_checked_sub(a: (i64, i64), b: (i64, i64)) -> (r: Option<(i64, i64)>)
    requires
        a.1 > 0,
        b.1 > 0,
    ensures
        r == ratio_checked_sub_of(a, b),
        r is None <==> !ratio_fits(a, b, false),
        r matches Some(x) ==> reduced(x) && same_value(q(x), q_sub(q(a), q(b))),
{
    match Ratio::new_raw(a.0, a.1).checked_sub(&Ratio::new_raw(b.0, b.1)) {
        Some(x) => Some(x.into_raw()),
        None => None,
    }
}

/// Calls `<Ratio<i64> as CheckedAdd>::checked_add` on `a + b`. Claims that the result is the
/// name `ratio_checked_add_of` of the operands, that it returns nothing exactly where
/// `ratio_fits` fails, and that a value it returns is the exact sum in lowest terms.
#[verifier::external_body]
fn ratio_checked_add(a: (i64, i64), b: (i64, i64)) -> (r: Option<(i64, i64)>)
    requires
        a.1 > 0,
        b.1 > 0,
    ensures
        r == ratio_checked_add_of(a, b),
        r is None <==> !ratio_fits(a, b, true),
        r matches Some(x) ==> reduced(x) && same_value(q(x), q_add(q(a), q(b))),
{
    match Ratio::new_raw(a.0, a.1).checked_add(&Ratio::new_raw(b.0, b.1)) {
        Some(x) => Some(x.into_raw()),
        None => None,
    }
}

/// Calls `>=` on two `Ratio<i64>` values: their exact order.
#[verifier::external_body]
fn ratio_ge(a: (i64, i64), b: (i64, i64)) -> (r: bool)
    requires
        a.1 > 0,
        b.1 > 0,
    ensures
        r == !q_gt(q(b), q(a)),
{
    Ratio::new_raw(a.0, a.1) >= Ratio::new_raw(b.0, b.1)
}

/// Calls `>` on two `Ratio<i64>` values: their exact order.
#[verifier::external_body]
fn ratio_gt(a: (i64, i64), b: (i64, i64)) -> (r: bool)
    requires
        a.1 > 0,
        b.1 > 0,
    ensures
        r == q_gt(q(a), q(b)),
{
    Ratio::new_raw(a.0, a.1) > Ratio::new_raw(b.0, b.1)
}

/// Entry `(i, j)` of a tensor.
pub open spec fn at(t: Seq<Vec<(i64, i64)>>, i: int, j: int) -> (i64, i64) {
    t[i]@[j]
}

/// The tensor covers `dim × dim` entries, each with a positive denominator.
pub open spec fn tensor_ok(t: Seq<Vec<(i64, i64)>>, dim: int) -> bool {
    &&& t.len() >= dim
    &&& forall|i: int| 0 <= i < dim ==> (#[trigger] t[i])@.len() >= dim
    &&& forall|i: int, j: int| 0 <= i < dim && 0 <= j < dim ==> (#[trigger] at(t, i, j)).1 > 0
}

/// `|x|` as num-rational's negation computes it; nothing where negating overflows.
pub open spec fn abs_rat(x: (i64, i64)) -> Option<(i64, i64)> {
    if x.0 >= 0 {
        Some(x)
    } else if x.0 == i64::MIN {
        None
    } else {
        Some(((-x.0) as i64, x.1))
    }
}

/// The sum of `|a_kj - b_kj|` over the first `i` rows, as the checked operations compute it;
/// nothing where one of them overflows (`ratio_fits` fails) or a negation does.
pub open spec fn col_run(a: Seq<Vec<(i64, i64)>>, b: Seq<Vec<(i64, i64)>>, j: int, i: int) -> Option<(i64, i64)>
    decreases i,
{
    if i <= 0 {
        Some((0, 1))
    } else {
        match col_run(a, b, j, i - 1) {
            None => None,
            Some(c) => if !ratio_fits(at(a, i - 1, j), at(b, i - 1, j), false) {
                None
            } else {
                match ratio_checked_sub_of(at(a, i - 1, j), at(b, i - 1, j)) {
                    None => None,
                    Some(d) => match abs_rat(d) {
                        None => None,
                        Some(ad) => if ratio_fits(c, ad, true) {
                            ratio_checked_add_of(c, ad)
                        } else {
                            None
                        },
                    },
                }
            },
        }
    }
}

/// The largest of the first `j` column sums (each over `n` rows), the first of equal ones.
pub open spec fn max_run(a: Seq<Vec<(i64, i64)>>, b: Seq<Vec<(i64, i64)>>, n: int, j: int) -> Option<(i64, i64)>
    decreases j,
{
    if j <= 0 {
        Some((0, 1))
    } else {
        match max_run(a, b, n, j - 1) {
            None => None,
            Some(m) => match col_run(a, b, j - 1, n) {
                None => None,
                Some(c) => Some(
                    if q_gt(q(c), q(m)) {
                        c
                    } else {
                        m
                    },
                ),
            },
        }
    }
}

/// The distance as computed, or nothing where the `i64` arithmetic overflows.
pub open spec fn distance_run(h: PhaseHypergraph, next: PhaseHypergraph) -> Option<Result<(i64, i64), GeneratorViolation>> {
    if h.dimension != next.dimension {
        Some(Err(GeneratorViolation::DimensionMismatch))
    } else {
        match max_run(h.tensor@, next.tensor@, h.dimension as int, h.dimension as int) {
            None => None,
            Some(x) => Some(Ok(x)),
        }
    }
}

/// Exact `Σ_{k < i} |a_kj - b_kj|`, unreduced.
pub open spec fn col_exact(a: Seq<Vec<(i64, i64)>>, b: Seq<Vec<(i64, i64)>>, j: int, i: int) -> (int, int)
    decreases i,
{
    if i <= 0 {
        (0, 1)
    } else {
        q_add(col_exact(a, b, j, i - 1), q_abs(q_sub(q(at(a, i - 1, j)), q(at(b, i - 1, j)))))
    }
}

/// Exact induced 1-norm `max_{l < j} Σ_k |a_kl - b_kl|` over `n` rows, unreduced.
pub open spec fn max_exact(a: Seq<Vec<(i64, i64)>>, b: Seq<Vec<(i64, i64)>>, n: int, j: int) -> (int, int)
    decreases j,
{
    if j <= 0 {
        (0, 1)
    } else {
        let m = max_exact(a, b, n, j - 1);
        let c = col_exact(a, b, j - 1, n);
        if q_gt(c, m) {
            c
        } else {
            m
        }
    }
}

/// `D_Φ(h, next)`: the induced 1-norm of the difference of the two tensors.
pub open spec fn phase_distance(h: PhaseHypergraph, next: PhaseHypergraph) -> (int, int) {
    max_exact(h.tensor@, next.tensor@, h.dimension as int, h.dimension as int)
}

proof fn lemma_same_trans(x: (int, int), y: (int, int), z: (int, int))
    requires
        same_value(x, y),
        same_value(y, z),
        y.1 > 0,
    ensures
        same_value(x, z),
{
    assert(y.1 * (x.0 * z.1 - z.0 * x.1) == 0) by (nonlinear_arith)
        requires
            x.0 * y.1 == y.0 * x.1,
            y.0 * z.1 == z.0 * y.1,
    ;
    assert(x.0 * z.1 - z.0 * x.1 == 0) by (nonlinear_arith)
        requires
            y.1 * (x.0 * z.1 - z.0 * x.1) == 0,
            y.1 > 0,
    ;
}

proof fn lemma_abs_respects(x: (int, int), y: (int, int))
    requires
        same_value(x, y),
        x.1 > 0,
        y.1 > 0,
    ensures
        same_value(q_abs(x), q_abs(y)),
{
    if x.0 < 0 && y.0 >= 0 {
        assert(x.0 * y.1 < 0) by (nonlinear_arith)
            requires
                x.0 < 0,
                y.1 > 0,
        ;
        assert(y.0 * x.1 >= 0) by (nonlinear_arith)
            requires
                y.0 >= 0,
                x.1 > 0,
        ;
    } else if x.0 >= 0 && y.0 < 0 {
        assert(x.0 * y.1 >= 0) by (nonlinear_arith)
            requires
                x.0 >= 0,
                y.1 > 0,
        ;
        assert(y.0 * x.1 < 0) by (nonlinear_arith)
            requires
                y.0 < 0,
                x.1 > 0,
        ;
    } else if x.0 < 0 {
        assert((-x.0) * y.1 == (-y.0) * x.1) by (nonlinear_arith)
            requires
                x.0 * y.1 == y.0 * x.1,
        ;
    }
}

proof fn lemma_add_respects(x: (int, int), x2: (int, int), y: (int, int), y2: (int, int))
    requires
        same_value(x, x2),
        same_value(y, y2),
    ensures
        same_value(q_add(x, y), q_add(x2, y2)),
{
    let (a, b) = (x.0, x.1);
    let (a2, b2) = (x2.0, x2.1);
    let (c, d) = (y.0, y.1);
    let (c2, d2) = (y2.0, y2.1);
    assert(a * d * (b2 * d2) == (a * b2) * (d * d2)) by (nonlinear_arith);
    assert((a2 * b) * (d * d2) == a2 * d2 * (b * d)) by (nonlinear_arith);
    assert(c * b * (b2 * d2) == (c * d2) * (b * b2)) by (nonlinear_arith);
    assert((c2 * d) * (b * b2) == c2 * b2 * (b * d)) by (nonlinear_arith);
    assert((a * d + c * b) * (b2 * d2) == a * d * (b2 * d2) + c * b * (b2 * d2)) by (nonlinear_arith);
    assert((a2 * d2 + c2 * b2) * (b * d) == a2 * d2 * (b * d) + c2 * b2 * (b * d)) by (nonlinear_arith);
}

proof fn lemma_gt_respects(x: (int, int), x2: (int, int), y: (int, int), y2: (int, int))
    requires
        same_value(x, x2),
        same_value(y, y2),
        x.1 > 0,
        x2.1 > 0,
        y.1 > 0,
        y2.1 > 0,
    ensures
        q_gt(x, y) == q_gt(x2, y2),
{
    let (a, b) = (x.0, x.1);
    let (a2, b2) = (x2.0, x2.1);
    let (c, d) = (y.0, y.1);
    let (c2, d2) = (y2.0, y2.1);
    let k = b2 * d2;
    let k2 = b * d;
    assert(k > 0) by (nonlinear_arith)
        requires
            b2 > 0,
            d2 > 0,
            k == b2 * d2,
    ;
    assert(k2 > 0) by (nonlinear_arith)
        requires
            b > 0,
            d > 0,
            k2 == b * d,
    ;
    assert(a * d * k == (a * b2) * (d * d2)) by (nonlinear_arith)
        requires
            k == b2 * d2,
    ;
    assert((a2 * b) * (d * d2) == a2 * d2 * k2) by (nonlinear_arith)
        requires
            k2 == b * d,
    ;
    assert(c * b * k == (c * d2) * (b * b2)) by (nonlinear_arith)
        requires
            k == b2 * d2,
    ;
    assert((c2 * d) * (b * b2) == c2 * b2 * k2) by (nonlinear_arith)
        requires
            k2 == b * d,
    ;
    // a*d*k == a2*d2*k2 and c*b*k == c2*b2*k2
    assert((a * d > c * b) == (a * d * k > c * b * k)) by (nonlinear_arith)
        requires
            k > 0,
    ;
    assert((a2 * d2 > c2 * b2) == (a2 * d2 * k2 > c2 * b2 * k2)) by (nonlinear_arith)
        requires
            k2 > 0,
    ;
}

proof fn lemma_col_exact(a: Seq<Vec<(i64, i64)>>, b: Seq<Vec<(i64, i64)>>, n: int, j: int, i: int)
    requires
        tensor_ok(a, n),
        tensor_ok(b, n),
        0 <= j < n,
        i <= n,
    ensures
        col_exact(a, b, j, i).1 > 0,
        col_exact(a, b, j, i).0 >= 0,
    decreases i,
{
    if i > 0 {
        lemma_col_exact(a, b, n, j, i - 1);
        let e = col_exact(a, b, j, i - 1);
        let x = at(a, i - 1, j);
        let y = at(b, i - 1, j);
        let ex = q_sub(q(x), q(y));
        assert(x.1 > 0 && y.1 > 0);
        assert(ex.1 > 0) by (nonlinear_arith)
            requires
                ex.1 == (x.1 as int) * (y.1 as int),
                x.1 > 0,
                y.1 > 0,
        ;
        assert(col_exact(a, b, j, i).1 > 0 && col_exact(a, b, j, i).0 >= 0) by (nonlinear_arith)
            requires
                col_exact(a, b, j, i) == q_add(e, q_abs(ex)),
                e.1 > 0,
                e.0 >= 0,
                ex.1 > 0,
        ;
    }
}

proof fn lemma_max_exact(a: Seq<Vec<(i64, i64)>>, b: Seq<Vec<(i64, i64)>>, n: int, j: int)
    requires
        tensor_ok(a, n),
        tensor_ok(b, n),
        j <= n,
    ensures
        max_exact(a, b, n, j).1 > 0,
        max_exact(a, b, n, j).0 >= 0,
    decreases j,
{
    if j > 0 {
        lemma_max_exact(a, b, n, j - 1);
        lemma_col_exact(a, b, n, j - 1, n);
    }
}

proof fn lemma_zero_reduced()
    ensures
        reduced((0, 1)),
{
    assert(gcd(1, 0) == 1);
    assert(gcd(0, 1) == gcd(1, 0));
}

/// `None` stays `None` along a column.
proof fn lemma_col_none(a: Seq<Vec<(i64, i64)>>, b: Seq<Vec<(i64, i64)>>, j: int, i: int, k: int)
    requires
        col_run(a, b, j, i) is None,
        0 <= i <= k,
    ensures
        col_run(a, b, j, k) is None,
    decreases k - i,
{
    if i < k {
        lemma_col_none(a, b, j, i, k - 1);
    }
}

/// `None` stays `None` along the columns.
proof fn lemma_max_none(a: Seq<Vec<(i64, i64)>>, b: Seq<Vec<(i64, i64)>>, n: int, j: int, k: int)
    requires
        max_run(a, b, n, j) is None,
        0 <= j <= k,
    ensures
        max_run(a, b, n, k) is None,
    decreases k - j,
{
    if j < k {
        lemma_max_none(a, b, n, j, k - 1);
    }
}


/// One step down a column keeps the running sum equal, as a rational, to the exact one.
proof fn lemma_col_step(
    a: Seq<Vec<(i64, i64)>>,
    b: Seq<Vec<(i64, i64)>>,
    n: int,
    j: int,
    i: int,
    col: (i64, i64),
    dv: (i64, i64),
    ad: (i64, i64),
    c2: (i64, i64),
)
    requires
        tensor_ok(a, n),
        tensor_ok(b, n),
        0 <= i < n,
        0 <= j < n,
        col.1 > 0,
        same_value(q(col), col_exact(a, b, j, i)),
        dv.1 > 0,
        same_value(q(dv), q_sub(q(at(a, i, j)), q(at(b, i, j)))),
        q(ad) == q_abs(q(dv)),
        ad.1 > 0,
        same_value(q(c2), q_add(q(col), q(ad))),
    ensures
        same_value(q(c2), col_exact(a, b, j, i + 1)),
{
    let x = at(a, i, j);
    let y = at(b, i, j);
    let ex = q_sub(q(x), q(y));
    assert(x.1 > 0 && y.1 > 0);
    assert(ex.1 > 0) by (nonlinear_arith)
        requires
            ex.1 == (x.1 as int) * (y.1 as int),
            x.1 > 0,
            y.1 > 0,
    ;
    lemma_abs_respects(q(dv), ex);
    lemma_add_respects(q(col), col_exact(a, b, j, i), q(ad), q_abs(ex));
    let mid = q_add(q(col), q(ad));
    assert(mid.1 > 0) by (nonlinear_arith)
        requires
            mid.1 == (col.1 as int) * (ad.1 as int),
            col.1 > 0,
            ad.1 > 0,
    ;
    assert(col_exact(a, b, j, i + 1) == q_add(col_exact(a, b, j, i), q_abs(ex)));
    lemma_same_trans(q(c2), mid, col_exact(a, b, j, i + 1));
}

impl PhaseHypergraph {
    /// A hypergraph of dimension `dim` whose every entry is `0/1`.
    pub fn new(dim: usize) -> (h: PhaseHypergraph)
        ensures
            h.dimension == dim,
            h.tensor@.len() == dim,
            forall|i: int| 0 <= i < dim ==> (#[trigger] h.tensor@[i])@.len() == dim,
            forall|i: int, j: int|
                0 <= i < dim && 0 <= j < dim ==> #[trigger] at(h.tensor@, i, j) == (0i64, 1i64),
    {
        let mut tensor: Vec<Vec<(i64, i64)>> = Vec::new();
        let mut i: usize = 0;
        while i < dim
            invariant
                i <= dim,
                tensor@.len() == i,
                forall|k: int| 0 <= k < i ==> (#[trigger] tensor@[k])@.len() == dim,
                forall|k: int, l: int|
                    0 <= k < i && 0 <= l < dim ==> #[trigger] at(tensor@, k, l) == (0i64, 1i64),
            decreases dim - i,
        {
            let mut row: Vec<(i64, i64)> = Vec::new();
            let mut j: usize = 0;
            while j < dim
                invariant
                    j <= dim,
                    row@.len() == j,
                    forall|l: int| 0 <= l < j ==> #[trigger] row@[l] == (0i64, 1i64),
                    i < dim,
                    tensor@.len() == i,
                    forall|k: int| 0 <= k < i ==> (#[trigger] tensor@[k])@.len() == dim,
                    forall|k: int, l: int|
                        0 <= k < i && 0 <= l < dim ==> #[trigger] at(tensor@, k, l) == (0i64, 1i64),
                decreases dim - j,
            {
                row.push((0, 1));
                j += 1;
            }
            let ghost before = tensor@;
            let ghost r = row@;
            assert(forall|l: int| 0 <= l < dim ==> #[trigger] r[l] == (0i64, 1i64));
            tensor.push(row);
            assert(tensor@[i as int]@ == r);
            assert forall|k: int, l: int| 0 <= k <= i && 0 <= l < dim implies #[trigger] at(tensor@, k, l) == (0i64, 1i64) by {
                if k < i {
                    assert(tensor@[k] == before[k]);
                    assert(at(before, k, l) == (0i64, 1i64));
                } else {
                    assert(tensor@[k]@ == r);
                    assert(r[l] == (0i64, 1i64));
                }
            }
            i += 1;
        }
        PhaseHypergraph { dimension: dim, tensor }
    }

    /// `D_Φ(self, next)` as the checked rational arithmetic computes it: `None` where an
    /// intermediate value overflows `i64`, else the distance or the dimension mismatch.
    pub fn try_distance(&self, next: &PhaseHypergraph) -> (r: Option<Result<(i64, i64), GeneratorViolation>>)
        requires
            self.dimension == next.dimension ==> tensor_ok(self.tensor@, self.dimension as int)
                && tensor_ok(next.tensor@, next.dimension as int),
        ensures
            r == distance_run(*self, *next),
            r matches Some(Ok(x)) ==> reduced(x) && same_value(q(x), phase_distance(*self, *next)),
    {
        if self.dimension != next.dimension {
            return Some(Err(GeneratorViolation::DimensionMismatch));
        }
        let n = self.dimension;
        let ghost a = self.tensor@;
        let ghost b = next.tensor@;
        let mut max_col: (i64, i64) = (0, 1);
        proof {
            lemma_zero_reduced();
        }
        let mut j: usize = 0;
        while j < n
            invariant
                j <= n,
                n == self.dimension,
                n == next.dimension,
                a == self.tensor@,
                b == next.tensor@,
                tensor_ok(a, n as int),
                tensor_ok(b, n as int),
                max_run(a, b, n as int, j as int) == Some(max_col),
                reduced(max_col),
                same_value(q(max_col), max_exact(a, b, n as int, j as int)),
            decreases n - j,
        {
            let mut col: (i64, i64) = (0, 1);
            proof {
                lemma_zero_reduced();
            }
            let mut i: usize = 0;
            while i < n
                invariant
                    i <= n,
                    j < n,
                    n == self.dimension,
                    n == next.dimension,
                    a == self.tensor@,
                    b == next.tensor@,
                    tensor_ok(a, n as int),
                    tensor_ok(b, n as int),
                    max_run(a, b, n as int, j as int) == Some(max_col),
                    col_run(a, b, j as int, i as int) == Some(col),
                    reduced(col),
                    same_value(q(col), col_exact(a, b, j as int, i as int)),
                decreases n - i,
            {
                assert(a[i as int]@.len() >= n);
                assert(b[i as int]@.len() >= n);
                let x = self.tensor[i][j];
                let y = next.tensor[i][j];
                assert(x == at(a, i as int, j as int));
                assert(y == at(b, i as int, j as int));
                assert(x.1 > 0 && y.1 > 0);
                let d = ratio_checked_sub(x, y);
                let dv = match d {
                    None => {
                        proof {
                            lemma_col_none(a, b, j as int, i + 1, n as int);
                            lemma_max_none(a, b, n as int, j + 1, n as int);
                        }
                        return None;
                    },
                    Some(dv) => dv,
                };
                let ad = if ratio_ge(dv, (0, 1)) {
                    dv
                } else if dv.0 == i64::MIN {
                    proof {
                        lemma_col_none(a, b, j as int, i + 1, n as int);
                        lemma_max_none(a, b, n as int, j + 1, n as int);
                    }
                    return None;
                } else {
                    (-dv.0, dv.1)
                };
                assert(abs_rat(dv) == Some(ad));
                let c2 = match ratio_checked_add(col, ad) {
                    None => {
                        proof {
                            lemma_col_none(a, b, j as int, i + 1, n as int);
                            lemma_max_none(a, b, n as int, j + 1, n as int);
                        }
                        return None;
                    },
                    Some(c2) => c2,
                };
                proof {
                    lemma_col_step(a, b, n as int, j as int, i as int, col, dv, ad, c2);
                }
                col = c2;
                i += 1;
            }
            proof {
                lemma_col_exact(a, b, n as int, j as int, n as int);
                lemma_max_exact(a, b, n as int, j as int);
                lemma_gt_respects(q(col), col_exact(a, b, j as int, n as int), q(max_col), max_exact(a, b, n as int, j as int));
            }
            if ratio_gt(col, max_col) {
                max_col = col;
            }
            j += 1;
        }
        Some(Ok(max_col))
    }
}


/// The interlock's verdict on a computed distance `d`: refused when `d >= 3/100`.
pub open spec fn verdict(d: (i64, i64)) -> Result<(i64, i64), GeneratorViolation> {
    if q_gt(q(EPSILON_CRIT), q(d)) {
        Ok(d)
    } else {
        Err(GeneratorViolation::PhaseDissonance(d.0, d.1, EPSILON_CRIT.0, EPSILON_CRIT.1))
    }
}

/// What `verify_transition` answers, given what the distance computation gave.
pub open spec fn transition_outcome(run: Result<(i64, i64), GeneratorViolation>) -> Result<(i64, i64), GeneratorViolation> {
    match run {
        Err(e) => Err(e),
        Ok(d) => verdict(d),
    }
}

pub open spec fn violation_text(v: GeneratorViolation) -> Seq<char> {
    match v {
        GeneratorViolation::PhaseDissonance(n, d, cn, cd) => "SIG_GOV_KILL: Phase Dissonance Breach: D_Phi("@
            + signed_decimal(n as int) + "/"@ + signed_decimal(d as int) + ") >= epsilon_crit("@
            + signed_decimal(cn as int) + "/"@ + signed_decimal(cd as int) + ")"@,
        GeneratorViolation::DimensionMismatch => "Topological Incoherence: dimension mismatch between state hypergraphs"@,
    }
}

impl GeneratorViolation {
    /// Human-readable description of the violation.
    pub fn message(&self) -> (s: String)
        ensures
            s@ == violation_text(*self),
    {
        let mut s = String::new();
        match self {
            GeneratorViolation::PhaseDissonance(n, d, cn, cd) => {
                proof {
                    reveal_strlit("SIG_GOV_KILL: Phase Dissonance Breach: D_Phi(");
                    reveal_strlit("/");
                    reveal_strlit(") >= epsilon_crit(");
                    reveal_strlit(")");
                }
                s.append("SIG_GOV_KILL: Phase Dissonance Breach: D_Phi(");
                push_signed_decimal(&mut s, *n);
                s.append("/");
                push_signed_decimal(&mut s, *d);
                s.append(") >= epsilon_crit(");
                push_signed_decimal(&mut s, *cn);
                s.append("/");
                push_signed_decimal(&mut s, *cd);
                s.append(")");
            },
            GeneratorViolation::DimensionMismatch => {
                proof {
                    reveal_strlit("Topological Incoherence: dimension mismatch between state hypergraphs");
                }
                s.append("Topological Incoherence: dimension mismatch between state hypergraphs");
            },
        }
        s
    }
}

/// The interlock's threshold test on a computed distance `d` (positive denominator).
pub fn judge_distance(d: (i64, i64)) -> (r: Result<(i64, i64), GeneratorViolation>)
    requires
        d.1 > 0,
    ensures
        r == verdict(d),
{
    if ratio_ge(d, EPSILON_CRIT) {
        Err(GeneratorViolation::PhaseDissonance(d.0, d.1, EPSILON_CRIT.0, EPSILON_CRIT.1))
    } else {
        Ok(d)
    }
}

impl PhaseHypergraph {
    /// `D_Φ(self, next)`, the induced 1-norm of the difference of the two tensors, where no
    /// intermediate value overflows `i64`.
    pub fn distance(&self, next: &PhaseHypergraph) -> (r: Result<(i64, i64), GeneratorViolation>)
        requires
            self.dimension == next.dimension ==> tensor_ok(self.tensor@, self.dimension as int)
                && tensor_ok(next.tensor@, next.dimension as int),
            distance_run(*self, *next) is Some,
        ensures
            Some(r) == distance_run(*self, *next),
            r is Err <==> self.dimension != next.dimension,
            r matches Ok(x) ==> reduced(x) && same_value(q(x), phase_distance(*self, *next)),
    {
        match self.try_distance(next) {
            Some(r) => r,
            None => Err(GeneratorViolation::DimensionMismatch),
        }
    }

    /// Pre-flight interlock: the distance to `next` where it is below `3/100`, else the
    /// violation that refuses the transition.
    pub fn verify_transition(&self, next: &PhaseHypergraph) -> (r: Result<(i64, i64), GeneratorViolation>)
        requires
            self.dimension == next.dimension ==> tensor_ok(self.tensor@, self.dimension as int)
                && tensor_ok(next.tensor@, next.dimension as int),
            distance_run(*self, *next) is Some,
        ensures
            r == transition_outcome(distance_run(*self, *next)->0),
            r matches Ok(x) ==> reduced(x) && same_value(q(x), phase_distance(*self, *next))
                && q_gt(q(EPSILON_CRIT), phase_distance(*self, *next)),
            r matches Err(GeneratorViolation::PhaseDissonance(n, d, _, _)) ==> !q_gt(
                q(EPSILON_CRIT),
                phase_distance(*self, *next),
            ) && same_value((n as int, d as int), phase_distance(*self, *next)),
    {
        let d = self.distance(next)?;
        proof {
            lemma_max_exact(self.tensor@, next.tensor@, self.dimension as int, self.dimension as int);
            lemma_gt_respects(q(EPSILON_CRIT), q(EPSILON_CRIT), q(d), phase_distance(*self, *next));
        }
        judge_distance(d)
    }

    /// The interlock on any pair of hypergraphs whose tensors cover their dimension: `None`
    /// where the exact arithmetic would overflow `i64`, else what `verify_transition` answers.
    pub fn try_verify_transition(&self, next: &PhaseHypergraph) -> (r: Option<Result<(i64, i64), GeneratorViolation>>)
        requires
            self.dimension == next.dimension ==> tensor_ok(self.tensor@, self.dimension as int)
                && tensor_ok(next.tensor@, next.dimension as int),
        ensures
            r is None <==> distance_run(*self, *next) is None,
            r matches Some(v) ==> v == transition_outcome(distance_run(*self, *next)->0),
    {
        match self.try_distance(next) {
            None => None,
            Some(_) => Some(self.verify_transition(next)),
        }
    }
}

/// `D_Φ` is never negative.
pub proof fn law_distance_nonnegative(h: PhaseHypergraph, next: PhaseHypergraph)
    requires
        h.dimension == next.dimension,
        tensor_ok(h.tensor@, h.dimension as int),
        tensor_ok(next.tensor@, next.dimension as int),
    ensures
        phase_distance(h, next).0 >= 0,
        phase_distance(h, next).1 > 0,
{
    lemma_max_exact(h.tensor@, next.tensor@, h.dimension as int, h.dimension as int);
}


proof fn lemma_col_self(a: Seq<Vec<(i64, i64)>>, j: int, i: int)
    ensures
        col_exact(a, a, j, i).0 == 0,
    decreases i,
{
    if i > 0 {
        lemma_col_self(a, j, i - 1);
        let x = q(at(a, i - 1, j));
        assert(x.0 * x.1 - x.0 * x.1 == 0);
        let e = col_exact(a, a, j, i - 1);
        let z = q_abs(q_sub(x, x));
        assert(z.0 == 0);
        assert(e.0 * z.1 + z.0 * e.1 == 0) by (nonlinear_arith)
            requires
                e.0 == 0,
                z.0 == 0,
        ;
    }
}

proof fn lemma_max_self(a: Seq<Vec<(i64, i64)>>, n: int, j: int)
    ensures
        max_exact(a, a, n, j).0 == 0,
    decreases j,
{
    if j > 0 {
        lemma_max_self(a, n, j - 1);
        lemma_col_self(a, j - 1, n);
    }
}

/// A hypergraph is at distance zero from itself.
pub proof fn law_self_distance_zero(h: PhaseHypergraph)
    ensures
        phase_distance(h, h).0 == 0,
{
    lemma_max_self(h.tensor@, h.dimension as int, h.dimension as int);
}


/// `x <= y` for rationals with positive denominators.
pub open spec fn q_le(x: (int, int), y: (int, int)) -> bool {
    x.0 * y.1 <= y.0 * x.1
}

proof fn lemma_le_trans(x: (int, int), y: (int, int), z: (int, int))
    requires
        q_le(x, y),
        q_le(y, z),
        x.1 > 0,
        y.1 > 0,
        z.1 > 0,
    ensures
        q_le(x, z),
{
    assert(x.0 * y.1 * z.1 <= y.0 * x.1 * z.1) by (nonlinear_arith)
        requires
            x.0 * y.1 <= y.0 * x.1,
            z.1 > 0,
    ;
    assert(y.0 * z.1 * x.1 <= z.0 * y.1 * x.1) by (nonlinear_arith)
        requires
            y.0 * z.1 <= z.0 * y.1,
            x.1 > 0,
    ;
    assert(x.0 * z.1 * y.1 <= z.0 * x.1 * y.1) by (nonlinear_arith)
        requires
            x.0 * y.1 * z.1 <= y.0 * x.1 * z.1,
            y.0 * z.1 * x.1 <= z.0 * y.1 * x.1,
    ;
    assert(x.0 * z.1 <= z.0 * x.1) by (nonlinear_arith)
        requires
            x.0 * z.1 * y.1 <= z.0 * x.1 * y.1,
            y.1 > 0,
    ;
}

proof fn lemma_le_add(x: (int, int), x2: (int, int), y: (int, int), y2: (int, int))
    requires
        q_le(x, x2),
        q_le(y, y2),
        x.1 > 0,
        x2.1 > 0,
        y.1 > 0,
        y2.1 > 0,
    ensures
        q_le(q_add(x, y), q_add(x2, y2)),
{
    let (a, b) = (x.0, x.1);
    let (a2, b2) = (x2.0, x2.1);
    let (c, d) = (y.0, y.1);
    let (c2, d2) = (y2.0, y2.1);
    assert(a * b2 * (d * d2) <= a2 * b * (d * d2)) by (nonlinear_arith)
        requires
            a * b2 <= a2 * b,
            d > 0,
            d2 > 0,
    ;
    assert(c * d2 * (b * b2) <= c2 * d * (b * b2)) by (nonlinear_arith)
        requires
            c * d2 <= c2 * d,
            b > 0,
            b2 > 0,
    ;
    lemma_distr(a * d, c * b, b2 * d2);
    assert(a * d * (b2 * d2) == a * b2 * (d * d2)) by (nonlinear_arith);
    assert(c * b * (b2 * d2) == c * d2 * (b * b2)) by (nonlinear_arith);
    lemma_distr(a2 * d2, c2 * b2, b * d);
    assert(a2 * d2 * (b * d) == a2 * b * (d * d2)) by (nonlinear_arith);
    assert(c2 * b2 * (b * d) == c2 * d * (b * b2)) by (nonlinear_arith);
}

proof fn lemma_distr(p: int, r: int, t: int)
    ensures
        (p + r) * t == p * t + r * t,
{
    assert((p + r) * t == p * t + r * t) by (nonlinear_arith);
}

/// `|x - z| <= |x - y| + |y - z|` for rationals with positive denominators.
proof fn lemma_abs_tri(x: (int, int), y: (int, int), z: (int, int))
    requires
        x.1 > 0,
        y.1 > 0,
        z.1 > 0,
    ensures
        q_le(q_abs(q_sub(x, z)), q_add(q_abs(q_sub(x, y)), q_abs(q_sub(y, z)))),
{
    let (a, b) = (x.0, x.1);
    let (c, d) = (y.0, y.1);
    let (e, f) = (z.0, z.1);
    let u = a * f - e * b;
    let p = a * d - c * b;
    let r = c * f - e * d;
    assert(u * d == p * f + r * b) by (nonlinear_arith)
        requires
            u == a * f - e * b,
            p == a * d - c * b,
            r == c * f - e * d,
    ;
    assert(abs_int(u) * d <= abs_int(p) * f + abs_int(r) * b) by (nonlinear_arith)
        requires
            u * d == p * f + r * b,
            d > 0,
            f > 0,
            b > 0,
    {
        assert(abs_int(u * d) == abs_int(u) * d);
        assert(abs_int(p * f) == abs_int(p) * f);
        assert(abs_int(r * b) == abs_int(r) * b);
    }
    let bdf = b * d * f;
    assert(bdf > 0) by (nonlinear_arith)
        requires
            b > 0,
            d > 0,
            f > 0,
            bdf == b * d * f,
    ;
    assert(abs_int(u) * ((b * d) * (d * f)) == (abs_int(u) * d) * bdf) by (nonlinear_arith)
        requires
            bdf == b * d * f,
    ;
    let pa = abs_int(p);
    let ra = abs_int(r);
    lemma_distr(pa * (d * f), ra * (b * d), b * f);
    lemma_distr(pa * f, ra * b, bdf);
    assert(pa * (d * f) * (b * f) == pa * f * bdf) by (nonlinear_arith)
        requires
            bdf == b * d * f,
    ;
    assert(ra * (b * d) * (b * f) == ra * b * bdf) by (nonlinear_arith)
        requires
            bdf == b * d * f,
    ;
    assert((abs_int(u) * d) * bdf <= (abs_int(p) * f + abs_int(r) * b) * bdf) by (nonlinear_arith)
        requires
            abs_int(u) * d <= abs_int(p) * f + abs_int(r) * b,
            bdf > 0,
    ;
}

proof fn lemma_add_regroup(w: (int, int), x: (int, int), y: (int, int), z: (int, int))
    ensures
        q_add(q_add(w, x), q_add(y, z)) == q_add(q_add(w, y), q_add(x, z)),
{
    let (w0, w1) = (w.0, w.1);
    let (x0, x1) = (x.0, x.1);
    let (y0, y1) = (y.0, y.1);
    let (z0, z1) = (z.0, z.1);
    lemma_distr(w0 * x1, x0 * w1, y1 * z1);
    lemma_distr(y0 * z1, z0 * y1, w1 * x1);
    lemma_distr(w0 * y1, y0 * w1, x1 * z1);
    lemma_distr(x0 * z1, z0 * x1, w1 * y1);
    assert(w0 * x1 * (y1 * z1) == w0 * y1 * (x1 * z1)) by (nonlinear_arith);
    assert(x0 * w1 * (y1 * z1) == x0 * z1 * (w1 * y1)) by (nonlinear_arith);
    assert(y0 * z1 * (w1 * x1) == y0 * w1 * (x1 * z1)) by (nonlinear_arith);
    assert(z0 * y1 * (w1 * x1) == z0 * x1 * (w1 * y1)) by (nonlinear_arith);
    assert((w1 * x1) * (y1 * z1) == (w1 * y1) * (x1 * z1)) by (nonlinear_arith);
}

proof fn lemma_pos_den(x: (i64, i64), y: (i64, i64))
    requires
        x.1 > 0,
        y.1 > 0,
    ensures
        q_sub(q(x), q(y)).1 > 0,
        q_abs(q_sub(q(x), q(y))).1 > 0,
{
    assert((x.1 as int) * (y.1 as int) > 0) by (nonlinear_arith)
        requires
            x.1 > 0,
            y.1 > 0,
    ;
}

proof fn lemma_add_pos(x: (int, int), y: (int, int))
    requires
        x.1 > 0,
        y.1 > 0,
    ensures
        q_add(x, y).1 > 0,
{
    assert(x.1 * y.1 > 0) by (nonlinear_arith)
        requires
            x.1 > 0,
            y.1 > 0,
    ;
}

proof fn lemma_col_tri(
    a: Seq<Vec<(i64, i64)>>,
    b: Seq<Vec<(i64, i64)>>,
    c: Seq<Vec<(i64, i64)>>,
    n: int,
    j: int,
    i: int,
)
    requires
        tensor_ok(a, n),
        tensor_ok(b, n),
        tensor_ok(c, n),
        0 <= j < n,
        0 <= i <= n,
    ensures
        q_le(col_exact(a, c, j, i), q_add(col_exact(a, b, j, i), col_exact(b, c, j, i))),
    decreases i,
{
    if i > 0 {
        lemma_col_tri(a, b, c, n, j, i - 1);
        lemma_col_exact(a, b, n, j, i - 1);
        lemma_col_exact(b, c, n, j, i - 1);
        lemma_col_exact(a, c, n, j, i - 1);
        let x = at(a, i - 1, j);
        let y = at(b, i - 1, j);
        let z = at(c, i - 1, j);
        lemma_pos_den(x, y);
        lemma_pos_den(y, z);
        lemma_pos_den(x, z);
        let tab = q_abs(q_sub(q(x), q(y)));
        let tbc = q_abs(q_sub(q(y), q(z)));
        let tac = q_abs(q_sub(q(x), q(z)));
        let cab = col_exact(a, b, j, i - 1);
        let cbc = col_exact(b, c, j, i - 1);
        let cac = col_exact(a, c, j, i - 1);
        lemma_abs_tri(q(x), q(y), q(z));
        lemma_add_pos(cab, cbc);
        lemma_add_pos(tab, tbc);
        lemma_le_add(cac, q_add(cab, cbc), tac, q_add(tab, tbc));
        lemma_add_regroup(cab, cbc, tab, tbc);
        assert(col_exact(a, b, j, i) == q_add(cab, tab));
        assert(col_exact(b, c, j, i) == q_add(cbc, tbc));
        assert(col_exact(a, c, j, i) == q_add(cac, tac));
    } else {
        assert(q_add((0int, 1int), (0int, 1int)) == (0int, 1int));
    }
}

proof fn lemma_col_le_max(a: Seq<Vec<(i64, i64)>>, b: Seq<Vec<(i64, i64)>>, n: int, j: int, k: int)
    requires
        tensor_ok(a, n),
        tensor_ok(b, n),
        0 <= j < k <= n,
    ensures
        q_le(col_exact(a, b, j, n), max_exact(a, b, n, k)),
    decreases k,
{
    lemma_col_exact(a, b, n, k - 1, n);
    lemma_max_exact(a, b, n, k - 1);
    let cc = col_exact(a, b, k - 1, n);
    let m = max_exact(a, b, n, k - 1);
    if j < k - 1 {
        lemma_col_le_max(a, b, n, j, k - 1);
        lemma_col_exact(a, b, n, j, n);
        assert(q_le(m, max_exact(a, b, n, k)));
        lemma_le_trans(col_exact(a, b, j, n), m, max_exact(a, b, n, k));
    }
}

proof fn lemma_max_tri(
    a: Seq<Vec<(i64, i64)>>,
    b: Seq<Vec<(i64, i64)>>,
    c: Seq<Vec<(i64, i64)>>,
    n: int,
    k: int,
)
    requires
        tensor_ok(a, n),
        tensor_ok(b, n),
        tensor_ok(c, n),
        0 <= k <= n,
    ensures
        q_le(max_exact(a, c, n, k), q_add(max_exact(a, b, n, n), max_exact(b, c, n, n))),
    decreases k,
{
    let mab = max_exact(a, b, n, n);
    let mbc = max_exact(b, c, n, n);
    lemma_max_exact(a, b, n, n);
    lemma_max_exact(b, c, n, n);
    lemma_add_pos(mab, mbc);
    let bound = q_add(mab, mbc);
    assert(bound.0 >= 0) by (nonlinear_arith)
        requires
            bound == q_add(mab, mbc),
            mab.0 >= 0,
            mab.1 > 0,
            mbc.0 >= 0,
            mbc.1 > 0,
    ;
    if k > 0 {
        lemma_max_tri(a, b, c, n, k - 1);
        lemma_col_tri(a, b, c, n, k - 1, n);
        lemma_col_le_max(a, b, n, k - 1, n);
        lemma_col_le_max(b, c, n, k - 1, n);
        lemma_col_exact(a, b, n, k - 1, n);
        lemma_col_exact(b, c, n, k - 1, n);
        lemma_col_exact(a, c, n, k - 1, n);
        let cab = col_exact(a, b, k - 1, n);
        let cbc = col_exact(b, c, k - 1, n);
        lemma_add_pos(cab, cbc);
        lemma_le_add(cab, mab, cbc, mbc);
        lemma_le_trans(col_exact(a, c, k - 1, n), q_add(cab, cbc), bound);
    } else {
        assert(0 * bound.1 <= bound.0 * 1);
    }
}

/// Triangle inequality: `D_Φ(h1, h3) <= D_Φ(h1, h2) + D_Φ(h2, h3)`.
pub proof fn law_triangle_inequality(h1: PhaseHypergraph, h2: PhaseHypergraph, h3: PhaseHypergraph)
    requires
        h1.dimension == h2.dimension,
        h2.dimension == h3.dimension,
        tensor_ok(h1.tensor@, h1.dimension as int),
        tensor_ok(h2.tensor@, h2.dimension as int),
        tensor_ok(h3.tensor@, h3.dimension as int),
    ensures
        q_le(phase_distance(h1, h3), q_add(phase_distance(h1, h2), phase_distance(h2, h3))),
{
    let n = h1.dimension as int;
    lemma_max_tri(h1.tensor@, h2.tensor@, h3.tensor@, n, n);
}


/// The same hypergraph: equal dimensions and equal rows of entries.
pub open spec fn same_graph(x: PhaseHypergraph, y: PhaseHypergraph) -> bool {
    &&& x.dimension == y.dimension
    &&& x.tensor@.len() == y.tensor@.len()
    &&& forall|i: int| 0 <= i < x.tensor@.len() ==> (#[trigger] x.tensor@[i])@ == y.tensor@[i]@
}

impl PhaseHypergraph {
    /// A copy of the hypergraph.
    pub fn duplicate(&self) -> (r: PhaseHypergraph)
        ensures
            same_graph(r, *self),
    {
        let mut tensor: Vec<Vec<(i64, i64)>> = Vec::new();
        let mut i: usize = 0;
        while i < self.tensor.len()
            invariant
                i <= self.tensor@.len(),
                tensor@.len() == i,
                forall|k: int| 0 <= k < i ==> (#[trigger] tensor@[k])@ == self.tensor@[k]@,
            decreases self.tensor@.len() - i,
        {
            let src = &self.tensor[i];
            let mut row: Vec<(i64, i64)> = Vec::new();
            let mut j: usize = 0;
            while j < src.len()
                invariant
                    j <= src@.len(),
                    row@ == src@.take(j as int),
                decreases src@.len() - j,
            {
                row.push(src[j]);
                proof {
                    assert(src@.take(j + 1) =~= src@.take(j as int).push(src@[j as int]));
                }
                j += 1;
            }
            proof {
                assert(src@.take(src@.len() as int) =~= src@);
            }
            tensor.push(row);
            i += 1;
        }
        PhaseHypergraph { dimension: self.dimension, tensor }
    }
}

} // verus!
