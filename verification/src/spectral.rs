use vstd::prelude::*;
use std::cmp::Ordering;
use vstd::utf8::encode_utf8;
use crate::anchor::{anchor_ok, is_theorem_anchor, law_trim_idempotent, trim_chars, trimmed};
use crate::clock::unix_time_secs;
use crate::digest::{hex_lower, sha256, sha256_of, to_hex};
use crate::rational::{add_fits, error_text, rat_add, rat_mul, rat_order, EnsembleError, PosRat};

verus! {

/// A governed ensemble: adjacency weights `A` and per-node gains `λ`, exact rationals.
#[derive(Debug, PartialEq)]
pub struct Ensemble {
    pub name: String,
    pub adjacency: Vec<Vec<PosRat>>,
    pub lambdas: Vec<PosRat>,
    pub theorem_name: String,
}

/// Name given to an ensemble that declares none.
pub fn default_ensemble_name() -> (s: String)
    ensures
        s@ == "default_ensemble"@,
{
    proof {
        reveal_strlit("default_ensemble");
    }
    "default_ensemble".to_owned()
}

/// Certificate that an ensemble passed the exact 1-norm gate.
#[derive(Debug, PartialEq)]
pub struct EnsembleContractivityReceipt {
    pub hash: String,
    pub ensemble_name: String,
    pub dimension: usize,
    /// Reduced `||G||_1`.
    pub exact_rational_norm_1: (u64, u64),
    /// Whether the numerator is below the denominator.
    pub is_norm_contractive: bool,
    pub theorem_name: String,
    pub timestamp: u64,
}

/// First row at or after `i` whose length is not `n`.
pub open spec fn first_bad_row(adj: Seq<Vec<PosRat>>, n: int, i: int) -> Option<int>
    decreases adj.len() - i,
{
    if i < 0 || i >= adj.len() {
        None
    } else if adj[i]@.len() != n {
        Some(i)
    } else {
        first_bad_row(adj, n, i + 1)
    }
}

/// Running sum of the first `i` entries of column `j` of `G = A diag(λ)`; `None` where a
/// cross-multiplied sum would overflow `u128`.
pub open spec fn column_sum(adj: Seq<Vec<PosRat>>, lam: Seq<PosRat>, j: int, i: int) -> Option<
    Result<PosRat, EnsembleError>,
>
    decreases i,
{
    if i <= 0 {
        Some(Ok(PosRat { num: 0, den: 1 }))
    } else {
        match column_sum(adj, lam, j, i - 1) {
            None => None,
            Some(Err(e)) => Some(Err(e)),
            Some(Ok(c)) => match rat_mul(adj[i - 1]@[j], lam[j]) {
                Err(e) => Some(Err(e)),
                Ok(g) => if add_fits(c, g) {
                    Some(rat_add(c, g))
                } else {
                    None
                },
            },
        }
    }
}

/// Largest of the first `j` column sums (each over `n` rows), the first of equal maxima.
pub open spec fn max_column(adj: Seq<Vec<PosRat>>, lam: Seq<PosRat>, n: int, j: int) -> Option<
    Result<PosRat, EnsembleError>,
>
    decreases j,
{
    if j <= 0 {
        Some(Ok(PosRat { num: 0, den: 1 }))
    } else {
        match max_column(adj, lam, n, j - 1) {
            None => None,
            Some(Err(e)) => Some(Err(e)),
            Some(Ok(m)) => match column_sum(adj, lam, j - 1, n) {
                None => None,
                Some(Err(e)) => Some(Err(e)),
                Some(Ok(c)) => Some(Ok(if rat_order(c, m) == Ordering::Greater { c } else { m })),
            },
        }
    }
}

/// `||A diag(λ)||_1`, the largest column sum, with the shape checks first; `None` where the
/// arithmetic would overflow `u128`.
pub open spec fn spec_one_norm(e: Ensemble) -> Option<Result<PosRat, EnsembleError>> {
    let n = e.adjacency@.len() as int;
    if n == 0 {
        Some(Ok(PosRat { num: 0, den: 1 }))
    } else if n != e.lambdas@.len() {
        Some(Err(EnsembleError::DimensionMismatch { matrix: n as usize, lambda: e.lambdas@.len() as usize }))
    } else {
        match first_bad_row(e.adjacency@, n, 0) {
            Some(i) => Some(
                Err(
                    EnsembleError::MatrixNotSquare {
                        row: i as usize,
                        len: e.adjacency@[i]@.len() as usize,
                        expected: n as usize,
                    },
                ),
            ),
            None => max_column(e.adjacency@, e.lambdas@, n, n),
        }
    }
}

/// Result of certifying `e`: its exact 1-norm, or the first error met in order.
pub open spec fn certify_check(e: Ensemble) -> Option<Result<PosRat, EnsembleError>> {
    if !anchor_ok(e.theorem_name@) {
        Some(Err(EnsembleError::MissingTheoremAnchor))
    } else if e.adjacency@.len() == 0 && e.lambdas@.len() != 0 {
        Some(Err(EnsembleError::DimensionMismatch { matrix: 0, lambda: e.lambdas@.len() as usize }))
    } else if (exists|r: int| 0 <= r < e.adjacency@.len() && #[trigger] e.adjacency@[r]@.len() == 0)
        && e.lambdas@.len() != 0 {
        Some(Err(EnsembleError::InvalidRational))
    } else {
        match spec_one_norm(e) {
            None => None,
            Some(Err(x)) => Some(Err(x)),
            Some(Ok(n1)) => if n1.num < n1.den {
                Some(Ok(n1))
            } else {
                Some(Err(EnsembleError::NormContractivityViolation { norm_1: (n1.num, n1.den) }))
            },
        }
    }
}

/// Little-endian bytes of `x`.
pub open spec fn le64(x: u64) -> Seq<u8> {
    seq![
        (x % 0x100) as u8,
        (x / 0x100 % 0x100) as u8,
        (x / 0x1_0000 % 0x100) as u8,
        (x / 0x100_0000 % 0x100) as u8,
        (x / 0x1_0000_0000 % 0x100) as u8,
        (x / 0x100_0000_0000 % 0x100) as u8,
        (x / 0x1_0000_0000_0000 % 0x100) as u8,
        (x / 0x100_0000_0000_0000 % 0x100) as u8,
    ]
}

pub open spec fn rats_bytes(s: Seq<PosRat>) -> Seq<u8>
    decreases s.len(),
{
    if s.len() == 0 {
        Seq::empty()
    } else {
        rats_bytes(s.drop_last()) + le64(s.last().num) + le64(s.last().den)
    }
}

pub open spec fn rows_bytes(s: Seq<Vec<PosRat>>) -> Seq<u8>
    decreases s.len(),
{
    if s.len() == 0 {
        Seq::empty()
    } else {
        rows_bytes(s.drop_last()) + rats_bytes(s.last()@)
    }
}

/// What the receipt hash covers: names, the norm, every cell of `A`, every `λ`.
pub open spec fn certify_hash_input(e: Ensemble, n1: PosRat) -> Seq<u8> {
    encode_utf8(e.name@) + encode_utf8(e.theorem_name@) + le64(n1.num) + le64(n1.den) + rows_bytes(
        e.adjacency@,
    ) + rats_bytes(e.lambdas@)
}

/// The receipt issued for `e` with norm `n1` at time `t`.
pub open spec fn receipt_matches(rc: EnsembleContractivityReceipt, e: Ensemble, n1: PosRat, t: u64) -> bool {
    &&& rc.hash@ == hex_lower(sha256_of(certify_hash_input(e, n1)))
    &&& rc.ensemble_name@ == e.name@
    &&& rc.dimension == e.adjacency@.len()
    &&& rc.exact_rational_norm_1 == (n1.num, n1.den)
    &&& rc.is_norm_contractive
    &&& rc.theorem_name@ == trim_chars(e.theorem_name@)
    &&& rc.timestamp == t
}

impl Ensemble {
    /// An ensemble over exact rationals, without a theorem anchor yet.
    pub fn from_rationals(name: &str, adjacency: Vec<Vec<PosRat>>, lambdas: Vec<PosRat>) -> (e: Self)
        ensures
            e.name@ == name@,
            e.adjacency == adjacency,
            e.lambdas == lambdas,
            e.theorem_name@ == Seq::<char>::empty(),
    {
        Self { name: name.to_owned(), adjacency, lambdas, theorem_name: String::new() }
    }

    /// Sets the theorem anchor.
    pub fn with_theorem_name(self, theorem_name: &str) -> (e: Self)
        ensures
            e.name == self.name,
            e.adjacency == self.adjacency,
            e.lambdas == self.lambdas,
            e.theorem_name@ == theorem_name@,
    {
        Self { theorem_name: theorem_name.to_owned(), ..self }
    }
}

impl EnsembleContractivityReceipt {
    /// A receipt is valid when it names a theorem anchor.
    pub fn validate(&self) -> (r: Result<(), EnsembleError>)
        ensures
            r is Ok <==> anchor_ok(self.theorem_name@),
            r matches Err(x) ==> x == EnsembleError::MissingTheoremAnchor,
    {
        if is_theorem_anchor(self.theorem_name.as_str()) {
            Ok(())
        } else {
            Err(EnsembleError::MissingTheoremAnchor)
        }
    }
}

fn fits(a: PosRat, b: PosRat) -> (r: bool)
    ensures
        r == add_fits(a, b),
{
    let x = (a.num as u128).checked_mul(b.den as u128);
    let y = (b.num as u128).checked_mul(a.den as u128);
    proof {
        assert(a.num * b.den <= u64::MAX * u64::MAX) by (nonlinear_arith);
        assert(b.num * a.den <= u64::MAX * u64::MAX) by (nonlinear_arith);
    }
    match (x, y) {
        (Some(p), Some(q)) => p.checked_add(q).is_some(),
        _ => false,
    }
}

fn column_norm(adj: &Vec<Vec<PosRat>>, lam: &Vec<PosRat>, j: usize, n: usize) -> (r: Option<
    Result<PosRat, EnsembleError>,
>)
    requires
        n == adj@.len(),
        n == lam@.len(),
        j < n,
        first_bad_row(adj@, n as int, 0) is None,
    ensures
        r == column_sum(adj@, lam@, j as int, n as int),
{
    proof {
        lemma_rows_square(adj@, n as int, 0);
    }
    let mut col = PosRat::zero();
    let mut i: usize = 0;
    while i < n
        invariant
            0 <= i <= n,
            n == adj@.len(),
            n == lam@.len(),
            j < n,
            forall|r: int| 0 <= r < n ==> (#[trigger] adj@[r])@.len() == n,
            column_sum(adj@, lam@, j as int, i as int) == Some(Ok::<PosRat, EnsembleError>(col)),
        decreases n - i,
    {
        let g = match adj[i][j].mul(lam[j]) {
            Ok(g) => g,
            Err(e) => {
                proof {
                    lemma_column_sticky(adj@, lam@, j as int, i + 1, n as int);
                }
                return Some(Err(e));
            },
        };
        if !fits(col, g) {
            proof {
                lemma_column_sticky(adj@, lam@, j as int, i + 1, n as int);
            }
            return None;
        }
        col = match col.add(g) {
            Ok(c) => c,
            Err(e) => {
                proof {
                    lemma_column_sticky(adj@, lam@, j as int, i + 1, n as int);
                }
                return Some(Err(e));
            },
        };
        i = i + 1;
    }
    Some(Ok(col))
}

proof fn lemma_column_sticky(adj: Seq<Vec<PosRat>>, lam: Seq<PosRat>, j: int, i: int, k: int)
    requires
        0 <= i <= k,
        !(column_sum(adj, lam, j, i) matches Some(Ok(_))),
    ensures
        column_sum(adj, lam, j, k) == column_sum(adj, lam, j, i),
    decreases k - i,
{
    if k > i {
        lemma_column_sticky(adj, lam, j, i, k - 1);
    }
}

proof fn lemma_max_sticky(adj: Seq<Vec<PosRat>>, lam: Seq<PosRat>, n: int, i: int, k: int)
    requires
        0 <= i <= k,
        !(max_column(adj, lam, n, i) matches Some(Ok(_))),
    ensures
        max_column(adj, lam, n, k) == max_column(adj, lam, n, i),
    decreases k - i,
{
    if k > i {
        lemma_max_sticky(adj, lam, n, i, k - 1);
    }
}

proof fn lemma_prefix_stops(adj: Seq<Vec<PosRat>>, lam: Seq<PosRat>, j: usize, k: usize)
    requires
        j < k,
        max_prefix(adj, lam, j) matches Some(Ok(_)),
        !(column_sum(adj, lam, j as int, adj.len() as int) matches Some(Ok(_))),
    ensures
        max_prefix(adj, lam, k) == column_sum(adj, lam, j as int, adj.len() as int),
{
    lemma_max_sticky(adj, lam, adj.len() as int, j + 1, k as int);
}

proof fn lemma_rows_square(adj: Seq<Vec<PosRat>>, n: int, i: int)
    requires
        0 <= i <= adj.len(),
        first_bad_row(adj, n, i) is None,
    ensures
        forall|r: int| i <= r < adj.len() ==> (#[trigger] adj[r])@.len() == n,
    decreases adj.len() - i,
{
    if i < adj.len() {
        lemma_rows_square(adj, n, i + 1);
    }
}

/// The first `j` columns of `adj` are all of full height.
pub open spec fn rows_ok(adj: Seq<Vec<PosRat>>) -> bool {
    first_bad_row(adj, adj.len() as int, 0) is None
}

/// Largest of the first `j` column sums of the square ensemble.
pub open spec fn max_prefix(adj: Seq<Vec<PosRat>>, lam: Seq<PosRat>, j: usize) -> Option<Result<PosRat, EnsembleError>> {
    max_column(adj, lam, adj.len() as int, j as int)
}

fn largest_column(adj: &Vec<Vec<PosRat>>, lam: &Vec<PosRat>, n: usize) -> (r: Option<
    Result<PosRat, EnsembleError>,
>)
    requires
        n == adj@.len(),
        n == lam@.len(),
        rows_ok(adj@),
    ensures
        r == max_prefix(adj@, lam@, n),
{
    let mut best = PosRat::zero();
    let mut j: usize = 0;
    while j < n
        invariant
            0 <= j <= n,
            n == adj@.len(),
            n == lam@.len(),
            rows_ok(adj@),
            max_prefix(adj@, lam@, j) == Some(Ok::<PosRat, EnsembleError>(best)),
        decreases n - j,
    {
        let col = match column_norm(adj, lam, j, n) {
            None => {
                proof {
                    lemma_prefix_stops(adj@, lam@, j, n);
                }
                return None;
            },
            Some(Err(e)) => {
                proof {
                    lemma_prefix_stops(adj@, lam@, j, n);
                }
                return Some(Err(e));
            },
            Some(Ok(c)) => c,
        };
        match col.cmp_q(best) {
            Ordering::Greater => {
                best = col;
            },
            _ => {},
        }
        j = j + 1;
    }
    Some(Ok(best))
}

/// `||A diag(λ)||_1` over exact rationals, or `None` where an intermediate cross-multiplied
/// sum would not fit in `u128`.
pub fn try_one_norm(ensemble: &Ensemble) -> (r: Option<Result<PosRat, EnsembleError>>)
    ensures
        r == spec_one_norm(*ensemble),
{
    let n = ensemble.adjacency.len();
    if n == 0 {
        return Some(Ok(PosRat::zero()));
    }
    if n != ensemble.lambdas.len() {
        return Some(Err(EnsembleError::DimensionMismatch { matrix: n, lambda: ensemble.lambdas.len() }));
    }
    let mut i: usize = 0;
    while i < n
        invariant
            0 <= i <= n,
            n == ensemble.adjacency@.len(),
            n == ensemble.lambdas@.len(),
            n > 0,
            first_bad_row(ensemble.adjacency@, n as int, 0) == first_bad_row(ensemble.adjacency@, n as int, i as int),
        decreases n - i,
    {
        let len = ensemble.adjacency[i].len();
        if len != n {
            assert(first_bad_row(ensemble.adjacency@, n as int, i as int) == Some(i as int));
            return Some(Err(EnsembleError::MatrixNotSquare { row: i, len, expected: n }));
        }
        i = i + 1;
    }
    largest_column(&ensemble.adjacency, &ensemble.lambdas, n)
}

/// `||A diag(λ)||_1` over exact rationals: the largest column sum of `G = A diag(λ)`.
pub fn one_norm(ensemble: &Ensemble) -> (r: Result<PosRat, EnsembleError>)
    requires
        spec_one_norm(*ensemble) is Some,
    ensures
        spec_one_norm(*ensemble) == Some(r),
{
    match try_one_norm(ensemble) {
        Some(r) => r,
        None => Err(EnsembleError::RationalOverflow),
    }
}

fn push_le64(out: &mut Vec<u8>, x: u64)
    ensures
        final(out)@ == old(out)@ + le64(x),
{
    proof {
        assert(x & 0xff == x % 0x100) by (bit_vector);
        assert((x >> 8u64) & 0xff == x / 0x100 % 0x100) by (bit_vector);
        assert((x >> 16u64) & 0xff == x / 0x1_0000 % 0x100) by (bit_vector);
        assert((x >> 24u64) & 0xff == x / 0x100_0000 % 0x100) by (bit_vector);
        assert((x >> 32u64) & 0xff == x / 0x1_0000_0000 % 0x100) by (bit_vector);
        assert((x >> 40u64) & 0xff == x / 0x100_0000_0000 % 0x100) by (bit_vector);
        assert((x >> 48u64) & 0xff == x / 0x1_0000_0000_0000 % 0x100) by (bit_vector);
        assert((x >> 56u64) & 0xff == x / 0x100_0000_0000_0000 % 0x100) by (bit_vector);
    }
    out.push((x & 0xff) as u8);
    out.push(((x >> 8) & 0xff) as u8);
    out.push(((x >> 16) & 0xff) as u8);
    out.push(((x >> 24) & 0xff) as u8);
    out.push(((x >> 32) & 0xff) as u8);
    out.push(((x >> 40) & 0xff) as u8);
    out.push(((x >> 48) & 0xff) as u8);
    out.push(((x >> 56) & 0xff) as u8);
    assert(out@ =~= old(out)@ + le64(x));
}

fn push_rats(out: &mut Vec<u8>, v: &Vec<PosRat>)
    ensures
        final(out)@ == old(out)@ + rats_bytes(v@),
{
    let mut i: usize = 0;
    while i < v.len()
        invariant
            0 <= i <= v.len(),
            out@ == old(out)@ + rats_bytes(v@.take(i as int)),
        decreases v.len() - i,
    {
        proof {
            assert(v@.take(i + 1).drop_last() =~= v@.take(i as int));
        }
        push_le64(out, v[i].num);
        push_le64(out, v[i].den);
        i = i + 1;
    }
    assert(v@.take(v.len() as int) =~= v@);
}

fn push_bytes(out: &mut Vec<u8>, b: &[u8])
    ensures
        final(out)@ == old(out)@ + b@,
{
    let mut i: usize = 0;
    while i < b.len()
        invariant
            0 <= i <= b.len(),
            out@ == old(out)@ + b@.take(i as int),
        decreases b.len() - i,
    {
        out.push(b[i]);
        proof {
            assert(b@.take(i + 1) =~= b@.take(i as int).push(b@[i as int]));
        }
        i = i + 1;
    }
    assert(b@.take(b.len() as int) =~= b@);
}

fn hash_input(ensemble: &Ensemble, n1: PosRat) -> (out: Vec<u8>)
    ensures
        out@ == certify_hash_input(*ensemble, n1),
{
    let mut out: Vec<u8> = Vec::new();
    push_bytes(&mut out, ensemble.name.as_str().as_bytes());
    push_bytes(&mut out, ensemble.theorem_name.as_str().as_bytes());
    push_le64(&mut out, n1.num);
    push_le64(&mut out, n1.den);
    let ghost mid = out@;
    let mut i: usize = 0;
    while i < ensemble.adjacency.len()
        invariant
            0 <= i <= ensemble.adjacency@.len(),
            out@ == mid + rows_bytes(ensemble.adjacency@.take(i as int)),
        decreases ensemble.adjacency.len() - i,
    {
        proof {
            assert(ensemble.adjacency@.take(i + 1).drop_last() =~= ensemble.adjacency@.take(i as int));
        }
        push_rats(&mut out, &ensemble.adjacency[i]);
        i = i + 1;
    }
    assert(ensemble.adjacency@.take(ensemble.adjacency.len() as int) =~= ensemble.adjacency@);
    push_rats(&mut out, &ensemble.lambdas);
    assert(out@ =~= certify_hash_input(*ensemble, n1));
    out
}

/// The error message of `e`, as the certification reports it.
fn fail(e: EnsembleError) -> (r: Result<EnsembleContractivityReceipt, String>)
    ensures
        r matches Err(m) && m@ == error_text(e),
{
    Err(e.message())
}

/// Runs the certification checks in order: the theorem anchor, the shape, and the exact
/// gate `||G||_1 < 1`; `None` where the 1-norm arithmetic would overflow.
pub fn certify_outcome(ensemble: &Ensemble) -> (r: Option<Result<PosRat, EnsembleError>>)
    ensures
        r == certify_check(*ensemble),
{
    if !is_theorem_anchor(ensemble.theorem_name.as_str()) {
        return Some(Err(EnsembleError::MissingTheoremAnchor));
    }
    if ensemble.adjacency.len() == 0 && ensemble.lambdas.len() != 0 {
        return Some(Err(EnsembleError::DimensionMismatch { matrix: 0, lambda: ensemble.lambdas.len() }));
    }
    let mut any_empty = false;
    let mut i: usize = 0;
    while i < ensemble.adjacency.len()
        invariant
            0 <= i <= ensemble.adjacency@.len(),
            any_empty == exists|r: int| 0 <= r < i && #[trigger] ensemble.adjacency@[r]@.len() == 0,
        decreases ensemble.adjacency.len() - i,
    {
        if ensemble.adjacency[i].len() == 0 {
            any_empty = true;
        }
        i = i + 1;
    }
    if any_empty && ensemble.lambdas.len() != 0 {
        return Some(Err(EnsembleError::InvalidRational));
    }
    match try_one_norm(ensemble) {
        Some(Ok(n1)) => {
            if n1.lt_one() {
                Some(Ok(n1))
            } else {
                Some(Err(EnsembleError::NormContractivityViolation { norm_1: n1.as_pair() }))
            }
        },
        Some(Err(e)) => Some(Err(e)),
        None => None,
    }
}

/// Checks the theorem anchor and the exact gate `||G||_1 < 1`, and issues the receipt
/// stamped with `timestamp`.
pub fn certify_at(ensemble: &Ensemble, timestamp: u64) -> (r: Result<EnsembleContractivityReceipt, String>)
    requires
        certify_check(*ensemble) is Some,
    ensures
        match certify_check(*ensemble) {
            Some(Ok(n1)) => r matches Ok(rc) && receipt_matches(rc, *ensemble, n1, timestamp),
            Some(Err(x)) => r matches Err(m) && m@ == error_text(x),
            None => false,
        },
{
    let n1 = match certify_outcome(ensemble) {
        Some(Ok(n1)) => n1,
        Some(Err(e)) => {
            return fail(e);
        },
        None => {
            return fail(EnsembleError::RationalOverflow);
        },
    };
    let input = hash_input(ensemble, n1);
    let digest = sha256(input.as_slice());
    let hash = to_hex(digest.as_slice());
    let theorem = trimmed(ensemble.theorem_name.as_str());
    let receipt = EnsembleContractivityReceipt {
        hash,
        ensemble_name: ensemble.name.clone(),
        dimension: ensemble.adjacency.len(),
        exact_rational_norm_1: n1.as_pair(),
        is_norm_contractive: true,
        theorem_name: theorem,
        timestamp,
    };
    proof {
        law_trim_idempotent(ensemble.theorem_name@);
    }
    match receipt.validate() {
        Ok(()) => Ok(receipt),
        Err(e) => fail(e),
    }
}

/// Checks the theorem anchor and the exact gate `||G||_1 < 1`, and issues the receipt
/// stamped with the current time.
pub fn validate_and_certify(ensemble: &Ensemble) -> (r: Result<EnsembleContractivityReceipt, String>)
    requires
        certify_check(*ensemble) is Some,
    ensures
        match certify_check(*ensemble) {
            Some(Ok(n1)) => r matches Ok(rc) && receipt_matches(rc, *ensemble, n1, rc.timestamp),
            Some(Err(x)) => r matches Err(m) && m@ == error_text(x),
            None => false,
        },
{
    let now = unix_time_secs();
    certify_at(ensemble, now)
}

proof fn lemma_first_bad_row_views(a1: Seq<Vec<PosRat>>, a2: Seq<Vec<PosRat>>, n: int, i: int)
    requires
        a1.len() == a2.len(),
        forall|r: int| 0 <= r < a1.len() ==> (#[trigger] a1[r])@ == a2[r]@,
    ensures
        first_bad_row(a1, n, i) == first_bad_row(a2, n, i),
    decreases a1.len() - i,
{
    if 0 <= i < a1.len() {
        lemma_first_bad_row_views(a1, a2, n, i + 1);
    }
}

proof fn lemma_column_sum_views(a1: Seq<Vec<PosRat>>, a2: Seq<Vec<PosRat>>, lam: Seq<PosRat>, j: int, i: int)
    requires
        a1.len() == a2.len(),
        i <= a1.len(),
        forall|r: int| 0 <= r < a1.len() ==> (#[trigger] a1[r])@ == a2[r]@,
    ensures
        column_sum(a1, lam, j, i) == column_sum(a2, lam, j, i),
    decreases i,
{
    if i > 0 {
        lemma_column_sum_views(a1, a2, lam, j, i - 1);
        assert(a1[i - 1]@ == a2[i - 1]@);
    }
}

proof fn lemma_max_column_views(a1: Seq<Vec<PosRat>>, a2: Seq<Vec<PosRat>>, lam: Seq<PosRat>, n: int, j: int)
    requires
        a1.len() == a2.len(),
        n <= a1.len(),
        forall|r: int| 0 <= r < a1.len() ==> (#[trigger] a1[r])@ == a2[r]@,
    ensures
        max_column(a1, lam, n, j) == max_column(a2, lam, n, j),
    decreases j,
{
    if j > 0 {
        lemma_max_column_views(a1, a2, lam, n, j - 1);
        lemma_column_sum_views(a1, a2, lam, j - 1, n);
    }
}

/// The certification reads an ensemble only through the values of its rows, its gains and
/// its theorem anchor.
pub proof fn lemma_certify_views(e1: Ensemble, e2: Ensemble)
    requires
        e1.theorem_name@ == e2.theorem_name@,
        e1.lambdas@ == e2.lambdas@,
        e1.adjacency@.len() == e2.adjacency@.len(),
        forall|r: int| 0 <= r < e1.adjacency@.len() ==> (#[trigger] e1.adjacency@[r])@ == e2.adjacency@[r]@,
    ensures
        certify_check(e1) == certify_check(e2),
{
    let a1 = e1.adjacency@;
    let a2 = e2.adjacency@;
    let n = a1.len() as int;
    lemma_first_bad_row_views(a1, a2, n, 0);
    lemma_max_column_views(a1, a2, e1.lambdas@, n, n);
    assert((exists|r: int| 0 <= r < a1.len() && #[trigger] a1[r]@.len() == 0) == (exists|r: int|
        0 <= r < a2.len() && #[trigger] a2[r]@.len() == 0)) by {
        if exists|r: int| 0 <= r < a1.len() && #[trigger] a1[r]@.len() == 0 {
            let r = choose|r: int| 0 <= r < a1.len() && #[trigger] a1[r]@.len() == 0;
            assert(a2[r]@.len() == 0);
        }
        if exists|r: int| 0 <= r < a2.len() && #[trigger] a2[r]@.len() == 0 {
            let r = choose|r: int| 0 <= r < a2.len() && #[trigger] a2[r]@.len() == 0;
            assert(a1[r]@.len() == 0);
        }
    }
    match first_bad_row(a1, n, 0) {
        Some(i) => {
            assert(a1[i]@.len() == a2[i]@.len()) by {
                lemma_first_bad_row_in(a1, n, 0);
            }
        },
        None => {},
    }
}

proof fn lemma_first_bad_row_in(a: Seq<Vec<PosRat>>, n: int, i: int)
    ensures
        first_bad_row(a, n, i) matches Some(r) ==> 0 <= r < a.len(),
    decreases a.len() - i,
{
    if 0 <= i < a.len() && a[i]@.len() == n {
        lemma_first_bad_row_in(a, n, i + 1);
    }
}


/// Certification checks the theorem anchor first: an ensemble without one is refused with
/// `MissingTheoremAnchor`, whatever its matrix.
pub proof fn law_certify_anchor_first(e: Ensemble)
    ensures
        !anchor_ok(e.theorem_name@) ==> certify_check(e) == Some(
            Err::<PosRat, EnsembleError>(EnsembleError::MissingTheoremAnchor),
        ),
{
}

/// Past the anchor and the shape checks, with the exact 1-norm `v` found, certification
/// succeeds exactly when `v < 1`, with `v` as the certified norm, and otherwise refuses
/// with `NormContractivityViolation` carrying `v`.
pub proof fn law_certify_norm_gate(e: Ensemble, v: PosRat)
    requires
        anchor_ok(e.theorem_name@),
        !(e.adjacency@.len() == 0 && e.lambdas@.len() != 0),
        !((exists|r: int| 0 <= r < e.adjacency@.len() && #[trigger] e.adjacency@[r]@.len() == 0)
            && e.lambdas@.len() != 0),
        spec_one_norm(e) == Some(Ok::<PosRat, EnsembleError>(v)),
    ensures
        v.num < v.den ==> certify_check(e) == Some(Ok::<PosRat, EnsembleError>(v)),
        v.num >= v.den ==> certify_check(e) == Some(
            Err::<PosRat, EnsembleError>(EnsembleError::NormContractivityViolation { norm_1: (v.num, v.den) }),
        ),
{
}

/// Two receipts issued for the same ensemble and norm differ at most in their time stamp:
/// the hash does not depend on when certification ran.
pub proof fn law_receipt_hash_timeless(
    rc1: EnsembleContractivityReceipt,
    rc2: EnsembleContractivityReceipt,
    e: Ensemble,
    n1: PosRat,
    t1: u64,
    t2: u64,
)
    requires
        receipt_matches(rc1, e, n1, t1),
        receipt_matches(rc2, e, n1, t2),
    ensures
        rc1.hash@ == rc2.hash@,
        rc1.ensemble_name@ == rc2.ensemble_name@,
        rc1.dimension == rc2.dimension,
        rc1.exact_rational_norm_1 == rc2.exact_rational_norm_1,
        rc1.theorem_name@ == rc2.theorem_name@,
{
}

/// `a <= b` as fractions, by cross-multiplication.
pub open spec fn rat_le(a: PosRat, b: PosRat) -> bool {
    a.num * b.den <= b.num * a.den
}

/// Column `j` of `G = A diag(λ)` (summed over `n` rows) is defined and at most `m`.
pub open spec fn column_at_most(adj: Seq<Vec<PosRat>>, lam: Seq<PosRat>, j: int, n: int, m: PosRat) -> bool {
    column_sum(adj, lam, j, n) matches Some(Ok(c)) && rat_le(c, m)
}

/// Column `j` of `G = A diag(λ)` (summed over `n` rows) is defined and equal to `m` in value.
pub open spec fn column_equals(adj: Seq<Vec<PosRat>>, lam: Seq<PosRat>, j: int, n: int, m: PosRat) -> bool {
    column_sum(adj, lam, j, n) matches Some(Ok(c)) && rat_le(c, m) && rat_le(m, c)
}

proof fn lemma_le_trans(a: PosRat, b: PosRat, c: PosRat)
    requires
        a.den > 0,
        b.den > 0,
        c.den > 0,
        rat_le(a, b),
        rat_le(b, c),
    ensures
        rat_le(a, c),
{
    let (x1, y1, x2, y2, x3, y3) = (a.num as int, a.den as int, b.num as int, b.den as int, c.num as int, c.den as int);
    assert(x1 * y3 <= x3 * y1) by (nonlinear_arith)
        requires
            x1 * y2 <= x2 * y1,
            x2 * y3 <= x3 * y2,
            y1 > 0,
            y2 > 0,
            y3 > 0,
            x1 >= 0,
            x2 >= 0,
            x3 >= 0,
    {
        assert((x1 * y2) * y3 <= (x2 * y1) * y3);
        assert((x2 * y3) * y1 <= (x3 * y2) * y1);
        assert((x1 * y3) * y2 <= (x3 * y1) * y2);
    }
}

proof fn lemma_column_den(adj: Seq<Vec<PosRat>>, lam: Seq<PosRat>, j: int, i: int)
    ensures
        column_sum(adj, lam, j, i) matches Some(Ok(c)) ==> c.den > 0,
    decreases i,
{
    if i > 0 {
        lemma_column_den(adj, lam, j, i - 1);
        if let Some(Ok(c)) = column_sum(adj, lam, j, i - 1) {
            if let Ok(g) = rat_mul(adj[i - 1]@[j], lam[j]) {
                crate::rational::law_rat_from_value((c.num * g.den + g.num * c.den) as nat, (c.den * g.den) as nat);
            }
        }
    }
}

/// The running maximum over the first `j` columns is at least every one of them and equal
/// in value to one of them (zero when there are none).
proof fn lemma_max_column_largest(adj: Seq<Vec<PosRat>>, lam: Seq<PosRat>, n: int, j: int, m: PosRat)
    requires
        max_column(adj, lam, n, j) == Some(Ok::<PosRat, EnsembleError>(m)),
    ensures
        m.den > 0,
        forall|k: int| 0 <= k < j ==> #[trigger] column_at_most(adj, lam, k, n, m),
        j > 0 ==> exists|k: int| 0 <= k < j && #[trigger] column_equals(adj, lam, k, n, m),
        j <= 0 ==> m == (PosRat { num: 0, den: 1 }),
    decreases j,
{
    if j > 0 {
        let m0 = max_column(adj, lam, n, j - 1)->Some_0->Ok_0;
        let c = column_sum(adj, lam, j - 1, n)->Some_0->Ok_0;
        assert(max_column(adj, lam, n, j - 1) == Some(Ok::<PosRat, EnsembleError>(m0)));
        assert(column_sum(adj, lam, j - 1, n) == Some(Ok::<PosRat, EnsembleError>(c)));
        lemma_max_column_largest(adj, lam, n, j - 1, m0);
        lemma_column_den(adj, lam, j - 1, n);
        assert(rat_le(m0, m));
        assert(rat_le(c, m));
        assert forall|k: int| 0 <= k < j implies #[trigger] column_at_most(adj, lam, k, n, m) by {
            if k < j - 1 {
                assert(column_at_most(adj, lam, k, n, m0));
                let ck = column_sum(adj, lam, k, n)->Some_0->Ok_0;
                lemma_column_den(adj, lam, k, n);
                lemma_le_trans(ck, m0, m);
            }
        }
        if m == c {
            assert(column_equals(adj, lam, j - 1, n, m));
        } else if j - 1 == 0 {
            assert(m0 == (PosRat { num: 0, den: 1 }));
            assert(m == m0);
            assert(m.num * c.den == 0) by (nonlinear_arith)
                requires
                    m.num == 0,
            ;
            assert(rat_le(m, c));
            assert(column_equals(adj, lam, j - 1, n, m));
        } else {
            let k = choose|k: int| 0 <= k < j - 1 && #[trigger] column_equals(adj, lam, k, n, m0);
            assert(column_equals(adj, lam, k, n, m));
        }
    }
}

/// The exact 1-norm is the largest column sum of `G = A diag(λ)`: where it is computed, every
/// column sum is defined and at most the norm, and the norm equals one of them in value
/// (it is zero for the empty matrix).
pub proof fn law_one_norm_is_largest_column(e: Ensemble, m: PosRat)
    requires
        spec_one_norm(e) == Some(Ok::<PosRat, EnsembleError>(m)),
    ensures
        forall|j: int|
            0 <= j < e.adjacency@.len() ==> #[trigger] column_at_most(
                e.adjacency@,
                e.lambdas@,
                j,
                e.adjacency@.len() as int,
                m,
            ),
        e.adjacency@.len() > 0 ==> exists|j: int|
            0 <= j < e.adjacency@.len() && #[trigger] column_equals(
                e.adjacency@,
                e.lambdas@,
                j,
                e.adjacency@.len() as int,
                m,
            ),
        e.adjacency@.len() == 0 ==> m == (PosRat { num: 0, den: 1 }),
{
    let n = e.adjacency@.len() as int;
    if n > 0 {
        lemma_max_column_largest(e.adjacency@, e.lambdas@, n, n, m);
    }
}

/// Exact `Σ_{k < i} A_kj λ_j` as an unreduced fraction `(numerator, denominator)`.
pub open spec fn column_value(adj: Seq<Vec<PosRat>>, lam: Seq<PosRat>, j: int, i: int) -> (int, int)
    decreases i,
{
    if i <= 0 {
        (0, 1)
    } else {
        let (n, d) = column_value(adj, lam, j, i - 1);
        let a = adj[i - 1]@[j];
        let l = lam[j];
        (n * (a.den * l.den) + (a.num * l.num) * d, d * (a.den * l.den))
    }
}

proof fn lemma_swap4(a: int, b: int, c: int, d: int)
    ensures
        (a * b) * (c * d) == (a * c) * (b * d),
{
    assert((a * b) * (c * d) == (a * c) * (b * d)) by (nonlinear_arith);
}

proof fn lemma_regroup3(k: int, x: int, w: int)
    ensures
        (x * k) * w == k * (x * w),
        (x * k) * w == (x * w) * k,
{
    assert((x * k) * w == k * (x * w)) by (nonlinear_arith);
    assert((x * k) * w == (x * w) * k) by (nonlinear_arith);
}

proof fn lemma_sum_value(cn: int, cd: int, n1: int, d1: int, gn: int, gd: int, nn: int, gg: int, xn: int, xd: int)
    requires
        cd > 0,
        gd > 0,
        cn * d1 == n1 * cd,
        gn * gg == nn * gd,
        xn * (cd * gd) == (cn * gd + gn * cd) * xd,
    ensures
        xn * (d1 * gg) == (n1 * gg + nn * d1) * xd,
{
    let k = cd * gd;
    let w = d1 * gg;
    let r = n1 * gg + nn * d1;
    vstd::arithmetic::mul::lemma_mul_strictly_positive(cd, gd);
    // (cn*gd + gn*cd) * w == k * r
    vstd::arithmetic::mul::lemma_mul_is_distributive_add_other_way(w, cn * gd, gn * cd);
    lemma_swap4(cn, gd, d1, gg);
    lemma_swap4(n1, cd, gd, gg);
    lemma_swap4(cd, gd, n1, gg);
    assert((cn * gd) * w == k * (n1 * gg)) by {
        assert((cn * d1) * (gd * gg) == (n1 * cd) * (gd * gg));
    }
    lemma_swap4(gn, cd, d1, gg);
    lemma_swap4(gn, gg, cd, d1);
    lemma_swap4(nn, gd, cd, d1);
    lemma_swap4(cd, gd, nn, d1);
    assert((gn * cd) * w == k * (nn * d1)) by {
        assert((gn * gg) * (cd * d1) == (nn * gd) * (cd * d1));
        assert((gn * cd) * (d1 * gg) == (gn * d1) * (cd * gg));
        assert((gn * gg) * (cd * d1) == (gn * cd) * (gg * d1));
        vstd::arithmetic::mul::lemma_mul_is_commutative(gg, d1);
        assert((nn * gd) * (cd * d1) == (nn * cd) * (gd * d1));
        assert((cd * gd) * (nn * d1) == (cd * nn) * (gd * d1));
        vstd::arithmetic::mul::lemma_mul_is_commutative(cd, nn);
    }
    vstd::arithmetic::mul::lemma_mul_is_distributive_add(k, n1 * gg, nn * d1);
    assert((cn * gd + gn * cd) * w == k * r);
    // multiply the sum's defining equation by w and cancel k
    let s = cn * gd + gn * cd;
    lemma_regroup3(k, xn, w);
    lemma_regroup3(xd, s, w);
    assert((xn * k) * w == (s * xd) * w) by {
        vstd::arithmetic::mul::lemma_mul_is_commutative(xn, k);
    }
    assert((s * xd) * w == (s * w) * xd) by {
        lemma_regroup3(xd, s, w);
    }
    assert((s * w) * xd == (k * r) * xd);
    assert((k * r) * xd == k * (r * xd)) by {
        vstd::arithmetic::mul::lemma_mul_is_associative(k, r, xd);
    }
    assert(k * (xn * w) == k * (r * xd));
    vstd::arithmetic::mul::lemma_mul_equality_converse(k, xn * w, r * xd);
}

/// A column sum, where it is computed, has exactly the value `Σ_k A_kj λ_j` of the column of
/// `G = A diag(λ)`: its terms cross-multiply to equality with the exact unreduced sum.
pub proof fn law_column_sum_value(adj: Seq<Vec<PosRat>>, lam: Seq<PosRat>, j: int, i: int, c: PosRat)
    requires
        column_sum(adj, lam, j, i) == Some(Ok::<PosRat, EnsembleError>(c)),
    ensures
        c.den > 0,
        column_value(adj, lam, j, i).1 > 0,
        c.num * column_value(adj, lam, j, i).1 == column_value(adj, lam, j, i).0 * c.den,
    decreases i,
{
    lemma_column_den(adj, lam, j, i);
    if i > 0 {
        let c0 = column_sum(adj, lam, j, i - 1)->Some_0->Ok_0;
        assert(column_sum(adj, lam, j, i - 1) == Some(Ok::<PosRat, EnsembleError>(c0)));
        law_column_sum_value(adj, lam, j, i - 1, c0);
        let a = adj[i - 1]@[j];
        let l = lam[j];
        let g = rat_mul(a, l)->Ok_0;
        assert(rat_mul(a, l) == Ok::<PosRat, EnsembleError>(g));
        crate::rational::law_mul_value(a, l);
        crate::rational::law_rat_from_value((a.num * l.num) as nat, (a.den * l.den) as nat);
        crate::rational::law_add_value(c0, g);
        crate::rational::law_rat_from_value((c0.num * g.den + g.num * c0.den) as nat, (c0.den * g.den) as nat);
        assert(rat_add(c0, g) == Ok::<PosRat, EnsembleError>(c));
        let (n1, d1) = column_value(adj, lam, j, i - 1);
        let gg = a.den * l.den;
        assert(gg > 0) by {
            assert((a.den * l.den) as nat != 0);
        }
        assert(d1 * gg > 0) by (nonlinear_arith)
            requires
                d1 > 0,
                gg > 0,
        ;
        lemma_sum_value(
            c0.num as int,
            c0.den as int,
            n1,
            d1,
            g.num as int,
            g.den as int,
            a.num * l.num,
            gg,
            c.num as int,
            c.den as int,
        );
    }
}

} // verus!
