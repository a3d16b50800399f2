use vstd::prelude::*;
use crate::decimal::decimal;
use crate::exps_text::{exps_text, push_exps_text};
use crate::partition::{ConflictReport, ConflictSpec, PartSpec, ShardingState};
use crate::signature::{exps_equal, spec_sig_add, sig_result_view, DecoratedSignature, SigSpec};

verus! {

/// Tensor axes, each described by a decorated signature.
pub type Axes = Vec<DecoratedSignature>;

/// Collective communication primitives.
#[derive(Debug, Clone, Copy, PartialEq, Eq, Structural)]
pub enum CollectiveKind {
    AllReduceSum,
    AllReduceMax,
    AllGather,
    Scatter,
    Reshard,
}

impl CollectiveKind {
    /// Wire code of the collective.
    pub fn code(&self) -> (c: u8)
        ensures
            c == collective_code(*self),
    {
        match self {
            CollectiveKind::AllReduceSum => 1,
            CollectiveKind::AllReduceMax => 2,
            CollectiveKind::AllGather => 3,
            CollectiveKind::Scatter => 4,
            CollectiveKind::Reshard => 5,
        }
    }
}

pub open spec fn collective_code(k: CollectiveKind) -> u8 {
    match k {
        CollectiveKind::AllReduceSum => 1,
        CollectiveKind::AllReduceMax => 2,
        CollectiveKind::AllGather => 3,
        CollectiveKind::Scatter => 4,
        CollectiveKind::Reshard => 5,
    }
}

/// Collectives that leave every axis replicated on the mesh axis they act on.
pub open spec fn replicates(k: CollectiveKind) -> bool {
    k is AllReduceSum || k is AllReduceMax || k is AllGather
}

/// Witness operations over tensor axes.
#[derive(Debug, PartialEq, Eq)]
pub enum WitnessOp {
    Permute { rank: u32, perm: Vec<u32> },
    Merge { src_axes: Vec<u32>, target_pos: u32 },
    Split { src_axis: u32, parts: Vec<DecoratedSignature> },
    Contract { left: u32, right: u32 },
    MultiContract { pairs: Vec<(u32, u32)> },
    Collective { kind: CollectiveKind, mesh_axis: u32 },
    Sequence { steps: Vec<WitnessOp> },
}

/// Reasons a witness operation is rejected.
#[derive(Debug, Clone, PartialEq, Eq)]
pub enum WitnessError {
    RankMismatch { expected: usize, actual: usize },
    InvalidPermutationIndex { index: u32, rank: usize },
    DuplicatePermutationIndex { index: u32 },
    IndexOutOfBounds { index: usize, size: usize },
    ContractionMismatch { left: usize, right: usize, details: String },
    SplitSignatureMismatch { details: String },
    Conflict(ConflictReport),
}

/// Value-level picture of a [`WitnessError`].
pub enum WitnessErrorSpec {
    RankMismatch { expected: int, actual: int },
    InvalidPermutationIndex { index: u32, rank: int },
    DuplicatePermutationIndex { index: u32 },
    IndexOutOfBounds { index: int, size: int },
    ContractionMismatch { left: int, right: int, details: Seq<char> },
    SplitSignatureMismatch { details: Seq<char> },
    Conflict(ConflictSpec),
}

impl View for WitnessError {
    type V = WitnessErrorSpec;

    open spec fn view(&self) -> WitnessErrorSpec {
        match self {
            WitnessError::RankMismatch { expected, actual } => WitnessErrorSpec::RankMismatch {
                expected: *expected as int,
                actual: *actual as int,
            },
            WitnessError::InvalidPermutationIndex { index, rank } => WitnessErrorSpec::InvalidPermutationIndex {
                index: *index,
                rank: *rank as int,
            },
            WitnessError::DuplicatePermutationIndex { index } => WitnessErrorSpec::DuplicatePermutationIndex {
                index: *index,
            },
            WitnessError::IndexOutOfBounds { index, size } => WitnessErrorSpec::IndexOutOfBounds {
                index: *index as int,
                size: *size as int,
            },
            WitnessError::ContractionMismatch { left, right, details } => WitnessErrorSpec::ContractionMismatch {
                left: *left as int,
                right: *right as int,
                details: details@,
            },
            WitnessError::SplitSignatureMismatch { details } => WitnessErrorSpec::SplitSignatureMismatch {
                details: details@,
            },
            WitnessError::Conflict(c) => WitnessErrorSpec::Conflict(c@),
        }
    }
}

impl WitnessError {
    /// Wraps a partition conflict.
    pub fn from_conflict(r: ConflictReport) -> (e: Self)
        ensures
            e == WitnessError::Conflict(r),
    {
        WitnessError::Conflict(r)
    }
}

pub open spec fn axes_view(v: Seq<DecoratedSignature>) -> Seq<SigSpec> {
    v.map_values(|s: DecoratedSignature| s@)
}

pub open spec fn axes_wf(v: Seq<DecoratedSignature>) -> bool {
    forall|i: int| 0 <= i < v.len() ==> (#[trigger] v[i]).partition.wf()
}

/// Every partition that an operation carries is well formed.
pub open spec fn op_wf(op: WitnessOp) -> bool
    decreases op,
{
    match op {
        WitnessOp::Split { parts, .. } => axes_wf(parts@),
        WitnessOp::Sequence { steps } => forall|i: int| 0 <= i < steps@.len() ==> op_wf(#[trigger] steps@[i]),
        _ => true,
    }
}

/// The entries of `s` whose positions `drop` does not select, in order.
pub open spec fn without_indices<A>(s: Seq<A>, drop: spec_fn(int) -> bool) -> Seq<A>
    decreases s.len(),
{
    if s.len() == 0 {
        s
    } else if drop(s.len() - 1) {
        without_indices(s.drop_last(), drop)
    } else {
        without_indices(s.drop_last(), drop).push(s.last())
    }
}

/// First rejection of a permutation over `n` axes: an index out of range or repeated.
pub open spec fn perm_error(perm: Seq<u32>, n: int) -> Option<WitnessErrorSpec>
    decreases perm.len(),
{
    if perm.len() == 0 {
        None
    } else {
        match perm_error(perm.drop_last(), n) {
            Some(e) => Some(e),
            None => {
                let p = perm.last();
                if p >= n {
                    Some(WitnessErrorSpec::InvalidPermutationIndex { index: p, rank: n })
                } else if perm.drop_last().contains(p) {
                    Some(WitnessErrorSpec::DuplicatePermutationIndex { index: p })
                } else {
                    None
                }
            },
        }
    }
}

/// First index of `src` that is out of range for `n` axes.
pub open spec fn index_error(src: Seq<u32>, n: int) -> Option<WitnessErrorSpec>
    decreases src.len(),
{
    if src.len() == 0 {
        None
    } else {
        match index_error(src.drop_last(), n) {
            Some(e) => Some(e),
            None => if src.last() >= n {
                Some(WitnessErrorSpec::IndexOutOfBounds { index: src.last() as int, size: n })
            } else {
                None
            },
        }
    }
}

/// Adds, left to right, the signatures that `items` lists onto `acc`.
pub open spec fn fold_add(acc: SigSpec, items: Seq<SigSpec>) -> Option<Result<SigSpec, ConflictSpec>>
    decreases items.len(),
{
    if items.len() == 0 {
        Some(Ok(acc))
    } else {
        match fold_add(acc, items.drop_last()) {
            None => None,
            Some(Err(c)) => Some(Err(c)),
            Some(Ok(m)) => spec_sig_add(m, items.last()),
        }
    }
}

pub open spec fn contract_details(l: Seq<(u64, i64)>, r: Seq<(u64, i64)>) -> Seq<char> {
    exps_text(l) + " != "@ + exps_text(r)
}

pub open spec fn split_details(sum: Seq<(u64, i64)>, src: Seq<(u64, i64)>) -> Seq<char> {
    "Split sum "@ + exps_text(sum) + " does not match source "@ + exps_text(src)
}

pub open spec fn reused_details() -> Seq<char> {
    "Index reused in MultiContract"@
}

/// Some pair among the first `n` of `pairs` names axis `i`.
pub open spec fn pair_names(pairs: Seq<(u32, u32)>, n: int, i: int) -> bool {
    exists|k: int| 0 <= k < n && (pairs[k].0 == i || pairs[k].1 == i)
}

/// First rejection of a multi-contraction over `axes`.
pub open spec fn multi_error(pairs: Seq<(u32, u32)>, axes: Seq<SigSpec>) -> Option<WitnessErrorSpec>
    decreases pairs.len(),
{
    if pairs.len() == 0 {
        None
    } else {
        match multi_error(pairs.drop_last(), axes) {
            Some(e) => Some(e),
            None => {
                let (l, r) = pairs.last();
                let n = axes.len() as int;
                let done = pairs.len() - 1;
                if l >= n || r >= n || l == r {
                    Some(WitnessErrorSpec::IndexOutOfBounds { index: if l >= r { l as int } else { r as int }, size: n })
                } else if pair_names(pairs, done, l as int) || pair_names(pairs, done, r as int) {
                    Some(WitnessErrorSpec::ContractionMismatch { left: l as int, right: r as int, details: reused_details() })
                } else if axes[l as int].exps != axes[r as int].exps {
                    Some(
                        WitnessErrorSpec::ContractionMismatch {
                            left: l as int,
                            right: r as int,
                            details: contract_details(axes[l as int].exps, axes[r as int].exps),
                        },
                    )
                } else {
                    None
                }
            },
        }
    }
}

pub open spec fn allreduce_sig(s: SigSpec, mesh_axis: u32) -> SigSpec {
    SigSpec {
        exps: s.exps,
        part: PartSpec { bindings: s.part.bindings.insert(mesh_axis, ShardingState::Replicated), lineage: s.part.lineage },
    }
}

/// Outcome of one witness operation: the axes afterwards and the verdict; `None` where
/// an exponent sum overflows `i64`.
pub open spec fn spec_apply(axes: Seq<SigSpec>, op: WitnessOp) -> Option<(Seq<SigSpec>, Result<(), WitnessErrorSpec>)>
    decreases op,
{
    let n = axes.len() as int;
    match op {
        WitnessOp::Permute { rank, perm } => if n != rank as int {
            Some((axes, Err(WitnessErrorSpec::RankMismatch { expected: rank as int, actual: n })))
        } else {
            match perm_error(perm@, n) {
                Some(e) => Some((axes, Err(e))),
                None => Some((perm@.map_values(|p: u32| axes[p as int]), Ok(()))),
            }
        },
        WitnessOp::Merge { src_axes, target_pos } => {
            let src = src_axes@;
            if src.len() == 0 {
                Some((axes, Ok(())))
            } else {
                match index_error(src, n) {
                    Some(e) => Some((axes, Err(e))),
                    None => match fold_add(axes[src[0] as int], src.skip(1).map_values(|i: u32| axes[i as int])) {
                        None => None,
                        Some(Err(c)) => Some((axes, Err(WitnessErrorSpec::Conflict(c)))),
                        Some(Ok(m)) => {
                            let rest = without_indices(axes, |i: int| src.contains(i as u32) && i <= u32::MAX);
                            let pos = if (target_pos as int) < rest.len() { target_pos as int } else { rest.len() as int };
                            Some((rest.insert(pos, m), Ok(())))
                        },
                    },
                }
            }
        },
        WitnessOp::Split { src_axis, parts } => {
            let idx = src_axis as int;
            let ps = axes_view(parts@);
            if idx >= n {
                Some((axes, Err(WitnessErrorSpec::IndexOutOfBounds { index: idx, size: n })))
            } else if ps.len() == 0 {
                Some((axes.remove(idx), Ok(())))
            } else {
                match fold_add(ps[0], ps.skip(1)) {
                    None => None,
                    Some(Err(c)) => Some((axes, Err(WitnessErrorSpec::Conflict(c)))),
                    Some(Ok(sum)) => if sum.exps != axes[idx].exps {
                        Some((axes, Err(WitnessErrorSpec::SplitSignatureMismatch { details: split_details(sum.exps, axes[idx].exps) })))
                    } else {
                        Some((axes.take(idx) + ps + axes.skip(idx + 1), Ok(())))
                    },
                }
            }
        },
        WitnessOp::Contract { left, right } => {
            let (l, r) = (left as int, right as int);
            if l >= n || r >= n || l == r {
                Some((axes, Err(WitnessErrorSpec::IndexOutOfBounds { index: if l >= r { l } else { r }, size: n })))
            } else if axes[l].exps != axes[r].exps {
                Some((axes, Err(WitnessErrorSpec::ContractionMismatch { left: l, right: r, details: contract_details(axes[l].exps, axes[r].exps) })))
            } else {
                Some((without_indices(axes, |i: int| i == l || i == r), Ok(())))
            }
        },
        WitnessOp::MultiContract { pairs } => match multi_error(pairs@, axes) {
            Some(e) => Some((axes, Err(e))),
            None => Some((without_indices(axes, |i: int| pair_names(pairs@, pairs@.len() as int, i)), Ok(()))),
        },
        WitnessOp::Collective { kind, mesh_axis } => if replicates(kind) {
            Some((axes.map_values(|s: SigSpec| allreduce_sig(s, mesh_axis)), Ok(())))
        } else {
            Some((axes, Ok(())))
        },
        WitnessOp::Sequence { steps } => apply_steps(axes, steps@),
    }
}

/// Runs `steps` in order, stopping at the first rejection; earlier steps keep their effect.
pub open spec fn apply_steps(axes: Seq<SigSpec>, steps: Seq<WitnessOp>) -> Option<(Seq<SigSpec>, Result<(), WitnessErrorSpec>)>
    decreases steps,
{
    if steps.len() == 0 {
        Some((axes, Ok(())))
    } else {
        match apply_steps(axes, steps.drop_last()) {
            None => None,
            Some((a, Err(e))) => Some((a, Err(e))),
            Some((a, Ok(()))) => spec_apply(a, steps.last()),
        }
    }
}

/// Dropping no index keeps the sequence.
pub proof fn lemma_without_none<A>(s: Seq<A>, drop: spec_fn(int) -> bool)
    requires
        forall|i: int| 0 <= i < s.len() ==> !#[trigger] drop(i),
    ensures
        without_indices(s, drop) == s,
    decreases s.len(),
{
    if s.len() > 0 {
        lemma_without_none(s.drop_last(), drop);
        assert(s.drop_last().push(s.last()) =~= s);
    }
}

/// Dropping exactly the index `x` removes it.
pub proof fn lemma_without_one<A>(s: Seq<A>, drop: spec_fn(int) -> bool, x: int)
    requires
        0 <= x < s.len(),
        forall|i: int| 0 <= i < s.len() ==> (#[trigger] drop(i) <==> i == x),
    ensures
        without_indices(s, drop) == s.remove(x),
    decreases s.len(),
{
    if x == s.len() - 1 {
        lemma_without_none(s.drop_last(), drop);
        assert(s.remove(x) =~= s.drop_last());
    } else {
        lemma_without_one(s.drop_last(), drop, x);
        assert(s.drop_last().remove(x).push(s.last()) =~= s.remove(x));
    }
}

/// Dropping exactly the indices `x < y` removes both.
pub proof fn lemma_without_two<A>(s: Seq<A>, drop: spec_fn(int) -> bool, x: int, y: int)
    requires
        0 <= x < y < s.len(),
        forall|i: int| 0 <= i < s.len() ==> (#[trigger] drop(i) <==> (i == x || i == y)),
    ensures
        without_indices(s, drop) == s.remove(y).remove(x),
    decreases s.len(),
{
    if y == s.len() - 1 {
        lemma_without_one(s.drop_last(), drop, x);
        assert(s.remove(y) =~= s.drop_last());
    } else {
        lemma_without_two(s.drop_last(), drop, x, y);
        assert(s.drop_last().remove(y).remove(x).push(s.last()) =~= s.remove(y).remove(x));
    }
}

/// A single operation that is rejected leaves the axes as they were: every check precedes
/// every write.
pub proof fn law_rejected_op_leaves_axes(axes: Seq<SigSpec>, op: WitnessOp)
    requires
        !(op is Sequence),
    ensures
        spec_apply(axes, op) matches Some((b, Err(_))) ==> b == axes,
{
}

/// A sequence stops at its first rejected step: once a prefix of the steps is rejected,
/// running more steps gives the same axes and the same error; a sequence of no steps
/// changes nothing.
pub proof fn law_sequence_stops_at_first_error(axes: Seq<SigSpec>, steps: Seq<WitnessOp>, k: int)
    requires
        0 <= k <= steps.len(),
    ensures
        apply_steps(axes, Seq::empty()) == Some((axes, Ok::<(), WitnessErrorSpec>(()))),
        apply_steps(axes, steps.take(k)) matches Some((b, Err(e))) ==> apply_steps(axes, steps) == Some(
            (b, Err::<(), WitnessErrorSpec>(e)),
        ),
    decreases steps.len(),
{
    if k < steps.len() {
        assert(steps.drop_last().take(k) =~= steps.take(k));
        law_sequence_stops_at_first_error(axes, steps.drop_last(), k);
    } else {
        assert(steps.take(k) =~= steps);
    }
}

pub open spec fn result_view(r: Result<(), WitnessError>) -> Result<(), WitnessErrorSpec> {
    match r {
        Ok(()) => Ok(()),
        Err(e) => Err(e@),
    }
}

} // verus!

verus! {

proof fn lemma_perm_error_prefix(perm: Seq<u32>, n: int, k: int)
    requires
        0 <= k <= perm.len(),
        perm_error(perm.take(k), n) is Some,
    ensures
        perm_error(perm, n) == perm_error(perm.take(k), n),
    decreases perm.len(),
{
    if k == perm.len() {
        assert(perm.take(k) =~= perm);
    } else {
        assert(perm.drop_last().take(k) =~= perm.take(k));
        lemma_perm_error_prefix(perm.drop_last(), n, k);
    }
}

proof fn lemma_index_error_prefix(src: Seq<u32>, n: int, k: int)
    requires
        0 <= k <= src.len(),
        index_error(src.take(k), n) is Some,
    ensures
        index_error(src, n) == index_error(src.take(k), n),
    decreases src.len(),
{
    if k == src.len() {
        assert(src.take(k) =~= src);
    } else {
        assert(src.drop_last().take(k) =~= src.take(k));
        lemma_index_error_prefix(src.drop_last(), n, k);
    }
}

proof fn lemma_fold_add_prefix(acc: SigSpec, items: Seq<SigSpec>, k: int)
    requires
        0 <= k <= items.len(),
    ensures
        fold_add(acc, items.take(k)) is None ==> fold_add(acc, items) is None,
        fold_add(acc, items.take(k)) matches Some(Err(c)) ==> fold_add(acc, items) == fold_add(acc, items.take(k)),
    decreases items.len(),
{
    if k == items.len() {
        assert(items.take(k) =~= items);
    } else {
        assert(items.drop_last().take(k) =~= items.take(k));
        lemma_fold_add_prefix(acc, items.drop_last(), k);
    }
}

proof fn lemma_fold_add_step(acc: SigSpec, items: Seq<SigSpec>, k: int)
    requires
        0 <= k < items.len(),
    ensures
        fold_add(acc, items.take(k + 1)) == match fold_add(acc, items.take(k)) {
            None => None,
            Some(Err(c)) => Some(Err(c)),
            Some(Ok(m)) => spec_sig_add(m, items[k]),
        },
{
    assert(items.take(k + 1).drop_last() =~= items.take(k));
}

proof fn lemma_apply_steps_prefix(axes: Seq<SigSpec>, steps: Seq<WitnessOp>, k: int)
    requires
        0 <= k <= steps.len(),
    ensures
        apply_steps(axes, steps.take(k)) is None ==> apply_steps(axes, steps) is None,
        apply_steps(axes, steps.take(k)) matches Some((_, Err(_))) ==> apply_steps(axes, steps) == apply_steps(
            axes,
            steps.take(k),
        ),
    decreases steps.len(),
{
    if k == steps.len() {
        assert(steps.take(k) =~= steps);
    } else {
        assert(steps.drop_last().take(k) =~= steps.take(k));
        lemma_apply_steps_prefix(axes, steps.drop_last(), k);
    }
}

proof fn lemma_without_indices_take<A>(s: Seq<A>, f: spec_fn(int) -> bool, i: int)
    requires
        0 <= i < s.len(),
    ensures
        without_indices(s.take(i + 1), f) == if f(i) {
            without_indices(s.take(i), f)
        } else {
            without_indices(s.take(i), f).push(s[i])
        },
{
    assert(s.take(i + 1).drop_last() =~= s.take(i));
}

proof fn lemma_without_indices_ext<A>(s: Seq<A>, f: spec_fn(int) -> bool, g: spec_fn(int) -> bool)
    requires
        forall|i: int| 0 <= i < s.len() ==> #[trigger] f(i) == g(i),
    ensures
        without_indices(s, f) == without_indices(s, g),
    decreases s.len(),
{
    if s.len() > 0 {
        lemma_without_indices_ext(s.drop_last(), f, g);
    }
}

pub proof fn lemma_axes_view_push(v: Seq<DecoratedSignature>, x: DecoratedSignature)
    ensures
        axes_view(v.push(x)) == axes_view(v).push(x@),
{
    assert(axes_view(v.push(x)) =~= axes_view(v).push(x@));
}

/// The axes whose mask entry is false, copied in order.
fn keep_unmasked(axes: &Vec<DecoratedSignature>, mask: &Vec<bool>) -> (out: Vec<DecoratedSignature>)
    requires
        mask@.len() == axes@.len(),
        axes_wf(axes@),
    ensures
        axes_view(out@) == without_indices(axes_view(axes@), |i: int| mask@[i]),
        axes_wf(out@),
{
    let ghost f = |i: int| mask@[i];
    let mut out: Vec<DecoratedSignature> = Vec::new();
    let mut i: usize = 0;
    while i < axes.len()
        invariant
            mask@.len() == axes@.len(),
            axes_wf(axes@),
            0 <= i <= axes.len(),
            f == (|i: int| mask@[i]),
            axes_view(out@) == without_indices(axes_view(axes@).take(i as int), f),
            axes_wf(out@),
        decreases axes.len() - i,
    {
        proof {
            lemma_without_indices_take(axes_view(axes@), f, i as int);
        }
        if !mask[i] {
            let c = axes[i].copy();
            proof {
                lemma_axes_view_push(out@, c);
            }
            out.push(c);
        }
        i = i + 1;
    }
    assert(axes_view(axes@).take(axes.len() as int) =~= axes_view(axes@));
    out
}

pub(crate) fn contract_details_text(l: &Vec<(u64, i64)>, r: &Vec<(u64, i64)>) -> (s: String)
    ensures
        s@ == contract_details(l@, r@),
{
    proof {
        reveal_strlit(" != ");
    }
    let mut s = String::new();
    push_exps_text(&mut s, l);
    s.append(" != ");
    push_exps_text(&mut s, r);
    assert(s@ =~= contract_details(l@, r@));
    s
}

fn split_details_text(sum: &Vec<(u64, i64)>, src: &Vec<(u64, i64)>) -> (s: String)
    ensures
        s@ == split_details(sum@, src@),
{
    proof {
        reveal_strlit("Split sum ");
        reveal_strlit(" does not match source ");
    }
    let mut s = String::new();
    s.append("Split sum ");
    push_exps_text(&mut s, sum);
    s.append(" does not match source ");
    push_exps_text(&mut s, src);
    assert(s@ =~= split_details(sum@, src@));
    s
}

fn apply_permute(axes: &mut Axes, rank: u32, perm: &Vec<u32>) -> (r: Result<(), WitnessError>)
    requires
        axes_wf(old(axes)@),
    ensures
        axes_wf(final(axes)@),
        spec_apply(axes_view(old(axes)@), WitnessOp::Permute { rank, perm: *perm }) == Some(
            (axes_view(final(axes)@), result_view(r)),
        ),
{
    let ghost a0 = axes_view(axes@);
    let n = axes.len();
    if n != rank as usize {
        return Err(WitnessError::RankMismatch { expected: rank as usize, actual: n });
    }
    let mut out: Vec<DecoratedSignature> = Vec::new();
    let mut k: usize = 0;
    while k < perm.len()
        invariant
            n == axes.len(),
            n as int == rank as int,
            a0 == axes_view(axes@),
            a0 == axes_view(old(axes)@),
            axes_wf(axes@),
            0 <= k <= perm.len(),
            perm_error(perm@.take(k as int), n as int) is None,
            forall|m: int| 0 <= m < k ==> #[trigger] perm@[m] < n,
            axes_view(out@) == perm@.take(k as int).map_values(|p: u32| a0[p as int]),
            axes_wf(out@),
        decreases perm.len() - k,
    {
        let p = perm[k];
        proof {
            assert(perm@.take(k + 1).drop_last() =~= perm@.take(k as int));
            assert(perm@.take(k + 1).last() == p);
        }
        if p as usize >= n {
            proof {
                lemma_perm_error_prefix(perm@, n as int, k + 1);
                assert(perm_error(perm@, n as int) == Some(WitnessErrorSpec::InvalidPermutationIndex { index: p, rank: n as int }));
            }
            return Err(WitnessError::InvalidPermutationIndex { index: p, rank: n });
        }
        let mut q: usize = 0;
        while q < k
            invariant
                0 <= q <= k < perm.len(),
                forall|m: int| 0 <= m < q ==> #[trigger] perm@[m] != p,
                n == axes.len(),
                n as int == rank as int,
                a0 == axes_view(axes@),
                a0 == axes_view(old(axes)@),
                axes_wf(axes@),
                perm_error(perm@.take(k as int), n as int) is None,
                p == perm@[k as int],
                p < n,
                perm@.take(k + 1).drop_last() == perm@.take(k as int),
                perm@.take(k + 1).last() == p,
            decreases k - q,
        {
            if perm[q] == p {
                proof {
                    assert(perm@.take(k as int)[q as int] == p);
                    lemma_perm_error_prefix(perm@, n as int, k + 1);
                }
                return Err(WitnessError::DuplicatePermutationIndex { index: p });
            }
            q = q + 1;
        }
        proof {
            assert(!perm@.take(k as int).contains(p)) by {
                if perm@.take(k as int).contains(p) {
                    let m = choose|m: int| 0 <= m < k && perm@.take(k as int)[m] == p;
                    assert(perm@[m] == p);
                }
            }
        }
        let c = axes[p as usize].copy();
        proof {
            lemma_axes_view_push(out@, c);
            assert(perm@.take(k + 1).map_values(|p: u32| a0[p as int]) =~= perm@.take(k as int).map_values(
                |p: u32| a0[p as int],
            ).push(a0[p as int]));
        }
        out.push(c);
        k = k + 1;
    }
    assert(perm@.take(perm.len() as int) =~= perm@);
    *axes = out;
    Ok(())
}

fn apply_contract(axes: &mut Axes, left: u32, right: u32) -> (r: Result<(), WitnessError>)
    requires
        axes_wf(old(axes)@),
    ensures
        axes_wf(final(axes)@),
        spec_apply(axes_view(old(axes)@), WitnessOp::Contract { left, right }) == Some(
            (axes_view(final(axes)@), result_view(r)),
        ),
{
    let n = axes.len();
    let l = left as usize;
    let r = right as usize;
    if l >= n || r >= n || l == r {
        let index = if l >= r { l } else { r };
        return Err(WitnessError::IndexOutOfBounds { index, size: n });
    }
    if !exps_equal(&axes[l].atom_exponents, &axes[r].atom_exponents) {
        let details = contract_details_text(&axes[l].atom_exponents, &axes[r].atom_exponents);
        return Err(WitnessError::ContractionMismatch { left: l, right: r, details });
    }
    let mut mask: Vec<bool> = Vec::new();
    let mut i: usize = 0;
    while i < n
        invariant
            n == axes.len(),
            0 <= i <= n,
            mask@.len() == i,
            forall|m: int| 0 <= m < i ==> #[trigger] mask@[m] == (m == l || m == r),
        decreases n - i,
    {
        mask.push(i == l || i == r);
        i = i + 1;
    }
    let out = keep_unmasked(axes, &mask);
    proof {
        lemma_without_indices_ext(axes_view(axes@), |i: int| mask@[i], |i: int| i == l as int || i == r as int);
    }
    *axes = out;
    Ok(())
}

fn apply_collective(axes: &mut Axes, kind: CollectiveKind, mesh_axis: u32) -> (r: Result<(), WitnessError>)
    requires
        axes_wf(old(axes)@),
    ensures
        axes_wf(final(axes)@),
        spec_apply(axes_view(old(axes)@), WitnessOp::Collective { kind, mesh_axis }) == Some(
            (axes_view(final(axes)@), result_view(r)),
        ),
{
    match kind {
        CollectiveKind::AllReduceSum | CollectiveKind::AllReduceMax | CollectiveKind::AllGather => {
            let ghost a0 = axes_view(axes@);
            let mut out: Vec<DecoratedSignature> = Vec::new();
            let mut i: usize = 0;
            while i < axes.len()
                invariant
                    axes_wf(axes@),
                    a0 == axes_view(axes@),
                    0 <= i <= axes.len(),
                    axes_view(out@) == a0.take(i as int).map_values(|s: SigSpec| allreduce_sig(s, mesh_axis)),
                    axes_wf(out@),
                decreases axes.len() - i,
            {
                let mut c = axes[i].copy();
                c.partition.apply_allreduce(mesh_axis);
                proof {
                    lemma_axes_view_push(out@, c);
                    assert(a0.take(i + 1).map_values(|s: SigSpec| allreduce_sig(s, mesh_axis)) =~= a0.take(
                        i as int,
                    ).map_values(|s: SigSpec| allreduce_sig(s, mesh_axis)).push(allreduce_sig(a0[i as int], mesh_axis)));
                }
                out.push(c);
                i = i + 1;
            }
            assert(a0.take(axes.len() as int) =~= a0);
            *axes = out;
            Ok(())
        },
        _ => Ok(()),
    }
}

} // verus!

verus! {

proof fn lemma_multi_error_prefix(pairs: Seq<(u32, u32)>, axes: Seq<SigSpec>, k: int)
    requires
        0 <= k <= pairs.len(),
        multi_error(pairs.take(k), axes) is Some,
    ensures
        multi_error(pairs, axes) == multi_error(pairs.take(k), axes),
    decreases pairs.len(),
{
    if k == pairs.len() {
        assert(pairs.take(k) =~= pairs);
    } else {
        assert(pairs.drop_last().take(k) =~= pairs.take(k));
        lemma_multi_error_prefix(pairs.drop_last(), axes, k);
        let p = pairs.drop_last();
        assert forall|i: int| #[trigger] pair_names(p, p.len() - 1, i) == pair_names(pairs, p.len() - 1, i) by {
            if pair_names(p, p.len() - 1, i) {
                let j = choose|j: int| 0 <= j < p.len() - 1 && (p[j].0 == i || p[j].1 == i);
                assert(pairs[j] == p[j]);
            }
            if pair_names(pairs, p.len() - 1, i) {
                let j = choose|j: int| 0 <= j < p.len() - 1 && (pairs[j].0 == i || pairs[j].1 == i);
                assert(pairs[j] == p[j]);
            }
        }
    }
}

proof fn lemma_axes_view_insert(v: Seq<DecoratedSignature>, i: int, x: DecoratedSignature)
    requires
        0 <= i <= v.len(),
    ensures
        axes_view(v.insert(i, x)) == axes_view(v).insert(i, x@),
{
    assert(axes_view(v.insert(i, x)) =~= axes_view(v).insert(i, x@));
}

fn apply_merge(axes: &mut Axes, src_axes: &Vec<u32>, target_pos: u32) -> (r: Result<(), WitnessError>)
    requires
        axes_wf(old(axes)@),
        spec_apply(axes_view(old(axes)@), WitnessOp::Merge { src_axes: *src_axes, target_pos }) is Some,
    ensures
        axes_wf(final(axes)@),
        spec_apply(axes_view(old(axes)@), WitnessOp::Merge { src_axes: *src_axes, target_pos }) == Some(
            (axes_view(final(axes)@), result_view(r)),
        ),
{
    let ghost a0 = axes_view(axes@);
    let ghost src = src_axes@;
    let n = axes.len();
    if src_axes.len() == 0 {
        return Ok(());
    }
    let mut k: usize = 0;
    while k < src_axes.len()
        invariant
            0 <= k <= src_axes.len(),
            n == axes.len(),
            src == src_axes@,
            axes_wf(axes@),
            a0 == axes_view(axes@),
            a0 == axes_view(old(axes)@),
            index_error(src.take(k as int), n as int) is None,
            forall|m: int| 0 <= m < k ==> #[trigger] src[m] < n,
        decreases src_axes.len() - k,
    {
        let idx = src_axes[k];
        proof {
            assert(src.take(k + 1).drop_last() =~= src.take(k as int));
        }
        if idx as usize >= n {
            proof {
                lemma_index_error_prefix(src, n as int, k + 1);
            }
            return Err(WitnessError::IndexOutOfBounds { index: idx as usize, size: n });
        }
        k = k + 1;
    }
    assert(src.take(src.len() as int) =~= src);
    let ghost items = src.skip(1).map_values(|i: u32| a0[i as int]);
    let ghost acc = a0[src[0] as int];
    assert(fold_add(acc, items) is Some);
    let mut merged = axes[src_axes[0] as usize].copy();
    let mut t: usize = 1;
    while t < src_axes.len()
        invariant
            1 <= t <= src_axes.len(),
            n == axes.len(),
            src == src_axes@,
            a0 == axes_view(axes@),
            axes_wf(axes@),
            forall|m: int| 0 <= m < src.len() ==> #[trigger] src[m] < n,
            items == src.skip(1).map_values(|i: u32| a0[i as int]),
            a0 == axes_view(old(axes)@),
            src.len() > 0,
            index_error(src, n as int) is None,
            acc == a0[src[0] as int],
            fold_add(acc, items) is Some,
            fold_add(acc, items.take(t - 1)) == Some(Ok::<SigSpec, ConflictSpec>(merged@)),
            merged.partition.wf(),
        decreases src_axes.len() - t,
    {
        let j = src_axes[t] as usize;
        proof {
            lemma_fold_add_step(acc, items, t - 1);
            assert(items[t - 1] == a0[j as int]);
            lemma_fold_add_prefix(acc, items, t as int);
        }
        match merged.add(&axes[j]) {
            Ok(m) => {
                merged = m;
            },
            Err(c) => {
                proof {
                    assert(fold_add(acc, items.take(t as int)) == Some(Err::<SigSpec, ConflictSpec>(c@)));
                    lemma_fold_add_prefix(acc, items, t as int);
                    assert(fold_add(acc, items) == Some(Err::<SigSpec, ConflictSpec>(c@)));
                }
                return Err(WitnessError::Conflict(c));
            },
        }
        t = t + 1;
    }
    assert(items.take(items.len() as int) =~= items);
    let mut mask: Vec<bool> = Vec::new();
    let mut i: usize = 0;
    while i < n
        invariant
            0 <= i <= n,
            n == axes.len(),
            src == src_axes@,
            mask@.len() == i,
            forall|m: int| 0 <= m < i ==> #[trigger] mask@[m] == (src.contains(m as u32) && m <= u32::MAX),
        decreases n - i,
    {
        let mut hit = false;
        if i <= 4294967295usize {
            let mut q: usize = 0;
            while q < src_axes.len()
                invariant
                    0 <= q <= src_axes.len(),
                    src == src_axes@,
                    i <= u32::MAX,
                    hit == exists|m: int| 0 <= m < q && src[m] == i as u32,
                decreases src_axes.len() - q,
            {
                if src_axes[q] as usize == i {
                    hit = true;
                }
                q = q + 1;
            }
        }
        proof {
            if hit {
                let m = choose|m: int| 0 <= m < src.len() && src[m] == i as u32;
                assert(src.contains(i as u32));
            }
            if src.contains(i as u32) && i <= u32::MAX {
                let m = choose|m: int| 0 <= m < src.len() && src[m] == i as u32;
                assert(exists|m: int| 0 <= m < src.len() && src[m] == i as u32);
            }
        }
        mask.push(hit);
        i = i + 1;
    }
    let mut rest = keep_unmasked(axes, &mask);
    proof {
        lemma_without_indices_ext(a0, |i: int| mask@[i], |i: int| src.contains(i as u32) && i <= u32::MAX);
    }
    let pos = if (target_pos as usize) < rest.len() { target_pos as usize } else { rest.len() };
    proof {
        lemma_axes_view_insert(rest@, pos as int, merged);
    }
    rest.insert(pos, merged);
    *axes = rest;
    Ok(())
}

fn apply_split(axes: &mut Axes, src_axis: u32, parts: &Vec<DecoratedSignature>) -> (r: Result<(), WitnessError>)
    requires
        axes_wf(old(axes)@),
        axes_wf(parts@),
        spec_apply(axes_view(old(axes)@), WitnessOp::Split { src_axis, parts: *parts }) is Some,
    ensures
        axes_wf(final(axes)@),
        spec_apply(axes_view(old(axes)@), WitnessOp::Split { src_axis, parts: *parts }) == Some(
            (axes_view(final(axes)@), result_view(r)),
        ),
{
    let ghost a0 = axes_view(axes@);
    let ghost ps = axes_view(parts@);
    let n = axes.len();
    let idx = src_axis as usize;
    if idx >= n {
        return Err(WitnessError::IndexOutOfBounds { index: idx, size: n });
    }
    if parts.len() == 0 {
        let ghost before = axes@;
        let _ = axes.remove(idx);
        proof {
            assert(axes_view(axes@) =~= axes_view(before).remove(idx as int));
        }
        return Ok(());
    }
    let ghost items = ps.skip(1);
    let ghost acc = ps[0];
    assert(fold_add(acc, items) is Some);
    let mut sum = parts[0].copy();
    let mut t: usize = 1;
    while t < parts.len()
        invariant
            1 <= t <= parts.len(),
            ps == axes_view(parts@),
            axes_wf(parts@),
            items == ps.skip(1),
            acc == ps[0],
            n == axes.len(),
            idx < n,
            idx == src_axis,
            a0 == axes_view(axes@),
            a0 == axes_view(old(axes)@),
            axes_wf(axes@),
            fold_add(acc, items) is Some,
            fold_add(acc, items.take(t - 1)) == Some(Ok::<SigSpec, ConflictSpec>(sum@)),
            sum.partition.wf(),
        decreases parts.len() - t,
    {
        proof {
            lemma_fold_add_step(acc, items, t - 1);
            assert(items[t - 1] == parts@[t as int]@);
            lemma_fold_add_prefix(acc, items, t as int);
        }
        match sum.add(&parts[t]) {
            Ok(m) => {
                sum = m;
            },
            Err(c) => {
                proof {
                    assert(fold_add(acc, items.take(t as int)) == Some(Err::<SigSpec, ConflictSpec>(c@)));
                    lemma_fold_add_prefix(acc, items, t as int);
                    assert(fold_add(acc, items) == Some(Err::<SigSpec, ConflictSpec>(c@)));
                }
                return Err(WitnessError::Conflict(c));
            },
        }
        t = t + 1;
    }
    assert(items.take(items.len() as int) =~= items);
    if !exps_equal(&sum.atom_exponents, &axes[idx].atom_exponents) {
        let details = split_details_text(&sum.atom_exponents, &axes[idx].atom_exponents);
        return Err(WitnessError::SplitSignatureMismatch { details });
    }
    let mut out: Vec<DecoratedSignature> = Vec::new();
    let mut i: usize = 0;
    while i < idx
        invariant
            0 <= i <= idx < n,
            n == axes.len(),
            a0 == axes_view(axes@),
            axes_wf(axes@),
            axes_view(out@) == a0.take(i as int),
            axes_wf(out@),
        decreases idx - i,
    {
        let c = axes[i].copy();
        proof {
            lemma_axes_view_push(out@, c);
            assert(a0.take(i + 1) =~= a0.take(i as int).push(a0[i as int]));
        }
        out.push(c);
        i = i + 1;
    }
    let mut q: usize = 0;
    while q < parts.len()
        invariant
            0 <= q <= parts.len(),
            ps == axes_view(parts@),
            axes_wf(parts@),
            axes_view(out@) == a0.take(idx as int) + ps.take(q as int),
            axes_wf(out@),
        decreases parts.len() - q,
    {
        let c = parts[q].copy();
        proof {
            lemma_axes_view_push(out@, c);
            assert(a0.take(idx as int) + ps.take(q + 1) =~= (a0.take(idx as int) + ps.take(q as int)).push(ps[q as int]));
        }
        out.push(c);
        q = q + 1;
    }
    assert(ps.take(parts.len() as int) =~= ps);
    let mut i2: usize = idx + 1;
    while i2 < n
        invariant
            idx + 1 <= i2 <= n,
            n == axes.len(),
            a0 == axes_view(axes@),
            axes_wf(axes@),
            axes_view(out@) == a0.take(idx as int) + ps + a0.subrange(idx + 1, i2 as int),
            axes_wf(out@),
        decreases n - i2,
    {
        let c = axes[i2].copy();
        proof {
            lemma_axes_view_push(out@, c);
            assert(a0.take(idx as int) + ps + a0.subrange(idx + 1, i2 + 1) =~= (a0.take(idx as int) + ps
                + a0.subrange(idx + 1, i2 as int)).push(a0[i2 as int]));
        }
        out.push(c);
        i2 = i2 + 1;
    }
    assert(a0.subrange(idx + 1, n as int) =~= a0.skip(idx + 1));
    *axes = out;
    Ok(())
}

fn reused_text() -> (s: String)
    ensures
        s@ == reused_details(),
{
    proof {
        reveal_strlit("Index reused in MultiContract");
    }
    let mut s = String::new();
    s.append("Index reused in MultiContract");
    s
}

fn apply_multi_contract(axes: &mut Axes, pairs: &Vec<(u32, u32)>) -> (r: Result<(), WitnessError>)
    requires
        axes_wf(old(axes)@),
    ensures
        axes_wf(final(axes)@),
        spec_apply(axes_view(old(axes)@), WitnessOp::MultiContract { pairs: *pairs }) == Some(
            (axes_view(final(axes)@), result_view(r)),
        ),
{
    let ghost a0 = axes_view(axes@);
    let ghost ps = pairs@;
    let n = axes.len();
    let mut mask: Vec<bool> = Vec::new();
    let mut i: usize = 0;
    while i < n
        invariant
            0 <= i <= n,
            mask@.len() == i,
            forall|m: int| 0 <= m < i ==> !#[trigger] mask@[m],
        decreases n - i,
    {
        mask.push(false);
        i = i + 1;
    }
    let mut k: usize = 0;
    while k < pairs.len()
        invariant
            0 <= k <= pairs.len(),
            ps == pairs@,
            n == axes.len(),
            a0 == axes_view(axes@),
            a0 == axes_view(old(axes)@),
            axes_wf(axes@),
            mask@.len() == n,
            multi_error(ps.take(k as int), a0) is None,
            forall|m: int| 0 <= m < n ==> #[trigger] mask@[m] == pair_names(ps, k as int, m),
        decreases pairs.len() - k,
    {
        let (l, r) = pairs[k];
        let li = l as usize;
        let ri = r as usize;
        proof {
            let t = ps.take(k + 1);
            assert(t.drop_last() =~= ps.take(k as int));
            assert(t.last() == ps[k as int]);
            assert forall|m: int| #[trigger] pair_names(t, k as int, m) == pair_names(ps, k as int, m) by {
                if pair_names(t, k as int, m) {
                    let j = choose|j: int| 0 <= j < k && (t[j].0 == m || t[j].1 == m);
                    assert(ps[j] == t[j]);
                }
                if pair_names(ps, k as int, m) {
                    let j = choose|j: int| 0 <= j < k && (ps[j].0 == m || ps[j].1 == m);
                    assert(ps[j] == t[j]);
                }
            }
        }
        if li >= n || ri >= n || li == ri {
            proof {
                lemma_multi_error_prefix(ps, a0, k + 1);
            }
            let index = if li >= ri { li } else { ri };
            return Err(WitnessError::IndexOutOfBounds { index, size: n });
        }
        if mask[li] || mask[ri] {
            proof {
                lemma_multi_error_prefix(ps, a0, k + 1);
            }
            let details = reused_text();
            return Err(WitnessError::ContractionMismatch { left: li, right: ri, details });
        }
        if !exps_equal(&axes[li].atom_exponents, &axes[ri].atom_exponents) {
            proof {
                lemma_multi_error_prefix(ps, a0, k + 1);
            }
            let details = contract_details_text(&axes[li].atom_exponents, &axes[ri].atom_exponents);
            return Err(WitnessError::ContractionMismatch { left: li, right: ri, details });
        }
        mask.set(li, true);
        mask.set(ri, true);
        proof {
            assert forall|m: int| 0 <= m < n implies #[trigger] mask@[m] == pair_names(ps, k + 1, m) by {
                if pair_names(ps, k + 1, m) && m != li && m != ri {
                    let j = choose|j: int| 0 <= j < k + 1 && (ps[j].0 == m || ps[j].1 == m);
                    assert(j != k);
                    assert(pair_names(ps, k as int, m));
                }
                if m == li {
                    assert(ps[k as int].0 == m);
                }
                if m == ri {
                    assert(ps[k as int].1 == m);
                }
                if pair_names(ps, k as int, m) {
                    let j = choose|j: int| 0 <= j < k && (ps[j].0 == m || ps[j].1 == m);
                    assert(pair_names(ps, k + 1, m));
                }
            }
        }
        k = k + 1;
    }
    assert(ps.take(ps.len() as int) =~= ps);
    let out = keep_unmasked(axes, &mask);
    proof {
        lemma_without_indices_ext(a0, |i: int| mask@[i], |i: int| pair_names(ps, ps.len() as int, i));
    }
    *axes = out;
    Ok(())
}

/// Interprets one witness operation over `axes` in place. A rejected operation leaves
/// `axes` unchanged; in a sequence, the steps before the rejected one keep their effect.
pub fn apply_witness(axes: &mut Axes, op: &WitnessOp) -> (r: Result<(), WitnessError>)
    requires
        axes_wf(old(axes)@),
        op_wf(*op),
        spec_apply(axes_view(old(axes)@), *op) is Some,
    ensures
        axes_wf(final(axes)@),
        spec_apply(axes_view(old(axes)@), *op) == Some((axes_view(final(axes)@), result_view(r))),
    decreases op,
{
    match op {
        WitnessOp::Permute { rank, perm } => apply_permute(axes, *rank, perm),
        WitnessOp::Merge { src_axes, target_pos } => apply_merge(axes, src_axes, *target_pos),
        WitnessOp::Split { src_axis, parts } => apply_split(axes, *src_axis, parts),
        WitnessOp::Contract { left, right } => apply_contract(axes, *left, *right),
        WitnessOp::MultiContract { pairs } => apply_multi_contract(axes, pairs),
        WitnessOp::Collective { kind, mesh_axis } => apply_collective(axes, *kind, *mesh_axis),
        WitnessOp::Sequence { steps } => {
            let ghost a0 = axes_view(axes@);
            let ghost ss = steps@;
            let mut i: usize = 0;
            while i < steps.len()
                invariant
                    0 <= i <= steps.len(),
                    ss == steps@,
                    *op == (WitnessOp::Sequence { steps: *steps }),
                    a0 == axes_view(old(axes)@),
                    forall|m: int| 0 <= m < ss.len() ==> op_wf(#[trigger] ss[m]),
                    apply_steps(a0, ss) is Some,
                    apply_steps(a0, ss.take(i as int)) == Some((axes_view(axes@), Ok::<(), WitnessErrorSpec>(()))),
                    axes_wf(axes@),
                decreases steps.len() - i,
            {
                let ghost cur = axes_view(axes@);
                proof {
                    assert(ss.take(i + 1).drop_last() =~= ss.take(i as int));
                    assert(ss.take(i + 1).last() == ss[i as int]);
                    assert(apply_steps(a0, ss.take(i + 1)) == spec_apply(cur, ss[i as int]));
                    lemma_apply_steps_prefix(a0, ss, i + 1);
                    assert(*op == (WitnessOp::Sequence { steps: *steps }));
                    assert(decreases_to!(*op => *steps));
                    assert(decreases_to!(*steps => steps@));
                    assert(decreases_to!(steps@ => steps@[i as int]));
                }
                let res = apply_witness(axes, &steps[i]);
                if res.is_err() {
                    proof {
                        assert(spec_apply(cur, ss[i as int]) == Some((axes_view(axes@), result_view(res))));
                        assert(apply_steps(a0, ss.take(i + 1)) == Some((axes_view(axes@), result_view(res))));
                        lemma_apply_steps_prefix(a0, ss, i + 1);
                    }
                    return res;
                }
                i = i + 1;
            }
            assert(ss.take(ss.len() as int) =~= ss);
            Ok(())
        },
    }
}

} // verus!
