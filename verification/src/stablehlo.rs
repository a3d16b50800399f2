use vstd::prelude::*;
use std::collections::HashMap;
use crate::exps_text::{exps_text, push_exps_text};
use crate::signature::{exps_equal, DecoratedSignature, SigSpec};
use crate::witness::{
    allreduce_sig, axes_view, axes_wf, lemma_axes_view_push, lemma_without_two, multi_error, pair_names, replicates,
    spec_apply, without_indices, CollectiveKind, WitnessError,
    WitnessErrorSpec, WitnessOp,
};

verus! {

/// Lowered axes and the witness operation that checks them.
pub type Lowered = Result<(Vec<DecoratedSignature>, WitnessOp), WitnessError>;

/// Mesh axis identifiers under which StableHLO operations are lowered.
#[derive(Debug)]
pub struct StableHloLoweringContext {
    pub mesh_dims: HashMap<String, u32>,
}

pub open spec fn dot_details(l: Seq<(u64, i64)>, r: Seq<(u64, i64)>) -> Seq<char> {
    "Contraction signature mismatch: "@ + exps_text(l) + " != "@ + exps_text(r)
}

pub open spec fn max_int(a: int, b: int) -> int {
    if a >= b {
        a
    } else {
        b
    }
}

/// First entry of `perm` that is not an axis index below `n`.
pub open spec fn first_out_of_range(perm: Seq<usize>, n: int, i: int) -> Option<usize>
    decreases perm.len() - i,
{
    if i < 0 || i >= perm.len() {
        None
    } else if perm[i] >= n {
        Some(perm[i])
    } else {
        first_out_of_range(perm, n, i + 1)
    }
}

fn copy_range(out: &mut Vec<DecoratedSignature>, src: &[DecoratedSignature], from: usize, to: usize)
    requires
        from <= to <= src@.len(),
        axes_wf(src@),
        axes_wf(old(out)@),
    ensures
        axes_view(final(out)@) == axes_view(old(out)@) + axes_view(src@).subrange(from as int, to as int),
        axes_wf(final(out)@),
{
    let ghost o = axes_view(out@);
    let mut i: usize = from;
    while i < to
        invariant
            from <= i <= to <= src@.len(),
            axes_wf(src@),
            axes_wf(out@),
            axes_view(out@) == o + axes_view(src@).subrange(from as int, i as int),
        decreases to - i,
    {
        let c = src[i].copy();
        proof {
            lemma_axes_view_push(out@, c);
            assert(o + axes_view(src@).subrange(from as int, i + 1) =~= (o + axes_view(src@).subrange(
                from as int,
                i as int,
            )).push(c@));
        }
        out.push(c);
        i = i + 1;
    }
}

impl StableHloLoweringContext {
    pub fn new(mesh_dims: HashMap<String, u32>) -> (c: Self)
        ensures
            c.mesh_dims == mesh_dims,
    {
        Self { mesh_dims }
    }

    /// Lowers a `stablehlo.dot_general` contraction of `lhs` axis `l` with `rhs` axis `r`:
    /// the remaining axes of both sides, and a multi-contraction over the concatenation.
    pub fn lower_dot_general(
        &self,
        lhs_axes: &[DecoratedSignature],
        rhs_axes: &[DecoratedSignature],
        contracting_dims: (usize, usize),
    ) -> (r: Lowered)
        requires
            axes_wf(lhs_axes@),
            axes_wf(rhs_axes@),
            lhs_axes@.len() + rhs_axes@.len() <= usize::MAX,
        ensures
            ({
                let (l, rr) = contracting_dims;
                let (nl, nr) = (lhs_axes@.len() as int, rhs_axes@.len() as int);
                if l >= nl || rr >= nr {
                    r matches Err(e) && e@ == (WitnessErrorSpec::IndexOutOfBounds {
                        index: max_int(l as int, rr as int),
                        size: max_int(nl, nr),
                    })
                } else if lhs_axes@[l as int].atom_exponents@ != rhs_axes@[rr as int].atom_exponents@ {
                    r matches Err(e) && e@ == (WitnessErrorSpec::ContractionMismatch {
                        left: l as int,
                        right: rr as int,
                        details: dot_details(
                            lhs_axes@[l as int].atom_exponents@,
                            rhs_axes@[rr as int].atom_exponents@,
                        ),
                    })
                } else {
                    r matches Ok((out, op)) && axes_view(out@) == axes_view(lhs_axes@).remove(l as int) + axes_view(
                        rhs_axes@,
                    ).remove(rr as int) && axes_wf(out@) && op is MultiContract && op->pairs@ == seq![
                        (l as u32, (nl + rr) as u32),
                    ] && (nl + nr <= u32::MAX ==> spec_apply(axes_view(lhs_axes@) + axes_view(rhs_axes@), op)
                        == Some((axes_view(out@), Ok::<(), WitnessErrorSpec>(()))))
                }
            }),
    {
        let (l_idx, r_idx) = contracting_dims;
        if l_idx >= lhs_axes.len() || r_idx >= rhs_axes.len() {
            let index = if l_idx >= r_idx { l_idx } else { r_idx };
            let size = if lhs_axes.len() >= rhs_axes.len() { lhs_axes.len() } else { rhs_axes.len() };
            return Err(WitnessError::IndexOutOfBounds { index, size });
        }
        if !exps_equal(&lhs_axes[l_idx].atom_exponents, &rhs_axes[r_idx].atom_exponents) {
            proof {
                reveal_strlit("Contraction signature mismatch: ");
                reveal_strlit(" != ");
            }
            let mut details = String::from_str("Contraction signature mismatch: ");
            push_exps_text(&mut details, &lhs_axes[l_idx].atom_exponents);
            details.append(" != ");
            push_exps_text(&mut details, &rhs_axes[r_idx].atom_exponents);
            return Err(WitnessError::ContractionMismatch { left: l_idx, right: r_idx, details });
        }
        let mut out_axes: Vec<DecoratedSignature> = Vec::new();
        copy_range(&mut out_axes, lhs_axes, 0, l_idx);
        copy_range(&mut out_axes, lhs_axes, l_idx + 1, lhs_axes.len());
        copy_range(&mut out_axes, rhs_axes, 0, r_idx);
        copy_range(&mut out_axes, rhs_axes, r_idx + 1, rhs_axes.len());
        proof {
            let lv = axes_view(lhs_axes@);
            let rv = axes_view(rhs_axes@);
            assert(lv.remove(l_idx as int) =~= lv.subrange(0, l_idx as int) + lv.subrange(
                l_idx + 1,
                lv.len() as int,
            ));
            assert(rv.remove(r_idx as int) =~= rv.subrange(0, r_idx as int) + rv.subrange(
                r_idx + 1,
                rv.len() as int,
            ));
            assert(axes_view(out_axes@) =~= lv.remove(l_idx as int) + rv.remove(r_idx as int));
        }
        let pairs = vec![(l_idx as u32, (lhs_axes.len() + r_idx) as u32)];
        assert(pairs@ =~= seq![(l_idx as u32, (lhs_axes@.len() + r_idx) as u32)]);
        proof {
            let lv = axes_view(lhs_axes@);
            let rv = axes_view(rhs_axes@);
            let all = lv + rv;
            let nl = lv.len() as int;
            if nl + rv.len() <= u32::MAX {
                let ps = pairs@;
                let y = nl + r_idx;
                assert(ps[0].0 as int == l_idx as int);
                assert(ps[0].1 as int == y);
                assert(all[l_idx as int] == lv[l_idx as int]);
                assert(all[y] == rv[r_idx as int]);
                assert(ps.drop_last() =~= Seq::<(u32, u32)>::empty());
                assert(!pair_names(ps, 0, l_idx as int));
                assert(!pair_names(ps, 0, y));
                assert(multi_error(ps.drop_last(), all) is None);
                assert(ps.last() == ps[0]);
                assert(all[l_idx as int].exps == all[y].exps);
                assert(multi_error(ps, all) is None);
                let d = |i: int| pair_names(ps, ps.len() as int, i);
                assert forall|i: int| 0 <= i < all.len() implies (#[trigger] d(i) <==> (i == l_idx || i == y)) by {
                    if i == l_idx || i == y {
                        assert(ps[0].0 == i || ps[0].1 == i);
                    }
                }
                lemma_without_two(all, d, l_idx as int, y);
                assert(all.remove(y).remove(l_idx as int) =~= lv.remove(l_idx as int) + rv.remove(r_idx as int));
            }
        }
        Ok((out_axes, WitnessOp::MultiContract { pairs }))
    }

    /// Lowers a `stablehlo.transpose`: the axes reordered by `permutation`.
    pub fn lower_transpose(&self, src_axes: &[DecoratedSignature], permutation: &[usize]) -> (r: Lowered)
        requires
            axes_wf(src_axes@),
        ensures
            ({
                let n = src_axes@.len() as int;
                if permutation@.len() != n {
                    r matches Err(e) && e@ == (WitnessErrorSpec::RankMismatch {
                        expected: permutation@.len() as int,
                        actual: n,
                    })
                } else {
                    match first_out_of_range(permutation@, n, 0) {
                        Some(p) => r matches Err(e) && e@ == (WitnessErrorSpec::InvalidPermutationIndex {
                            index: p as u32,
                            rank: n,
                        }),
                        None => r matches Ok((out, op)) && axes_view(out@) == permutation@.map_values(
                            |p: usize| axes_view(src_axes@)[p as int],
                        ) && axes_wf(out@) && op is Permute && op->rank == n as u32 && op->perm@ == permutation@.map_values(
                            |p: usize| p as u32,
                        ),
                    }
                }
            }),
    {
        if permutation.len() != src_axes.len() {
            return Err(WitnessError::RankMismatch { expected: permutation.len(), actual: src_axes.len() });
        }
        let ghost sv = axes_view(src_axes@);
        let ghost pv = permutation@;
        let n = src_axes.len();
        let mut out_axes: Vec<DecoratedSignature> = Vec::new();
        let mut perm_u32: Vec<u32> = Vec::new();
        let mut i: usize = 0;
        assert(pv.subrange(0, pv.len() as int) =~= pv);
        while i < permutation.len()
            invariant
                0 <= i <= permutation.len(),
                n == src_axes@.len(),
                n == permutation@.len(),
                pv == permutation@,
                sv == axes_view(src_axes@),
                axes_wf(src_axes@),
                axes_wf(out_axes@),
                first_out_of_range(pv, n as int, 0) == first_out_of_range(pv, n as int, i as int),
                forall|k: int| 0 <= k < i ==> #[trigger] pv[k] < n,
                axes_view(out_axes@) == pv.take(i as int).map_values(|p: usize| sv[p as int]),
                perm_u32@ == pv.take(i as int).map_values(|p: usize| p as u32),
            decreases permutation.len() - i,
        {
            let p = permutation[i];
            if p >= n {
                return Err(WitnessError::InvalidPermutationIndex { index: p as u32, rank: n });
            }
            let c = src_axes[p].copy();
            proof {
                lemma_axes_view_push(out_axes@, c);
                assert(pv.take(i + 1).map_values(|p: usize| sv[p as int]) =~= pv.take(i as int).map_values(
                    |p: usize| sv[p as int],
                ).push(sv[p as int]));
                assert(pv.take(i + 1).map_values(|p: usize| p as u32) =~= pv.take(i as int).map_values(
                    |p: usize| p as u32,
                ).push(p as u32));
            }
            out_axes.push(c);
            perm_u32.push(p as u32);
            i = i + 1;
        }
        assert(pv.take(pv.len() as int) =~= pv);
        Ok((out_axes, WitnessOp::Permute { rank: n as u32, perm: perm_u32 }))
    }

    /// Lowers a collective: replicating collectives mark `mesh_axis` replicated on every axis.
    pub fn lower_collective(&self, src_axes: &[DecoratedSignature], kind: CollectiveKind, mesh_axis: u32) -> (r:
        Lowered)
        requires
            axes_wf(src_axes@),
        ensures
            r matches Ok((out, op)) && axes_wf(out@) && op == (WitnessOp::Collective { kind, mesh_axis }) && (if replicates(
                kind,
            ) {
                axes_view(out@) == axes_view(src_axes@).map_values(|s: SigSpec| allreduce_sig(s, mesh_axis))
            } else {
                axes_view(out@) == axes_view(src_axes@)
            }),
            r matches Ok((out, op)) ==> spec_apply(axes_view(src_axes@), op) == Some(
                (axes_view(out@), Ok::<(), WitnessErrorSpec>(())),
            ),
    {
        let ghost a0 = axes_view(src_axes@);
        let rep = match kind {
            CollectiveKind::AllReduceSum | CollectiveKind::AllReduceMax | CollectiveKind::AllGather => true,
            _ => false,
        };
        let mut out: Vec<DecoratedSignature> = Vec::new();
        let mut i: usize = 0;
        while i < src_axes.len()
            invariant
                0 <= i <= src_axes@.len(),
                axes_wf(src_axes@),
                a0 == axes_view(src_axes@),
                rep == replicates(kind),
                axes_wf(out@),
                rep ==> axes_view(out@) == a0.take(i as int).map_values(|s: SigSpec| allreduce_sig(s, mesh_axis)),
                !rep ==> axes_view(out@) == a0.take(i as int),
            decreases src_axes.len() - i,
        {
            let mut c = src_axes[i].copy();
            if rep {
                c.partition.apply_allreduce(mesh_axis);
            }
            proof {
                lemma_axes_view_push(out@, c);
                assert(a0.take(i + 1).map_values(|s: SigSpec| allreduce_sig(s, mesh_axis)) =~= a0.take(
                    i as int,
                ).map_values(|s: SigSpec| allreduce_sig(s, mesh_axis)).push(allreduce_sig(a0[i as int], mesh_axis)));
                assert(a0.take(i + 1) =~= a0.take(i as int).push(a0[i as int]));
            }
            out.push(c);
            i = i + 1;
        }
        assert(a0.take(src_axes@.len() as int) =~= a0);
        Ok((out, WitnessOp::Collective { kind, mesh_axis }))
    }

    /// Lowers a factorized `stablehlo.reshape`: axis `src_idx` replaced by `parts`.
    pub fn lower_reshape(&self, src_axes: &[DecoratedSignature], src_idx: usize, parts: &[DecoratedSignature]) -> (r:
        Lowered)
        requires
            axes_wf(src_axes@),
            axes_wf(parts@),
        ensures
            src_idx >= src_axes@.len() ==> (r matches Err(e) && e@ == (WitnessErrorSpec::IndexOutOfBounds {
                index: src_idx as int,
                size: src_axes@.len() as int,
            })),
            src_idx < src_axes@.len() ==> (r matches Ok((out, op)) && axes_wf(out@) && axes_view(out@) == axes_view(
                src_axes@,
            ).take(src_idx as int) + axes_view(parts@) + axes_view(src_axes@).skip(src_idx + 1) && op is Split
                && op->src_axis == src_idx as u32 && axes_view(op->Split_parts@) == axes_view(parts@) && axes_wf(
                op->Split_parts@,
            )),
    {
        if src_idx >= src_axes.len() {
            return Err(WitnessError::IndexOutOfBounds { index: src_idx, size: src_axes.len() });
        }
        let mut out_axes: Vec<DecoratedSignature> = Vec::new();
        copy_range(&mut out_axes, src_axes, 0, src_idx);
        copy_range(&mut out_axes, parts, 0, parts.len());
        copy_range(&mut out_axes, src_axes, src_idx + 1, src_axes.len());
        let mut ps: Vec<DecoratedSignature> = Vec::new();
        copy_range(&mut ps, parts, 0, parts.len());
        proof {
            let sv = axes_view(src_axes@);
            let pv = axes_view(parts@);
            assert(sv.subrange(0, src_idx as int) =~= sv.take(src_idx as int));
            assert(sv.subrange(src_idx + 1, sv.len() as int) =~= sv.skip(src_idx + 1));
            assert(pv.subrange(0, pv.len() as int) =~= pv);
            assert(axes_view(Seq::<DecoratedSignature>::empty()) =~= Seq::<SigSpec>::empty());
            assert(axes_view(out_axes@) =~= sv.take(src_idx as int) + pv + sv.skip(src_idx + 1));
            assert(axes_view(ps@) =~= pv);
        }
        Ok((out_axes, WitnessOp::Split { src_axis: src_idx as u32, parts: ps }))
    }
}

} // verus!
