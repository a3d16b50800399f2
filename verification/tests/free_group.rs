use pirtm::partition::{ShardingState, TensorPartition};
use pirtm::signature::DecoratedSignature;
use pirtm::witness::{apply_witness, WitnessError, WitnessOp};

fn sig(exps: Vec<(u64, i64)>) -> DecoratedSignature {
    DecoratedSignature::new(exps, TensorPartition::new())
}

#[test]
fn decorated_signature_new_drops_zero_and_sorts() {
    let p = TensorPartition::new().with_binding(1, ShardingState::Replicated);
    let s = DecoratedSignature::new(vec![(5, 2), (2, 0), (3, -1)], p.clone());
    assert_eq!(s, DecoratedSignature { atom_exponents: vec![(3, -1), (5, 2)], partition: p });
}

#[test]
fn decorated_signature_new_merges_repeated_atoms() {
    let s = sig(vec![(2, 1), (3, 4), (2, 1), (3, -4)]);
    assert_eq!(s.atom_exponents, vec![(2, 2)]);
    let t = sig(vec![(2, 1), (2, 1)]);
    assert_eq!(t.atom_exponents, vec![(2, 2)]);
    let u = sig(vec![(7, 3), (7, -3)]);
    assert!(u.is_empty());
}

#[test]
fn decorated_signature_add_sums_over_the_meet() {
    let a = DecoratedSignature::new(
        vec![(2, 1), (3, 1)],
        TensorPartition::new().with_binding(0, ShardingState::Replicated),
    );
    let b = DecoratedSignature::new(vec![(7, 2), (3, -1)], TensorPartition::new());
    let c = a.add(&b).unwrap();
    assert_eq!(c.atom_exponents, vec![(2, 1), (7, 2)]);
    assert_eq!(c.partition, TensorPartition::new().with_binding(0, ShardingState::Replicated));
}

#[test]
fn decorated_signature_add_reports_partition_conflict() {
    let a = DecoratedSignature::new(vec![(2, 1)], TensorPartition::new().with_binding(0, ShardingState::Sharded(1)));
    let b = DecoratedSignature::new(vec![(2, 1)], TensorPartition::new().with_binding(0, ShardingState::Sharded(2)));
    let err = a.add(&b).unwrap_err();
    assert_eq!(err.mesh_axis, 0);
    assert_eq!(err.left_state, ShardingState::Sharded(1));
    assert_eq!(err.right_state, ShardingState::Sharded(2));
}

#[test]
fn permute_reorders_axes() {
    let mut axes = vec![sig(vec![(2, 1)]), sig(vec![(3, 1)]), sig(vec![(5, 1)])];
    apply_witness(&mut axes, &WitnessOp::Permute { rank: 3, perm: vec![2, 0, 1] }).unwrap();
    assert_eq!(axes, vec![sig(vec![(5, 1)]), sig(vec![(2, 1)]), sig(vec![(3, 1)])]);
}

#[test]
fn rejected_permute_leaves_axes_unchanged() {
    let start = vec![sig(vec![(2, 1)]), sig(vec![(3, 1)])];
    let mut axes = start.clone();
    let r = apply_witness(&mut axes, &WitnessOp::Permute { rank: 2, perm: vec![1, 1] });
    assert_eq!(r, Err(WitnessError::DuplicatePermutationIndex { index: 1 }));
    assert_eq!(axes, start);
    let r = apply_witness(&mut axes, &WitnessOp::Permute { rank: 3, perm: vec![0, 1, 2] });
    assert_eq!(r, Err(WitnessError::RankMismatch { expected: 3, actual: 2 }));
    let r = apply_witness(&mut axes, &WitnessOp::Permute { rank: 2, perm: vec![0, 4] });
    assert_eq!(r, Err(WitnessError::InvalidPermutationIndex { index: 4, rank: 2 }));
    assert_eq!(axes, start);
}

#[test]
fn merge_sums_the_merged_axes() {
    let mut axes = vec![sig(vec![(2, 1)]), sig(vec![(3, 1)]), sig(vec![(2, -1), (5, 1)])];
    apply_witness(&mut axes, &WitnessOp::Merge { src_axes: vec![0, 2], target_pos: 5 }).unwrap();
    assert_eq!(axes, vec![sig(vec![(3, 1)]), sig(vec![(5, 1)])]);
}

#[test]
fn contract_removes_a_matching_pair() {
    let mut axes = vec![sig(vec![(2, 1)]), sig(vec![(3, 1)]), sig(vec![(2, 1)])];
    apply_witness(&mut axes, &WitnessOp::Contract { left: 2, right: 0 }).unwrap();
    assert_eq!(axes, vec![sig(vec![(3, 1)])]);
}

#[test]
fn sequence_keeps_effects_before_the_first_error() {
    let mut axes = vec![sig(vec![(2, 1)]), sig(vec![(2, 1)]), sig(vec![(3, 1)])];
    let op = WitnessOp::Sequence {
        steps: vec![
            WitnessOp::Contract { left: 0, right: 1 },
            WitnessOp::Contract { left: 0, right: 3 },
            WitnessOp::Permute { rank: 1, perm: vec![0] },
        ],
    };
    let r = apply_witness(&mut axes, &op);
    assert_eq!(r, Err(WitnessError::IndexOutOfBounds { index: 3, size: 1 }));
    assert_eq!(axes, vec![sig(vec![(3, 1)])]);
    let mut same = axes.clone();
    apply_witness(&mut same, &WitnessOp::Sequence { steps: vec![] }).unwrap();
    assert_eq!(same, axes);
}
