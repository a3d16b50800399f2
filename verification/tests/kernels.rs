use pirtm::admissibility::AdmissibilityValidator;
use pirtm::ast::Expr;
use pirtm::digest::to_hex;
use pirtm::envelope::{find_explicit_delimiter_line, split_header_body};
use pirtm::goldilocks::{eval_poly, GoldilocksField, GOLDILOCKS_PRIME};
use pirtm::polynomial::{eval_on_coset, interpolate, intt, ntt};
use pirtm::harmonia::HarmoniaContactArtifact;
use pirtm::hundian::{GateResult, HundianState, PauliKey, SpinTag};
use pirtm::partition::{ShardingState, TensorPartition};
use pirtm::poseidon::Poseidon2Sponge;
use pirtm::primes::check_prime;
use pirtm::runtime::{RunPlan, Runtime, RuntimeConfig};
use pirtm::type_check::{expected_multiplicity, type_check, PirtmExpr, PirtmType};
use pirtm::unified_witness::{DualSignatureRecovery, UnifiedWitness};
use pirtm::varint::{decode_varint, decode_varuint, encode_varint, encode_varuint};

#[test]
fn test_admissibility_rejects_float_literal() {
    let validator = AdmissibilityValidator::new();
    let expr = Expr::FloatLit(3.14f64.to_bits());
    let result = validator.validate(&expr);
    assert!(result.is_err());
    assert!(result.unwrap_err().contains("floating-point literal"));
}

#[test]
fn test_admissibility_rejects_non_prime_atom() {
    let validator = AdmissibilityValidator::new();
    let expr = Expr::Atom { prime: 4 };
    let result = validator.validate(&expr);
    assert!(result.is_err());
    assert!(result.unwrap_err().contains("not a prime"));
}

#[test]
fn test_admissibility_accepts_prime_atom() {
    let validator = AdmissibilityValidator::new();
    let expr = Expr::Atom { prime: 2 };
    let result = validator.validate(&expr);
    assert!(result.is_ok());
}

fn key(slot: &str) -> PauliKey {
    PauliKey { role_class: "facilitation".into(), slot_id: slot.into(), period_id: "P0".into() }
}

fn multiplicity(state: &HundianState, period: &str) -> (usize, f64, usize) {
    let (n, m) = state.spin_multiplicity(period);
    (n, n as f64 / 2.0, m)
}

#[test]
fn test_canonical_hundian_seating_log() {
    let mut state = HundianState::new();
    state.register_degenerate_class("facilitation");
    state.register_slot(key("fac-1"));
    state.register_slot(key("fac-2"));
    state.register_slot(key("fac-3"));

    let r1 = state.propose_fill("alice", "facilitation", "fac-1", "P0", None);
    assert_eq!(r1, GateResult::OkSingle { sigma: SpinTag::Alpha });
    assert_eq!(multiplicity(&state, "P0"), (1, 0.5, 2));

    let r2 = state.propose_fill("bob", "facilitation", "fac-1", "P0", None);
    assert_eq!(r2, GateResult::RejTermOrder);

    let r3 = state.propose_fill("bob", "facilitation", "fac-2", "P0", None);
    assert_eq!(r3, GateResult::OkSingle { sigma: SpinTag::Alpha });
    assert_eq!(multiplicity(&state, "P0"), (2, 1.0, 3));

    let r4 = state.propose_fill("carol", "facilitation", "fac-3", "P0", None);
    assert_eq!(r4, GateResult::OkSingle { sigma: SpinTag::Alpha });
    assert_eq!(multiplicity(&state, "P0"), (3, 1.5, 4));

    let r5 = state.propose_fill("dave", "facilitation", "fac-1", "P0", None);
    assert_eq!(r5, GateResult::OkPair { sigma: SpinTag::Beta });
    assert_eq!(multiplicity(&state, "P0"), (2, 1.0, 3));

    let r6 = state.propose_fill("eve", "facilitation", "fac-1", "P0", None);
    assert_eq!(r6, GateResult::RejPauli);

    let r7 = state.propose_fill("bob", "facilitation", "fac-1", "P0", None);
    assert_eq!(r7, GateResult::RejDualHat);
}

#[test]
fn hundian_third_occupant_is_rejected() {
    let mut state = HundianState::new();
    state.register_degenerate_class("fac");
    state.register_slot(PauliKey { role_class: "fac".into(), slot_id: "slot1".into(), period_id: "P0".into() });
    assert_eq!(state.propose_fill("p1", "fac", "slot1", "P0", None), GateResult::OkSingle { sigma: SpinTag::Alpha });
    assert_eq!(state.propose_fill("p2", "fac", "slot1", "P0", None), GateResult::OkPair { sigma: SpinTag::Beta });
    assert_eq!(state.propose_fill("p3", "fac", "slot1", "P0", None), GateResult::RejPauli);
}

#[test]
fn hundian_unknown_slot_is_rejected() {
    let mut state = HundianState::new();
    assert_eq!(state.propose_fill("p1", "fac", "nowhere", "P0", None), GateResult::RejUnknownClass);
    assert_eq!(state.count_empty_degenerate_slots("P0"), 0);
}

#[test]
fn test_known_answer_width_8() {
    let mut sponge = Poseidon2Sponge::new();
    let mut state = [GoldilocksField(0); 8];
    for i in 0..8 {
        state[i] = GoldilocksField(i as u64);
    }
    sponge.state = state;
    sponge.permute();
    let expected: [u64; 8] = [
        0x020cf04a1b214d14,
        0x84e14aaaeacaed25,
        0x1ae0f640e81c7457,
        0xa4d204cbaeb0d8a5,
        0x0cf637b627b3a7ff,
        0x788d304d948b486b,
        0x7327133ea1949af4,
        0xf415abb924da395b,
    ];
    for i in 0..8 {
        assert_eq!(sponge.state[i].0, expected[i], "Mismatch at index {}", i);
    }
}

#[test]
fn poseidon_compress_depends_on_both_halves() {
    let a = Poseidon2Sponge::compress([1, 2, 3, 4], [5, 6, 7, 8]);
    let b = Poseidon2Sponge::compress([1, 2, 3, 4], [5, 6, 7, 9]);
    assert_ne!(a, b);
    assert_eq!(a, Poseidon2Sponge::compress([1, 2, 3, 4], [5, 6, 7, 8]));
}

#[test]
fn test_eval_poly() {
    let coeffs = vec![GoldilocksField::new(1), GoldilocksField::new(2), GoldilocksField::new(3)];
    assert_eq!(eval_poly(&coeffs, &GoldilocksField::zero()), GoldilocksField::new(1));
    assert_eq!(eval_poly(&coeffs, &GoldilocksField::one()), GoldilocksField::new(6));
    assert_eq!(eval_poly(&coeffs, &GoldilocksField::new(2)), GoldilocksField::new(17));
}

#[test]
fn goldilocks_field_arithmetic_wraps_at_the_prime() {
    let top = GoldilocksField::new(GOLDILOCKS_PRIME - 1);
    assert_eq!(top.add(&GoldilocksField::one()), GoldilocksField::zero());
    assert_eq!(GoldilocksField::zero().sub(&GoldilocksField::one()), top);
    assert_eq!(top.mul(&top), GoldilocksField::one());
    assert_eq!(GoldilocksField::new(3).pow(4), GoldilocksField::new(81));
    let inv = GoldilocksField::new(2).inverse().unwrap();
    assert_eq!(inv.mul(&GoldilocksField::new(2)), GoldilocksField::one());
    assert!(GoldilocksField::zero().inverse().is_none());
}

#[test]
fn varuint_roundtrip_and_layout() {
    let mut buf = Vec::new();
    encode_varuint(300, &mut buf);
    assert_eq!(buf, vec![0xac, 0x02]);
    encode_varuint(u64::MAX, &mut buf);
    let mut off = 0usize;
    assert_eq!(decode_varuint(&buf, &mut off), Ok(300));
    assert_eq!(off, 2);
    assert_eq!(decode_varuint(&buf, &mut off), Ok(u64::MAX));
    assert_eq!(off, buf.len());
    assert!(decode_varuint(&buf, &mut off).is_err());
}

#[test]
fn varint_zigzag_roundtrip() {
    let mut buf = Vec::new();
    encode_varint(-1, &mut buf);
    assert_eq!(buf, vec![0x01]);
    encode_varint(i64::MIN, &mut buf);
    encode_varint(63, &mut buf);
    let mut off = 0usize;
    assert_eq!(decode_varint(&buf, &mut off), Ok(-1));
    assert_eq!(decode_varint(&buf, &mut off), Ok(i64::MIN));
    assert_eq!(decode_varint(&buf, &mut off), Ok(63));
}

#[test]
fn partition_meet_reports_conflicting_shards() {
    let a = TensorPartition::new().with_binding(0, ShardingState::Sharded(1)).with_lineage(7);
    let b = TensorPartition::new().with_binding(0, ShardingState::Sharded(2));
    let err = a.meet(&b).unwrap_err();
    assert_eq!(err.mesh_axis, 0);
    assert_eq!(err.left_state, ShardingState::Sharded(1));
    assert_eq!(err.right_state, ShardingState::Sharded(2));
    assert_eq!(err.left_lineage, Some(7));
    assert_eq!(err.right_lineage, None);
    assert!(err.diagnostic_reason.starts_with("Mismatched sharded dimensions on mesh axis 0"));
}

#[test]
fn partition_meet_fills_unconstrained_axes() {
    let a = TensorPartition::new().with_binding(0, ShardingState::Sharded(1));
    let b = TensorPartition::new().with_binding(0, ShardingState::Unconstrained).with_binding(1, ShardingState::Replicated);
    let m = a.meet(&b).unwrap();
    let back = b.meet(&a).unwrap();
    assert_eq!(m, back);
}

#[test]
fn type_check_constant_is_stratum() {
    let ctx: Vec<(String, PirtmType)> = vec![];
    let ty = type_check(&ctx, &PirtmExpr::Const(-5)).unwrap();
    assert!(matches!(ty, PirtmType::Stratum));
    let undefined = type_check(&ctx, &PirtmExpr::Var("x".into()));
    assert!(undefined.is_err());
    assert_eq!(expected_multiplicity(&PirtmExpr::Const(1)), 1);
}

#[test]
fn prime_check_names_the_divisor() {
    assert!(check_prime(2).is_ok());
    assert!(check_prime(7919).is_ok());
    assert!(check_prime(1).unwrap_err().contains("not a prime"));
    assert!(check_prime(91).is_err());
}

#[test]
fn hex_is_lowercase() {
    assert_eq!(to_hex(&[0xde, 0xad, 0x01]), "dead01");
    assert_eq!(to_hex(&[]), "");
}

#[test]
fn envelope_split_at_delimiter() {
    let src = "theorem = \"t\"\n---\n\nbody();";
    let (h, b) = split_header_body(src);
    assert_eq!(h, "theorem = \"t\"\n");
    assert_eq!(b, "body();");
    assert!(find_explicit_delimiter_line("no delimiter here").is_none());
    let (h2, b2) = split_header_body("only header");
    assert_eq!(h2, "only header");
    assert_eq!(b2, "");
}

#[test]
fn runtime_dry_run_simulates_output() {
    let mut config = RuntimeConfig::default();
    config.dry_run = true;
    config.input_args = vec!["a".into(), "b".into()];
    let rt = Runtime::new(config);
    match rt.run_plan().unwrap() {
        RunPlan::DryRun { stdout, .. } => assert_eq!(stdout, "Simulated output for input: a b\n"),
        other => panic!("unexpected plan {:?}", other),
    }
}

#[test]
fn runtime_real_run_needs_a_module() {
    let mut config = RuntimeConfig::default();
    config.dry_run = false;
    let mut rt = Runtime::new(config);
    assert!(rt.run_plan().is_err());
    rt.load("mod.mlir").unwrap();
    match rt.run_plan().unwrap() {
        RunPlan::Execute { mlir_path } => assert_eq!(mlir_path, "mod.mlir"),
        other => panic!("unexpected plan {:?}", other),
    }
}

#[test]
fn harmonia_multiplicity_number() {
    let a = HarmoniaContactArtifact::new_phi_pi_epsilon(2, 1, 1);
    assert_eq!(a.compute_multiplicity_number(), 4 * 3 * 5);
    assert_eq!(a.prime_signature, "2^2 * 3^1 * 5^1");
    let big = HarmoniaContactArtifact::new_phi_pi_epsilon(200, 0, 0);
    assert_eq!(big.compute_multiplicity_number(), u128::MAX);
}

#[test]
fn test_ntt_intt_roundtrip() {
    let coeffs: Vec<GoldilocksField> = (1..=16).map(GoldilocksField::new).collect();
    let mut values = coeffs.clone();
    ntt(&mut values);
    intt(&mut values);
    for (a, b) in coeffs.iter().zip(values.iter()) {
        assert_eq!(a, b);
    }
}

#[test]
fn test_interpolate() {
    let coeffs: Vec<GoldilocksField> = (1..=32).map(GoldilocksField::new).collect();
    let mut evals = coeffs.clone();
    ntt(&mut evals);
    let interpolated = interpolate(&evals);
    for (a, b) in coeffs.iter().zip(interpolated.iter()) {
        assert_eq!(a, b);
    }
}

#[test]
fn ntt_entries_are_evaluations_at_powers_of_the_root() {
    let coeffs: Vec<GoldilocksField> = vec![3, 1, 4, 1, 5, 9, 2, 6].into_iter().map(GoldilocksField::new).collect();
    let mut values = coeffs.clone();
    ntt(&mut values);
    let omega = GoldilocksField::new(7).pow((GOLDILOCKS_PRIME - 1) / 8);
    for t in 0..8u64 {
        assert_eq!(values[t as usize], eval_poly(&coeffs, &omega.pow(t)));
    }
    assert_eq!(values[0], GoldilocksField::new(31));
}

#[test]
fn coset_evaluation_shifts_the_domain() {
    let coeffs: Vec<GoldilocksField> = vec![5, 0, 2, 7].into_iter().map(GoldilocksField::new).collect();
    let shift = GoldilocksField::new(3);
    let out = eval_on_coset(&coeffs, &shift);
    let omega = GoldilocksField::new(7).pow((GOLDILOCKS_PRIME - 1) / 4);
    for t in 0..4u64 {
        assert_eq!(out[t as usize], eval_poly(&coeffs, &shift.mul(&omega.pow(t))));
    }
}

#[test]
fn transforms_of_length_one_are_identities() {
    let mut v = vec![GoldilocksField::new(42)];
    ntt(&mut v);
    assert_eq!(v, vec![GoldilocksField::new(42)]);
    intt(&mut v);
    assert_eq!(v, vec![GoldilocksField::new(42)]);
}

#[test]
fn sha256_hex_matches_the_standard_vector() {
    assert_eq!(
        pirtm::digest::sha256_hex(b"abc"),
        "ba7816bf8f01cfea414140de5dae2223b00361a396177a9cb410ff61f20015ad"
    );
}

#[test]
fn timestamps_are_decimal_seconds() {
    let t = pirtm::clock::timestamp_now();
    assert!(!t.is_empty());
    assert!(t.chars().all(|c| c.is_ascii_digit()));
    assert_eq!(pirtm::spectral::default_ensemble_name(), "default_ensemble");
}

#[test]
fn verify_dual_signature_mandate() {
    let witness = UnifiedWitness::new("mock_hash".to_string(), 7, 0.5f64.to_bits());
    let mut recovery = DualSignatureRecovery::new(witness);
    assert_eq!(recovery.verify_recovery(), Err("Primary signature missing. Recovery aborted."));
    recovery.attach_primary_signature("SIG_1".to_string());
    assert_eq!(recovery.verify_recovery(), Err("Secondary signature missing. Recovery aborted."));
    recovery.attach_secondary_signature("SIG_1".to_string());
    assert_eq!(
        recovery.verify_recovery(),
        Err("Signatures must be cryptographically distinct (no self-dealing).")
    );
    recovery.attach_secondary_signature("SIG_2".to_string());
    assert_eq!(recovery.verify_recovery(), Ok(()));
}

#[test]
fn defaults_match_their_constructors() {
    let p = pirtm::harmonia::HarmoniaProvenance::default();
    assert_eq!(p.source_system, "PhiPiEpsilon");
    assert_eq!(p.grammar_version, "0.1");
    assert_eq!(p.created_at, "2026-08-31");
    let s = pirtm::poseidon::Poseidon2Sponge::default();
    assert!(s.state.iter().all(|x| x.0 == 0));
}
