use pirtm::anchor::is_theorem_anchor;
use pirtm::rational::{EnsembleError, PosRat};
use pirtm::spectral::{certify_at, one_norm, try_one_norm, validate_and_certify, Ensemble};
use std::cmp::Ordering;

fn q(n: u64, d: u64) -> PosRat {
    PosRat::new(n, d).unwrap()
}

#[test]
fn test_one_norm_accept_retuned_loop() {
    let ensemble = Ensemble::from_rationals(
        "retuned_loop",
        vec![vec![q(0, 1), q(2, 5)], vec![q(2, 5), q(0, 1)]],
        vec![q(9, 10), q(9, 10)],
    )
    .with_theorem_name("author_declared_lambda");
    let n1 = one_norm(&ensemble).unwrap();
    assert_eq!(n1.as_pair(), (9, 25));
    let cert = validate_and_certify(&ensemble).unwrap();
    assert!(cert.is_norm_contractive);
    assert_eq!(cert.exact_rational_norm_1, (9, 25));
    assert_eq!(cert.theorem_name, "author_declared_lambda");
}

#[test]
fn test_one_norm_reject_old_stable_loop() {
    let ensemble = Ensemble::from_rationals(
        "old_stable_loop",
        vec![vec![q(0, 1), q(2, 1)], vec![q(1, 2), q(0, 1)]],
        vec![q(9, 10), q(9, 10)],
    )
    .with_theorem_name("author_declared_lambda");
    let err = validate_and_certify(&ensemble).unwrap_err();
    assert!(err.contains("NormContractivityViolation"));
    assert!(!err.contains("SIG_GOV_KILL"));
}

#[test]
fn test_one_norm_accept_acyclic() {
    let ensemble = Ensemble::from_rationals(
        "pipeline",
        vec![vec![q(0, 1), q(1, 1)], vec![q(0, 1), q(0, 1)]],
        vec![q(2, 5), q(2, 5)],
    );
    let n1 = one_norm(&ensemble).unwrap();
    assert!(n1.lt_one());
    assert_eq!(n1.as_pair(), (2, 5));
}

#[test]
fn test_certify_rejects_missing_theorem_name() {
    let ensemble = Ensemble::from_rationals(
        "no_anchor",
        vec![vec![q(0, 1), q(2, 5)], vec![q(2, 5), q(0, 1)]],
        vec![q(9, 10), q(9, 10)],
    );
    let err = validate_and_certify(&ensemble).unwrap_err();
    assert!(err.contains("MissingTheoremAnchor"));
}

#[test]
fn posrat_reduces_and_rejects_zero_denominator() {
    assert_eq!(q(6, 8).as_pair(), (3, 4));
    assert_eq!(q(0, 7).as_pair(), (0, 1));
    assert_eq!(PosRat::new(3, 0), Err(EnsembleError::InvalidRational));
    assert_eq!(q(1, 2).add(q(1, 3)).unwrap().as_pair(), (5, 6));
    assert_eq!(q(2, 3).mul(q(9, 4)).unwrap().as_pair(), (3, 2));
    assert_eq!(q(1, 3).cmp_q(q(2, 6)), Ordering::Equal);
    assert_eq!(q(1, 3).cmp_q(q(1, 2)), Ordering::Less);
    assert_eq!(q(3, 4).cmp_q(q(2, 3)), Ordering::Greater);
    assert!(q(3, 4).lt_one());
    assert!(!q(4, 4).lt_one());
    assert_eq!(PosRat::zero().as_pair(), (0, 1));
    assert_eq!(PosRat::one().as_pair(), (1, 1));
}

#[test]
fn posrat_add_commutes_on_examples() {
    let a = q(7, 12);
    let b = q(5, 18);
    assert_eq!(a.add(b).unwrap(), b.add(a).unwrap());
    assert_eq!(a.mul(b).unwrap(), b.mul(a).unwrap());
    assert_eq!(a.add(b).unwrap().as_pair(), (31, 36));
}

#[test]
fn posrat_overflow_after_reduction() {
    let big = q(u64::MAX, 1);
    assert_eq!(big.mul(q(2, 1)), Err(EnsembleError::RationalOverflow));
}

#[test]
fn one_norm_shape_errors() {
    let e = Ensemble::from_rationals("d", vec![vec![q(1, 2)]], vec![q(1, 2), q(1, 3)]);
    assert_eq!(one_norm(&e), Err(EnsembleError::DimensionMismatch { matrix: 1, lambda: 2 }));
    let e = Ensemble::from_rationals("s", vec![vec![q(1, 2), q(1, 2)], vec![q(1, 2)]], vec![q(1, 2), q(1, 3)]);
    assert_eq!(one_norm(&e), Err(EnsembleError::MatrixNotSquare { row: 1, len: 1, expected: 2 }));
    let e = Ensemble::from_rationals("empty", vec![], vec![]);
    assert_eq!(one_norm(&e).unwrap().as_pair(), (0, 1));
    assert!(try_one_norm(&e).is_some());
}

#[test]
fn error_messages_render_like_display() {
    assert_eq!(
        EnsembleError::NormContractivityViolation { norm_1: (9, 5) }.message(),
        "NormContractivityViolation: ||G||_1 = 9/5 >= 1"
    );
    assert_eq!(
        EnsembleError::DimensionMismatch { matrix: 2, lambda: 3 }.message(),
        "Dimension mismatch: adjacency matrix is 2x2, but lambda vector has length 3"
    );
    assert_eq!(
        EnsembleError::MatrixNotSquare { row: 1, len: 1, expected: 2 }.message(),
        "Row 1 has length 1 instead of 2"
    );
    assert_eq!(
        EnsembleError::MissingTheoremAnchor.message(),
        "MissingTheoremAnchor: theorem_name is empty or missing"
    );
}

#[test]
fn theorem_anchor_shape() {
    assert!(is_theorem_anchor("author_declared_lambda"));
    assert!(is_theorem_anchor("  f'  "));
    assert!(is_theorem_anchor("_x1"));
    assert!(!is_theorem_anchor(""));
    assert!(!is_theorem_anchor("   "));
    assert!(!is_theorem_anchor("1abc"));
    assert!(is_theorem_anchor("a.b"));
    assert!(is_theorem_anchor(" Foundations.ADR.BoundedIteration.iterate_non_expansive "));
    assert!(!is_theorem_anchor("a..b"));
    assert!(!is_theorem_anchor(".a"));
    assert!(!is_theorem_anchor("a."));
    assert!(!is_theorem_anchor("a.1b"));
    assert!(!is_theorem_anchor("a b"));
}

#[test]
fn certify_at_is_deterministic_and_trims_anchor() {
    let ensemble = Ensemble::from_rationals(
        "retuned_loop",
        vec![vec![q(0, 1), q(2, 5)], vec![q(2, 5), q(0, 1)]],
        vec![q(9, 10), q(9, 10)],
    )
    .with_theorem_name("  author_declared_lambda ");
    let a = certify_at(&ensemble, 7).unwrap();
    let b = certify_at(&ensemble, 7).unwrap();
    assert_eq!(a, b);
    assert_eq!(a.timestamp, 7);
    assert_eq!(a.dimension, 2);
    assert_eq!(a.ensemble_name, "retuned_loop");
    assert_eq!(a.theorem_name, "author_declared_lambda");
    assert_eq!(a.hash.len(), 64);
    assert!(a.hash.chars().all(|c| c.is_ascii_hexdigit() && !c.is_ascii_uppercase()));
    assert!(a.validate().is_ok());
}

#[test]
fn certify_shape_checks_come_first() {
    let e = Ensemble::from_rationals("e", vec![], vec![q(1, 2)]).with_theorem_name("t");
    assert!(validate_and_certify(&e).unwrap_err().contains("Dimension mismatch"));
    let e = Ensemble::from_rationals("e", vec![vec![]], vec![q(1, 2)]).with_theorem_name("t");
    assert!(validate_and_certify(&e).unwrap_err().contains("InvalidRational"));
}

#[test]
fn dotted_lean_theorem_path_certifies() {
    // The daemon's header-only envelope: matrix ((0,1),(4,10)),((4,10),(0,1)), lambdas 9/10.
    let ensemble = Ensemble::from_rationals(
        "test_contract",
        vec![vec![q(0, 1), q(4, 10)], vec![q(4, 10), q(0, 1)]],
        vec![q(9, 10), q(9, 10)],
    )
    .with_theorem_name("Foundations.ADR.BoundedIteration.iterate_non_expansive");
    let cert = validate_and_certify(&ensemble).unwrap();
    assert!(cert.is_norm_contractive);
    assert_eq!(cert.exact_rational_norm_1, (9, 25));
    assert_eq!(cert.theorem_name, "Foundations.ADR.BoundedIteration.iterate_non_expansive");
    let bad = Ensemble::from_rationals("x", vec![vec![q(0, 1)]], vec![q(1, 2)]).with_theorem_name("Foundations..bar");
    assert!(validate_and_certify(&bad).unwrap_err().contains("MissingTheoremAnchor"));
}
