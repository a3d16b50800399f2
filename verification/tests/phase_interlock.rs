use num_rational::Ratio;
use pirtm::phase_hypergraph::{judge_distance, GeneratorViolation, PhaseHypergraph, EPSILON_CRIT};

/// `n/d` in lowest terms, as the tensor holds it.
fn r(n: i64, d: i64) -> (i64, i64) {
    let x = Ratio::new(n, d);
    (*x.numer(), *x.denom())
}

fn ratio(x: (i64, i64)) -> Ratio<i64> {
    Ratio::new(x.0, x.1)
}

#[test]
fn test_zero_self_distance() {
    let mut h = PhaseHypergraph::new(3);
    h.tensor[0][1] = r(1, 2);
    h.tensor[1][2] = r(1, 3);

    let dist = h.distance(&h).expect("Self-distance calculation should succeed");
    assert_eq!(dist, r(0, 1), "D_Phi(H, H) must be identically zero");
    assert!(h.verify_transition(&h).is_ok());
}

#[test]
fn test_triangle_inequality() {
    let mut h1 = PhaseHypergraph::new(2);
    let mut h2 = PhaseHypergraph::new(2);
    let mut h3 = PhaseHypergraph::new(2);

    h1.tensor[0][1] = r(1, 100);
    h2.tensor[0][1] = r(2, 100);
    h3.tensor[0][1] = r(5, 100);

    let d12 = ratio(h1.distance(&h2).unwrap());
    let d23 = ratio(h2.distance(&h3).unwrap());
    let d13 = ratio(h1.distance(&h3).unwrap());

    assert!(d13 <= d12 + d23, "Triangle inequality must hold: D(1,3) <= D(1,2) + D(2,3)");
}

#[test]
fn test_transition_pass_contractive() {
    let mut h1 = PhaseHypergraph::new(2);
    let mut h2 = PhaseHypergraph::new(2);

    h1.tensor[0][0] = r(5, 100);
    h2.tensor[0][0] = r(6, 100);

    let res = h1.verify_transition(&h2);
    assert!(res.is_ok());
    assert_eq!(res.unwrap(), r(1, 100));
}

#[test]
fn test_transition_fail_phase_dissonance() {
    let mut h1 = PhaseHypergraph::new(2);
    let mut h2 = PhaseHypergraph::new(2);

    h1.tensor[0][0] = r(10, 100);
    h2.tensor[0][0] = r(14, 100);

    let res = h1.verify_transition(&h2);
    assert!(res.is_err());
    match res.unwrap_err() {
        GeneratorViolation::PhaseDissonance(n, d, cn, cd) => {
            assert_eq!((n, d), (1, 25));
            assert_eq!((cn, cd), (3, 100));
        }
        other => panic!("Unexpected error variant: {:?}", other),
    }
}

#[test]
fn test_dimension_mismatch() {
    let h1 = PhaseHypergraph::new(2);
    let h2 = PhaseHypergraph::new(3);

    let res = h1.verify_transition(&h2);
    assert_eq!(res.unwrap_err(), GeneratorViolation::DimensionMismatch);
}

#[test]
fn new_hypergraph_is_all_zero() {
    let h = PhaseHypergraph::new(3);
    assert_eq!(h.dimension, 3);
    assert_eq!(h.tensor.len(), 3);
    for row in &h.tensor {
        assert_eq!(row, &vec![(0, 1); 3]);
    }
    assert!(PhaseHypergraph::new(0).tensor.is_empty());
}

#[test]
fn distance_is_max_column_sum_of_absolute_differences() {
    let mut h1 = PhaseHypergraph::new(2);
    let mut h2 = PhaseHypergraph::new(2);
    // column 0: |1/2 - 0| + |0 - 1/3| = 5/6; column 1: |-1/4 - 1/4| + 0 = 1/2
    h1.tensor[0][0] = r(1, 2);
    h2.tensor[1][0] = r(1, 3);
    h1.tensor[0][1] = r(-1, 4);
    h2.tensor[0][1] = r(1, 4);
    assert_eq!(h1.distance(&h2), Ok((5, 6)));
    assert_eq!(h2.distance(&h1), Ok((5, 6)));
}

#[test]
fn distance_is_never_negative() {
    let mut h1 = PhaseHypergraph::new(2);
    let h2 = PhaseHypergraph::new(2);
    h1.tensor[1][1] = r(-7, 3);
    let d = h1.distance(&h2).unwrap();
    assert_eq!(d, (7, 3));
    assert!(ratio(d) >= Ratio::new(0, 1));
}

#[test]
fn overflow_is_reported_as_none() {
    let mut h1 = PhaseHypergraph::new(1);
    let mut h2 = PhaseHypergraph::new(1);
    h1.tensor[0][0] = (i64::MAX, 1);
    h2.tensor[0][0] = (-1, 1);
    assert_eq!(h1.try_distance(&h2), None);
    assert_eq!(h1.try_verify_transition(&h2), None);
    let h3 = PhaseHypergraph::new(2);
    assert_eq!(h1.try_distance(&h3), Some(Err(GeneratorViolation::DimensionMismatch)));
}

#[test]
fn common_denominator_overflow_is_reported_as_none() {
    let mut h1 = PhaseHypergraph::new(1);
    let mut h2 = PhaseHypergraph::new(1);
    h1.tensor[0][0] = (1, i64::MAX);
    h2.tensor[0][0] = (1, i64::MAX - 1);
    assert_eq!(h1.try_distance(&h2), None);
    h2.tensor[0][0] = (1, i64::MAX);
    assert_eq!(h1.try_distance(&h2), Some(Ok((0, 1))));
}

#[test]
fn try_verify_transition_agrees_with_verify_transition() {
    let mut h1 = PhaseHypergraph::new(2);
    let h2 = PhaseHypergraph::new(2);
    h1.tensor[1][0] = r(1, 50);
    assert_eq!(h1.try_verify_transition(&h2), Some(Ok((1, 50))));
    h1.tensor[0][0] = r(1, 100);
    assert_eq!(
        h1.try_verify_transition(&h2),
        Some(Err(GeneratorViolation::PhaseDissonance(3, 100, 3, 100)))
    );
}

#[test]
fn threshold_is_exclusive() {
    assert_eq!(EPSILON_CRIT, (3, 100));
    assert_eq!(judge_distance((299, 10000)), Ok((299, 10000)));
    assert_eq!(
        judge_distance((3, 100)),
        Err(GeneratorViolation::PhaseDissonance(3, 100, 3, 100))
    );
    assert_eq!(
        judge_distance((1, 25)),
        Err(GeneratorViolation::PhaseDissonance(1, 25, 3, 100))
    );
}

#[test]
fn violation_messages() {
    assert_eq!(
        GeneratorViolation::PhaseDissonance(1, 25, 3, 100).message(),
        "SIG_GOV_KILL: Phase Dissonance Breach: D_Phi(1/25) >= epsilon_crit(3/100)"
    );
    assert_eq!(
        GeneratorViolation::PhaseDissonance(-2, 7, 3, 100).message(),
        "SIG_GOV_KILL: Phase Dissonance Breach: D_Phi(-2/7) >= epsilon_crit(3/100)"
    );
    assert_eq!(
        GeneratorViolation::DimensionMismatch.message(),
        "Topological Incoherence: dimension mismatch between state hypergraphs"
    );
}
