use pirtm::compiler::PhaseMirrorCompiler;
use pirtm::errors::CompileError;
use pirtm::phase_hypergraph::PhaseHypergraph;

fn graph(entry: (i64, i64)) -> PhaseHypergraph {
    let mut h = PhaseHypergraph::new(2);
    h.tensor[0][0] = entry;
    h
}

#[test]
fn interlock_passes_without_a_current_topology() {
    let c = PhaseMirrorCompiler::new();
    assert!(c.current_topology.is_none());
    assert!(matches!(c.preflight_topology(Some(&graph((1, 2)))), Some(Ok(()))));
    assert!(matches!(c.preflight_topology(None), Some(Ok(()))));
}

#[test]
fn interlock_accepts_small_steps_and_refuses_breaches() {
    let mut c = PhaseMirrorCompiler::default();
    c.commit_topology(Some(&graph((1, 20))));
    assert_eq!(c.current_topology.as_ref().unwrap().tensor[0][0], (1, 20));
    // 6/100 - 5/100 = 1/100 < 3/100
    assert!(matches!(c.preflight_topology(Some(&graph((3, 50)))), Some(Ok(()))));
    // 14/100 - 5/100 = 9/100 >= 3/100
    match c.preflight_topology(Some(&graph((7, 50)))) {
        Some(Err(CompileError::ValidationError { item, message })) => {
            assert_eq!(item, "topology");
            assert_eq!(message, "SIG_GOV_KILL: Phase Dissonance Breach: D_Phi(9/100) >= epsilon_crit(3/100)");
        }
        other => panic!("unexpected: {:?}", other),
    }
    match c.preflight_topology(Some(&PhaseHypergraph::new(3))) {
        Some(Err(CompileError::ValidationError { item, message })) => {
            assert_eq!(item, "topology");
            assert_eq!(message, "Topological Incoherence: dimension mismatch between state hypergraphs");
        }
        other => panic!("unexpected: {:?}", other),
    }
    c.commit_topology(None);
    assert_eq!(c.current_topology.as_ref().unwrap().tensor[0][0], (1, 20));
}

#[test]
fn interlock_reports_overflow_as_none() {
    let mut c = PhaseMirrorCompiler::new();
    let mut big = PhaseHypergraph::new(1);
    big.tensor[0][0] = (i64::MAX, 1);
    c.commit_topology(Some(&big));
    let mut neg = PhaseHypergraph::new(1);
    neg.tensor[0][0] = (-1, 1);
    assert!(c.preflight_topology(Some(&neg)).is_none());
}
