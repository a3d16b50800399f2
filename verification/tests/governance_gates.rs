use pirtm::ace::{AceConstraintEngine, AceError};
use pirtm::energy::EnergyLedgerState;
use pirtm::xi_constitution::{CslOperators, LawfulRecursionState};
use pirtm::tensor_nodes::{SelfReferentialNode, TNNCompilationState, TensorDerivativeNode, TensorStatus};
use pirtm::translate::Target;
use pirtm::mocword::{DynamicOperator, GradientProjection, IntoMOCWord, MOCWordSimulator, MultiplicityFunction, UniversalConstant};
use pirtm::multiplicity_functor::{Sig, Type, TypeError};

#[test]
fn test_node_reduction_within_budget() {
    let engine = AceConstraintEngine::new(1000);
    let sample_reduction_budget = 450;
    let result = engine.verify_budget(sample_reduction_budget);
    assert!(result.is_ok());
}

#[test]
fn test_node_reduction_overflow_trap() {
    let engine = AceConstraintEngine::new(1000);
    let overflow_reduction_budget = 1200;
    let result = engine.verify_budget(overflow_reduction_budget);
    assert!(result.is_err());
    if let Err(AceError::BudgetExceeded { required, max }) = result {
        assert_eq!(required, 1200);
        assert_eq!(max, 1000);
    } else {
        panic!("Expected BudgetExceeded error");
    }
}

#[test]
fn ace_budget_boundary_and_messages() {
    let engine = AceConstraintEngine::new(10);
    assert!(engine.verify_budget(10).is_ok());
    let err = engine.verify_budget(11).unwrap_err();
    assert_eq!(err.message(), "ACE Budget Exceeded: required 11, max 10");
    let inv = AceError::InvariantViolation("drift".to_string());
    assert_eq!(inv.message(), "Invariant Violation: drift");
}

#[test]
fn test_energy_ledger_ground_state() {
    let e1 = EnergyLedgerState::new(10, 15);
    let e2 = EnergyLedgerState::new(12, 8);
    assert_eq!(e1.calculate_total_energy(), -5);
    assert_eq!(e2.calculate_total_energy(), 4);
    assert!(e1.is_ground_state(&e2));
}

#[test]
fn ground_state_minimization_example() {
    let weaker = EnergyLedgerState::new(100, 40);
    let stronger = EnergyLedgerState::new(100, 90);
    assert!(stronger.is_ground_state(&weaker));
    assert!(!weaker.is_ground_state(&stronger));
    assert!(weaker.is_ground_state(&weaker));
}

#[test]
fn test_xi_constitution_csl_and_lawful_recursion() {
    let csl = CslOperators { is_neutral: true, is_beneficent: true, is_silent: true };
    assert!(csl.evaluate_gate());
    let rec = LawfulRecursionState { drift_delta: 3, bound_epsilon: 10 };
    assert!(rec.is_lawful());
}

#[test]
fn csl_gate_fails_closed_on_any_operator() {
    for mask in 0..7u8 {
        let csl = CslOperators { is_neutral: mask & 1 != 0, is_beneficent: mask & 2 != 0, is_silent: mask & 4 != 0 };
        assert!(!csl.evaluate_gate());
    }
    assert!(!LawfulRecursionState { drift_delta: 11, bound_epsilon: 10 }.is_lawful());
    assert!(LawfulRecursionState { drift_delta: 10, bound_epsilon: 10 }.is_lawful());
}

#[test]
fn tensor_compiler_enforcement_cases() {
    for mask in 0..8u8 {
        let (l, x, iso) = (mask & 1 != 0, mask & 2 != 0, mask & 4 != 0);
        let mut node = TensorDerivativeNode::new();
        node.parse_regulators(l, x);
        if iso {
            node.isolate_noise();
        }
        let r = node.compile_and_verify();
        if l && x && iso {
            assert!(r.is_ok());
            assert_eq!(node.status, TensorStatus::RegulatorApplied);
        } else {
            assert!(r.is_err());
            assert_eq!(node.status, TensorStatus::Unbounded);
        }
    }
    let mut node = TensorDerivativeNode::new();
    node.parse_regulators(true, false);
    assert!(node.compile_and_verify().unwrap_err().contains("Multiplicity regulators"));
    node.parse_regulators(true, true);
    assert!(node.compile_and_verify().unwrap_err().contains("stochastic noise term"));
}

#[test]
fn tnn_compiler_bounds_cases() {
    for mask in 0..16u8 {
        let (l, x, m, g) = (mask & 1 != 0, mask & 2 != 0, mask & 4 != 0, mask & 8 != 0);
        let mut node = SelfReferentialNode::new();
        node.parse_regulators(l, x, m);
        if g {
            node.enforce_gradient_bound();
        }
        let r = node.verify_ast_integrity();
        if l && x && m && g {
            assert!(r.is_ok());
            assert_eq!(node.state, TNNCompilationState::BoundVerified);
        } else {
            assert!(r.is_err());
            assert_eq!(node.state, TNNCompilationState::Invalid);
        }
    }
}

#[test]
fn translate_targets() {
    assert_eq!(Target::from_str("llvm"), Some(Target::Llvm));
    assert_eq!(Target::from_str("wasm"), Some(Target::Wasm));
    assert_eq!(Target::from_str("x86"), None);
    assert_eq!(Target::Llvm.translate_flag(), "--mlir-to-llvmir");
    assert_eq!(Target::Wasm.translate_flag(), "--mlir-to-wasm");
}

#[test]
fn mocword_lowering_is_prime_indexed() {
    let c = UniversalConstant.to_mocword().unwrap();
    let d = DynamicOperator.to_mocword().unwrap();
    assert_eq!(c, MOCWordSimulator::Atom(2));
    assert_eq!(d, MOCWordSimulator::Atom(3));
    assert_eq!(MultiplicityFunction { prime: 7 }.to_mocword().unwrap(), MOCWordSimulator::Atom(7));
    assert_eq!(GradientProjection.to_mocword().unwrap(), MOCWordSimulator::Atom(19));
    let w = c.compose(d);
    assert_eq!(w, MOCWordSimulator::Composite(Box::new(MOCWordSimulator::Atom(2)), Box::new(MOCWordSimulator::Atom(3))));
}

#[test]
fn test_sig_elevation() {
    let base_type = Type::Int;
    let sig_type = Sig::elevate(base_type.duplicate());
    assert_eq!(sig_type, Type::MultiplicityFunctor(Box::new(Type::Int)));
    let extracted = Sig::extract(&sig_type).unwrap();
    assert_eq!(extracted, base_type);
}

#[test]
fn test_sig_compatibility() {
    let t1 = Sig::elevate(Type::Float);
    let t2 = Sig::elevate(Type::Float);
    let t3 = Sig::elevate(Type::Int);
    assert!(Sig::verify_compatibility(&t1, &t2).is_ok());
    assert!(Sig::verify_compatibility(&t1, &t3).is_err());
}

#[test]
fn sig_rejects_unelevated_types() {
    assert_eq!(Sig::extract(&Type::Bool), Err(TypeError::MultiplicityViolation(Type::Bool)));
    assert_eq!(
        Sig::verify_compatibility(&Sig::elevate(Type::Int), &Sig::elevate(Type::Unit)),
        Err(TypeError::Mismatch { expected: Type::Int, found: Type::Unit })
    );
    assert_eq!(
        Sig::verify_compatibility(&Type::Int, &Sig::elevate(Type::Int)),
        Err(TypeError::MultiplicityViolation(Type::Int))
    );
}
