use pirtm::invariants::{MOCWord, PhaseMirrorInvariants};

fn ap(p: u64) -> MOCWord {
    MOCWord::Atom(p)
}

fn compose(l: MOCWord, r: MOCWord) -> MOCWord {
    MOCWord::Composite(Box::new(l), Box::new(r))
}

#[test]
fn test_invariants_fail_on_prime_one() {
    let word = ap(1);
    let res = PhaseMirrorInvariants::check_structural(&word);
    assert!(res.is_err());
    assert!(res.unwrap_err().contains("L0_08_PrimeOneForbidden"));
}

#[test]
fn test_invariants_fail_on_nested_successor() {
    let word = MOCWord::Successor(Box::new(MOCWord::Successor(Box::new(ap(2)))));
    let res = PhaseMirrorInvariants::check_structural(&word);
    assert!(res.is_err());
    assert!(res.unwrap_err().contains("L0_09_NestedSuccessorForbidden"));
}

#[test]
fn test_invariants_fail_on_prime_zero() {
    let word = ap(0);
    let res = PhaseMirrorInvariants::check_structural(&word);
    assert!(res.is_err());
    assert!(res.unwrap_err().contains("L0_07_PrimeZeroForbidden"));
}

#[test]
fn lawful_words_pass_structural_checks() {
    let word = compose(ap(2), ap(3));
    assert_eq!(PhaseMirrorInvariants::check_structural(&word), Ok(()));
    let bounded = MOCWord::Successor(Box::new(MOCWord::StratumBoundary(Box::new(MOCWord::Successor(Box::new(ap(5)))))));
    assert_eq!(PhaseMirrorInvariants::check_structural(&bounded), Ok(()));
}

#[test]
fn first_violation_from_the_left_is_reported() {
    let word = compose(ap(0), ap(1));
    assert_eq!(
        PhaseMirrorInvariants::check_structural(&word),
        Err("L0_07_PrimeZeroForbidden: Prime index cannot be 0".to_string())
    );
    let word = compose(ap(2), ap(1));
    assert_eq!(
        PhaseMirrorInvariants::check_structural(&word),
        Err("L0_08_PrimeOneForbidden: Prime index 1 is strictly expansive".to_string())
    );
}

#[test]
fn depth_and_budget() {
    assert_eq!(PhaseMirrorInvariants::calculate_depth(&ap(2)), 1);
    let w = compose(ap(2), MOCWord::Successor(Box::new(ap(3))));
    assert_eq!(PhaseMirrorInvariants::calculate_depth(&w), 3);
    assert_eq!(PhaseMirrorInvariants::check_depth_budget(&w), Ok(()));
    let mut deep = ap(2);
    for _ in 0..100 {
        deep = MOCWord::StratumBoundary(Box::new(deep));
    }
    assert_eq!(PhaseMirrorInvariants::calculate_depth(&deep), 101);
    assert_eq!(
        PhaseMirrorInvariants::check_depth_budget(&deep),
        Err("L0_05_MaxDepthExceeded: depth (101) > 100".to_string())
    );
}
