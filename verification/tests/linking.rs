use pirtm::linker::{LinkerError, SpectralGovernor};
use pirtm::manifest::{DependencyMeta, EnsembleManifest, EnsembleMeta, GovernanceMeta};
use pirtm::rational::PosRat;

fn q(n: u64, d: u64) -> Option<PosRat> {
    Some(PosRat::new(n, d).unwrap())
}

fn gov(radius: Option<PosRat>, receipt: &str, theorem_name: &str) -> GovernanceMeta {
    GovernanceMeta {
        spectral_radius: radius,
        contractivity_receipt: receipt.to_string(),
        ledger_anchor: None,
        theorem_name: theorem_name.to_string(),
    }
}

fn meta(name: &str, prime_index: u64) -> EnsembleMeta {
    EnsembleMeta { name: name.to_string(), version: "1.0".to_string(), prime_index, description: None, authors: None }
}

fn dep(max: Option<PosRat>, prime_index: Option<u64>) -> DependencyMeta {
    DependencyMeta { version: "0.1".to_string(), spectral_max: max, prime_index }
}

#[test]
fn test_linker_composition_success() {
    let mut governor = SpectralGovernor::new();
    let main = EnsembleManifest {
        ensemble: meta("main-app", 2),
        governance: gov(q(1, 2), "hash1", "author_declared_lambda"),
        dependencies: Some(vec![("tensor-ops".to_string(), dep(q(3, 10), Some(17)))]),
    };
    let dependency = EnsembleManifest {
        ensemble: meta("tensor-ops", 17),
        governance: gov(q(1, 5), "hash2", "author_declared_lambda"),
        dependencies: None,
    };
    governor.register(main);
    governor.register(dependency);
    assert!(governor.link("main-app").is_ok());
}

#[test]
fn test_linker_rejects_missing_theorem_name() {
    let mut governor = SpectralGovernor::new();
    governor.register(EnsembleManifest {
        ensemble: meta("main-app", 2),
        governance: gov(q(1, 2), "hash1", ""),
        dependencies: None,
    });
    match governor.link("main-app") {
        Err(LinkerError::MissingTheoremAnchor { ensemble }) => assert_eq!(ensemble, "main-app"),
        other => panic!("expected MissingTheoremAnchor, got {:?}", other),
    }
}

#[test]
fn test_linker_composition_failure() {
    let mut governor = SpectralGovernor::new();
    governor.register(EnsembleManifest {
        ensemble: meta("node_a", 2),
        governance: gov(q(9, 10), "hash_a", "author_declared_lambda"),
        dependencies: Some(vec![("node_b".to_string(), dep(q(3, 2), None))]),
    });
    governor.register(EnsembleManifest {
        ensemble: meta("node_b", 3),
        governance: gov(q(9, 10), "hash_b", "author_declared_lambda"),
        dependencies: Some(vec![("node_a".to_string(), dep(q(3, 2), None))]),
    });
    assert!(governor.link("node_a").is_err());
    assert_eq!(
        governor.link("node_a"),
        Err(LinkerError::NormContractivityViolation { ensemble: "node_a".to_string(), norm_1: (1, 1) })
    );
}

#[test]
fn linker_reports_unknown_root_and_missing_dependency() {
    let mut governor = SpectralGovernor::new();
    assert_eq!(governor.link("ghost"), Err(LinkerError::DependencyNotFound("ghost".to_string())));
    governor.register(EnsembleManifest {
        ensemble: meta("app", 2),
        governance: gov(q(1, 2), "h", "author_declared_lambda"),
        dependencies: Some(vec![("lib".to_string(), dep(q(1, 10), None))]),
    });
    assert_eq!(governor.link("app"), Err(LinkerError::DependencyNotFound("lib".to_string())));
}

#[test]
fn linker_checks_declared_prime_index() {
    let mut governor = SpectralGovernor::new();
    governor.register(EnsembleManifest {
        ensemble: meta("app", 2),
        governance: gov(q(1, 2), "h", "author_declared_lambda"),
        dependencies: Some(vec![("lib".to_string(), dep(q(1, 10), Some(5)))]),
    });
    governor.register(EnsembleManifest {
        ensemble: meta("lib", 7),
        governance: gov(q(1, 4), "h2", "author_declared_lambda"),
        dependencies: None,
    });
    assert_eq!(governor.link("app"), Err(LinkerError::IncompatiblePrime(5, 7)));
}

#[test]
fn linker_treats_unreadable_gains_as_a_failed_budget() {
    let mut governor = SpectralGovernor::new();
    governor.register(EnsembleManifest {
        ensemble: meta("app", 2),
        governance: gov(None, "h", "author_declared_lambda"),
        dependencies: None,
    });
    assert_eq!(governor.link("app"), Err(LinkerError::SpectralBudgetExceeded { ensemble: "app".to_string() }));
}

#[test]
fn register_replaces_a_manifest_of_the_same_name() {
    let mut governor = SpectralGovernor::new();
    governor.register(EnsembleManifest {
        ensemble: meta("app", 2),
        governance: gov(q(1, 2), "h", ""),
        dependencies: None,
    });
    assert!(governor.link("app").is_err());
    governor.register(EnsembleManifest {
        ensemble: meta("app", 2),
        governance: gov(q(1, 2), "h", "author_declared_lambda"),
        dependencies: None,
    });
    assert!(governor.link("app").is_ok());
}
