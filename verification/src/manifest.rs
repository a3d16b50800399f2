use vstd::prelude::*;
use crate::rational::PosRat;

verus! {

/// Identity of an ensemble.
#[derive(Debug, Clone)]
pub struct EnsembleMeta {
    pub name: String,
    pub version: String,
    pub prime_index: u64,
    pub description: Option<String>,
    pub authors: Option<Vec<String>>,
}

/// Governance section of a manifest. The declared spectral radius is held as the exact
/// rational that its decimal value stands for; `None` marks a value that is not a finite,
/// non-negative number.
#[derive(Debug, Clone)]
pub struct GovernanceMeta {
    pub spectral_radius: Option<PosRat>,
    pub contractivity_receipt: String,
    pub ledger_anchor: Option<String>,
    pub theorem_name: String,
}

/// A dependency of an ensemble, with the largest gain it may contribute (as an exact
/// rational, `None` when the declared value is not a finite, non-negative number) and the
/// prime index it is expected to carry.
#[derive(Debug, Clone)]
pub struct DependencyMeta {
    pub version: String,
    pub spectral_max: Option<PosRat>,
    pub prime_index: Option<u64>,
}

/// An ensemble manifest: identity, governance and named dependencies, in declaration order.
#[derive(Debug, Clone)]
pub struct EnsembleManifest {
    pub ensemble: EnsembleMeta,
    pub governance: GovernanceMeta,
    pub dependencies: Option<Vec<(String, DependencyMeta)>>,
}

/// The dependencies of `m`, none when the section is absent.
pub open spec fn deps_of(m: EnsembleManifest) -> Seq<(String, DependencyMeta)> {
    match m.dependencies {
        Some(d) => d@,
        None => Seq::empty(),
    }
}

} // verus!
