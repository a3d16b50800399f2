//! Governance kernels of the PIRTM toolchain: exact-rational contractivity gates,
//! witness bytecode over decorated tensor signatures, admissibility checks for the
//! PIRTM syntax tree, and the small state machines that guard compilation.

pub mod decimal;
pub mod energy;
pub mod partition;
pub mod signature;
pub mod exps_text;
pub mod witness;
pub mod varint;
pub mod digest;
pub mod bytecode;
pub mod rational;
pub mod clock;
pub mod anchor;
pub mod spectral;
pub mod ast;
pub mod primes;
pub mod admissibility;
pub mod type_check;
pub mod stablehlo;
pub mod xi_constitution;
pub mod hundian;
pub mod harmonia;
pub mod tensor_nodes;
pub mod envelope;
pub mod translate;
pub mod ace;
pub mod mocword;
pub mod multiplicity_functor;
pub mod errors;
pub mod runtime;
pub mod daemon;
pub mod goldilocks;
pub mod poseidon;
pub mod polynomial;
pub mod unified_witness;
pub mod manifest;
pub mod linker;
pub mod phase_hypergraph;
pub mod ofa;
pub mod crmf_binding;
pub mod goldilocks_lanes;
pub mod invariants;
pub mod compiler;
