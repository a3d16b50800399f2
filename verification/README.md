# pirtm

A verified library for the PIRTM governance toolchain: exact rational spectral
certification of ensembles, the admissibility validator and type checker of the
phase B core, the witness bytecode and its tensor partition lattice, the spectral
linker, the phase hypergraph interlock, Goldilocks field arithmetic with its NTT and
Poseidon2 sponge, operator-first arithmetic terms and the CRMF binding.

Every function under `src/` is checked by Verus against its `requires`/`ensures`
contract; the `law_*` proof functions state properties that span several functions
(round trips, lattice laws, the triangle inequality of the phase distance, and so on).
Calls into outside crates (SHA-256, num-rational, num-bigint, Plonky3 Poseidon2,
tree-sitter, the system clock) sit behind small trusted wrappers whose doc comments say
what is assumed of them.

Layout:

- `src/` — the verified library, one module per concern.
- `tests/` — integration tests run against the compiled library.
- `app/` — the command-line front end, the JSON-lines daemon and the floating-point
  helpers that stay outside verification.
