//! The compiler's topological pre-flight interlock: a candidate state hypergraph is accepted
//! only within the critical phase distance of the current one.
use vstd::prelude::*;
use crate::admissibility::AdmissibilityValidator;
use crate::errors::CompileError;
use crate::phase_hypergraph::{distance_run, same_graph, tensor_ok, transition_outcome, violation_text, PhaseHypergraph};

verus! {

/// The compiler state that the interlock reads and keeps.
pub struct PhaseMirrorCompiler {
    pub validator: AdmissibilityValidator,
    pub current_topology: Option<PhaseHypergraph>,
}

impl Default for PhaseMirrorCompiler {
    fn default() -> (c: Self)
        ensures
            c.current_topology is None,
    {
        Self::new()
    }
}

/// The two hypergraphs can be compared: equal dimensions mean both tensors cover them.
pub open spec fn comparable(cur: PhaseHypergraph, cand: PhaseHypergraph) -> bool {
    cur.dimension == cand.dimension ==> tensor_ok(cur.tensor@, cur.dimension as int) && tensor_ok(
        cand.tensor@,
        cand.dimension as int,
    )
}

impl PhaseMirrorCompiler {
    /// A compiler with no topology recorded yet.
    pub fn new() -> (c: Self)
        ensures
            c.current_topology is None,
    {
        PhaseMirrorCompiler { validator: AdmissibilityValidator::new(), current_topology: None }
    }

    /// The pre-flight interlock that runs before compilation. With no candidate or no
    /// current topology it passes. Otherwise the transition from the current topology to the
    /// candidate must stay below the critical phase distance `3/100`; a refused transition is
    /// a validation error on `topology` whose message is the violation's text. `None` where
    /// the exact `i64` distance arithmetic would overflow.
    pub fn preflight_topology(&self, candidate: Option<&PhaseHypergraph>) -> (r: Option<Result<(), CompileError>>)
        requires
            candidate matches Some(c) ==> (self.current_topology matches Some(cur) ==> comparable(cur, *c)),
        ensures
            match (candidate, self.current_topology) {
                (Some(c), Some(cur)) => match distance_run(cur, *c) {
                    None => r is None,
                    Some(run) => match transition_outcome(run) {
                        Ok(_) => r matches Some(Ok(())),
                        Err(v) => r matches Some(Err(CompileError::ValidationError { item, message }))
                            && item@ == "topology"@ && message@ == violation_text(v),
                    },
                },
                _ => r matches Some(Ok(())),
            },
    {
        match candidate {
            None => Some(Ok(())),
            Some(c) => match &self.current_topology {
                None => Some(Ok(())),
                Some(cur) => match cur.try_verify_transition(c) {
                    None => None,
                    Some(Ok(_)) => Some(Ok(())),
                    Some(Err(v)) => Some(
                        Err(CompileError::ValidationError { item: String::from_str("topology"), message: v.message() }),
                    ),
                },
            },
        }
    }

    /// Records the candidate as the current topology after a successful compilation; with
    /// no candidate the current topology stays.
    pub fn commit_topology(&mut self, candidate: Option<&PhaseHypergraph>)
        ensures
            candidate matches Some(c) ==> (final(self).current_topology matches Some(t) && same_graph(t, *c)),
            candidate is None ==> final(self).current_topology == old(self).current_topology,
    {
        if let Some(c) = candidate {
            self.current_topology = Some(c.duplicate());
        }
    }
}

} // verus!
