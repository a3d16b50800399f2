use vstd::prelude::*;

verus! {

/// The three constitutional operators of a transition.
#[derive(Debug, Clone, Copy, PartialEq, Eq)]
pub struct CslOperators {
    pub is_neutral: bool,
    pub is_beneficent: bool,
    pub is_silent: bool,
}

impl CslOperators {
    /// True exactly when all three operators hold.
    pub fn evaluate_gate(&self) -> (b: bool)
        ensures
            b == (self.is_neutral && self.is_beneficent && self.is_silent),
    {
        self.is_neutral && self.is_beneficent && self.is_silent
    }
}

/// Drift of a recursion against its admissible bound.
#[derive(Debug, Clone, Copy, PartialEq, Eq)]
pub struct LawfulRecursionState {
    pub drift_delta: u64,
    pub bound_epsilon: u64,
}

impl LawfulRecursionState {
    /// Lawful while the drift stays within the bound.
    pub fn is_lawful(&self) -> (b: bool)
        ensures
            b == (self.drift_delta <= self.bound_epsilon),
    {
        self.drift_delta <= self.bound_epsilon
    }
}

} // verus!
