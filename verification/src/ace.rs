use vstd::prelude::*;
use crate::decimal::{decimal, push_decimal};

verus! {

/// Rejections of the ACE constraint budget.
#[derive(Debug, Clone, PartialEq, Eq)]
pub enum AceError {
    BudgetExceeded { required: usize, max: usize },
    InvariantViolation(String),
}

pub open spec fn ace_error_text(e: AceError) -> Seq<char> {
    match e {
        AceError::BudgetExceeded { required, max } => "ACE Budget Exceeded: required "@ + decimal(required as nat)
            + ", max "@ + decimal(max as nat),
        AceError::InvariantViolation(m) => "Invariant Violation: "@ + m@,
    }
}

impl AceError {
    /// Human-readable description of the error.
    pub fn message(&self) -> (s: String)
        ensures
            s@ == ace_error_text(*self),
    {
        let mut s = String::new();
        match self {
            AceError::BudgetExceeded { required, max } => {
                proof {
                    reveal_strlit("ACE Budget Exceeded: required ");
                    reveal_strlit(", max ");
                }
                s.append("ACE Budget Exceeded: required ");
                push_decimal(&mut s, *required as u64);
                s.append(", max ");
                push_decimal(&mut s, *max as u64);
            },
            AceError::InvariantViolation(m) => {
                proof {
                    reveal_strlit("Invariant Violation: ");
                }
                s.append("Invariant Violation: ");
                s.append(m.as_str());
            },
        }
        s
    }
}

/// Compute budget of a compilation phase.
#[derive(Debug, Clone, Copy, PartialEq, Eq)]
pub struct AceConstraintEngine {
    pub max_compute_budget: usize,
}

impl AceConstraintEngine {
    pub fn new(max_compute_budget: usize) -> (e: Self)
        ensures
            e.max_compute_budget == max_compute_budget,
    {
        Self { max_compute_budget }
    }

    /// A request within the budget passes; one beyond it is reported with both figures.
    pub fn verify_budget(&self, requested_budget: usize) -> (r: Result<(), AceError>)
        ensures
            requested_budget <= self.max_compute_budget ==> r is Ok,
            requested_budget > self.max_compute_budget ==> r == Err::<(), AceError>(
                AceError::BudgetExceeded { required: requested_budget, max: self.max_compute_budget },
            ),
    {
        if requested_budget > self.max_compute_budget {
            return Err(AceError::BudgetExceeded { required: requested_budget, max: self.max_compute_budget });
        }
        Ok(())
    }
}

} // verus!
