//! Structural Phase Mirror invariants on MOC words.
use vstd::prelude::*;
use crate::decimal::{decimal, push_decimal};

verus! {

/// A word of the MOC algebra: prime atoms, composites, successors and stratum boundaries.
#[derive(Debug, PartialEq, Eq)]
pub enum MOCWord {
    Atom(u64),
    Composite(Box<MOCWord>, Box<MOCWord>),
    Successor(Box<MOCWord>),
    StratumBoundary(Box<MOCWord>),
}

/// Nesting depth: `1` for an atom.
pub open spec fn word_depth(w: MOCWord) -> nat
    decreases w,
{
    match w {
        MOCWord::Atom(_) => 1,
        MOCWord::Composite(l, r) => {
            let a = word_depth(*l);
            let b = word_depth(*r);
            1 + if a >= b {
                a
            } else {
                b
            }
        },
        MOCWord::Successor(inner) => 1 + word_depth(*inner),
        MOCWord::StratumBoundary(inner) => 1 + word_depth(*inner),
    }
}

/// The first structural violation met in a left-to-right walk, if any.
pub open spec fn structural_violation(w: MOCWord) -> Option<Seq<char>>
    decreases w,
{
    match w {
        MOCWord::Atom(p) => if p == 0 {
            Some("L0_07_PrimeZeroForbidden: Prime index cannot be 0"@)
        } else if p == 1 {
            Some("L0_08_PrimeOneForbidden: Prime index 1 is strictly expansive"@)
        } else {
            None
        },
        MOCWord::Composite(l, r) => match structural_violation(*l) {
            Some(e) => Some(e),
            None => structural_violation(*r),
        },
        MOCWord::Successor(inner) => if *inner is Successor {
            Some("L0_09_NestedSuccessorForbidden: Successors must be separated by StratumBoundary"@)
        } else {
            structural_violation(*inner)
        },
        MOCWord::StratumBoundary(inner) => structural_violation(*inner),
    }
}

/// The depth budget of the computational invariants.
pub const MAX_WORD_DEPTH: usize = 100;

/// The Phase Mirror invariant checks.
pub struct PhaseMirrorInvariants;

impl PhaseMirrorInvariants {
    /// Nesting depth of `word`.
    pub fn calculate_depth(word: &MOCWord) -> (d: usize)
        requires
            word_depth(*word) <= usize::MAX,
        ensures
            d == word_depth(*word),
        decreases word,
    {
        match word {
            MOCWord::Atom(_) => 1,
            MOCWord::Composite(l, r) => {
                let a = Self::calculate_depth(l);
                let b = Self::calculate_depth(r);
                1 + if a >= b {
                    a
                } else {
                    b
                }
            },
            MOCWord::Successor(inner) => 1 + Self::calculate_depth(inner),
            MOCWord::StratumBoundary(inner) => 1 + Self::calculate_depth(inner),
        }
    }

    /// Invariants 7 to 9: no prime index 0 or 1, and no successor directly inside another.
    pub fn check_structural(word: &MOCWord) -> (r: Result<(), String>)
        ensures
            match structural_violation(*word) {
                Some(e) => r matches Err(m) && m@ == e,
                None => r is Ok,
            },
        decreases word,
    {
        match word {
            MOCWord::Atom(p) => {
                if *p == 0 {
                    return Err(String::from_str("L0_07_PrimeZeroForbidden: Prime index cannot be 0"));
                }
                if *p == 1 {
                    return Err(String::from_str("L0_08_PrimeOneForbidden: Prime index 1 is strictly expansive"));
                }
            },
            MOCWord::Composite(l, r) => {
                Self::check_structural(l)?;
                Self::check_structural(r)?;
            },
            MOCWord::Successor(inner) => {
                if let MOCWord::Successor(_) = **inner {
                    return Err(
                        String::from_str(
                            "L0_09_NestedSuccessorForbidden: Successors must be separated by StratumBoundary",
                        ),
                    );
                }
                Self::check_structural(inner)?;
            },
            MOCWord::StratumBoundary(inner) => {
                Self::check_structural(inner)?;
            },
        }
        Ok(())
    }

    /// Invariant 5: the word's depth stays within the budget of `100`.
    pub fn check_depth_budget(word: &MOCWord) -> (r: Result<(), String>)
        requires
            word_depth(*word) <= usize::MAX,
        ensures
            r is Ok <==> word_depth(*word) <= 100,
            r matches Err(m) ==> m@ == "L0_05_MaxDepthExceeded: depth ("@ + decimal(word_depth(*word))
                + ") > 100"@,
    {
        let depth = Self::calculate_depth(word);
        if depth > MAX_WORD_DEPTH {
            let mut m = String::from_str("L0_05_MaxDepthExceeded: depth (");
            push_decimal(&mut m, depth as u64);
            m.append(") > 100");
            Err(m)
        } else {
            Ok(())
        }
    }
}

} // verus!
