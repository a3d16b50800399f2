use vstd::prelude::*;

verus! {

/// Failure to lower a syntax node to a MOC word.
#[derive(Debug)]
pub struct CompileError(pub String);

/// Prime-indexed MOC words: atoms and their compositions.
#[derive(Debug, PartialEq, Eq)]
pub enum MOCWordSimulator {
    Atom(u64),
    Composite(Box<MOCWordSimulator>, Box<MOCWordSimulator>),
}

impl MOCWordSimulator {
    /// The composite `self ∘ rhs`.
    pub fn compose(self, rhs: MOCWordSimulator) -> (w: Self)
        ensures
            w == MOCWordSimulator::Composite(Box::new(self), Box::new(rhs)),
    {
        MOCWordSimulator::Composite(Box::new(self), Box::new(rhs))
    }
}

/// Lowering of a verified syntax node to a MOC word.
pub trait IntoMOCWord {
    type Output;

    fn to_mocword(&self) -> Result<Self::Output, CompileError>;
}

/// The universal constant of the multiplicity equations.
#[derive(Debug, Clone, Copy)]
pub struct UniversalConstant;

/// The dynamic recursive operator.
#[derive(Debug, Clone, Copy)]
pub struct DynamicOperator;

/// A multiplicity function over a prime.
#[derive(Debug, Clone, Copy)]
pub struct MultiplicityFunction {
    pub prime: u64,
}

/// The gradient projection.
#[derive(Debug, Clone, Copy)]
pub struct GradientProjection;

impl IntoMOCWord for UniversalConstant {
    type Output = MOCWordSimulator;

    fn to_mocword(&self) -> (r: Result<MOCWordSimulator, CompileError>)
        ensures
            r matches Ok(w) && w == MOCWordSimulator::Atom(2),
    {
        Ok(MOCWordSimulator::Atom(2))
    }
}

impl IntoMOCWord for DynamicOperator {
    type Output = MOCWordSimulator;

    fn to_mocword(&self) -> (r: Result<MOCWordSimulator, CompileError>)
        ensures
            r matches Ok(w) && w == MOCWordSimulator::Atom(3),
    {
        Ok(MOCWordSimulator::Atom(3))
    }
}

impl IntoMOCWord for MultiplicityFunction {
    type Output = MOCWordSimulator;

    fn to_mocword(&self) -> (r: Result<MOCWordSimulator, CompileError>)
        ensures
            r matches Ok(w) && w == MOCWordSimulator::Atom(self.prime),
    {
        Ok(MOCWordSimulator::Atom(self.prime))
    }
}

impl IntoMOCWord for GradientProjection {
    type Output = MOCWordSimulator;

    /// The corrective (revoke) action, prime 19.
    fn to_mocword(&self) -> (r: Result<MOCWordSimulator, CompileError>)
        ensures
            r matches Ok(w) && w == MOCWordSimulator::Atom(19),
    {
        Ok(MOCWordSimulator::Atom(19))
    }
}

} // verus!
