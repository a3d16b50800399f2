use vstd::prelude::*;

verus! {

/// Types of the phase B core, with the `Sig` multiplicity functor.
#[derive(Debug, PartialEq, Eq)]
pub enum Type {
    Unit,
    Bool,
    Int,
    Float,
    MultiplicityFunctor(Box<Type>),
    Function(Box<Type>, Box<Type>),
}

/// Rejections of the multiplicity functor.
#[derive(Debug, PartialEq, Eq)]
pub enum TypeError {
    Mismatch { expected: Type, found: Type },
    MultiplicityViolation(Type),
}

impl Type {
    /// A copy of the type.
    pub fn duplicate(&self) -> (t: Type)
        ensures
            t == *self,
        decreases self,
    {
        match self {
            Type::Unit => Type::Unit,
            Type::Bool => Type::Bool,
            Type::Int => Type::Int,
            Type::Float => Type::Float,
            Type::MultiplicityFunctor(inner) => Type::MultiplicityFunctor(Box::new(inner.duplicate())),
            Type::Function(a, b) => Type::Function(Box::new(a.duplicate()), Box::new(b.duplicate())),
        }
    }

    /// Structural equality.
    pub fn same_as(&self, other: &Type) -> (r: bool)
        ensures
            r == (*self == *other),
        decreases self,
    {
        match (self, other) {
            (Type::Unit, Type::Unit) => true,
            (Type::Bool, Type::Bool) => true,
            (Type::Int, Type::Int) => true,
            (Type::Float, Type::Float) => true,
            (Type::MultiplicityFunctor(a), Type::MultiplicityFunctor(b)) => a.same_as(b),
            (Type::Function(a1, b1), Type::Function(a2, b2)) => a1.same_as(a2) && b1.same_as(b2),
            _ => false,
        }
    }
}

/// The type under the functor, or a violation for a type outside it.
pub open spec fn sig_extract(t: Type) -> Result<Type, TypeError> {
    match t {
        Type::MultiplicityFunctor(inner) => Ok(*inner),
        _ => Err(TypeError::MultiplicityViolation(t)),
    }
}

/// Compatibility of two types under the functor.
pub open spec fn sig_compatible(t1: Type, t2: Type) -> Result<(), TypeError> {
    match (t1, t2) {
        (Type::MultiplicityFunctor(a), Type::MultiplicityFunctor(b)) => if a == b {
            Ok(())
        } else {
            Err(TypeError::Mismatch { expected: *a, found: *b })
        },
        _ => Err(TypeError::MultiplicityViolation(t1)),
    }
}

/// The `Sig` multiplicity functor, mapping `T` to `Sig<T>`.
#[derive(Debug, Clone, Copy)]
pub struct Sig;

impl Sig {
    /// Lifts a type into the functor.
    pub fn elevate(t: Type) -> (s: Type)
        ensures
            s == Type::MultiplicityFunctor(Box::new(t)),
    {
        Type::MultiplicityFunctor(Box::new(t))
    }

    /// The type under the functor, or a violation for a type outside it.
    pub fn extract(t: &Type) -> (r: Result<Type, TypeError>)
        ensures
            r == sig_extract(*t),
    {
        match t {
            Type::MultiplicityFunctor(inner) => Ok(inner.duplicate()),
            _ => Err(TypeError::MultiplicityViolation(t.duplicate())),
        }
    }

    /// Two functor types are compatible when their underlying types agree.
    pub fn verify_compatibility(t1: &Type, t2: &Type) -> (r: Result<(), TypeError>)
        ensures
            r == sig_compatible(*t1, *t2),
    {
        match (t1, t2) {
            (Type::MultiplicityFunctor(inner1), Type::MultiplicityFunctor(inner2)) => {
                if inner1.same_as(inner2) {
                    Ok(())
                } else {
                    Err(TypeError::Mismatch { expected: inner1.duplicate(), found: inner2.duplicate() })
                }
            },
            _ => Err(TypeError::MultiplicityViolation(t1.duplicate())),
        }
    }
}

/// Extracting from an elevated type gives back the type, and elevated types are
/// compatible exactly when their underlying types are equal.
pub proof fn law_extract_elevate(t: Type, u: Type)
    ensures
        sig_extract(Type::MultiplicityFunctor(Box::new(t))) == Ok::<Type, TypeError>(t),
        sig_compatible(Type::MultiplicityFunctor(Box::new(t)), Type::MultiplicityFunctor(Box::new(u))) is Ok
            <==> t == u,
{
}

} // verus!
