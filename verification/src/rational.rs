use vstd::prelude::*;
use std::cmp::Ordering;
use vstd::arithmetic::div_mod::{lemma_fundamental_div_mod, lemma_mod_multiples_basic, lemma_mod_self_0};
use vstd::arithmetic::mul::lemma_mul_is_commutative;
use crate::decimal::{decimal, push_decimal};

verus! {

/// Greatest common divisor by Euclid's algorithm (`gcd(a, 0) == a`).
pub open spec fn gcd(a: nat, b: nat) -> nat
    decreases b,
{
    if b == 0 {
        a
    } else {
        gcd(b, a % b)
    }
}

/// The gcd of two numbers that are not both zero is positive and divides both.
pub proof fn lemma_gcd_divides(a: nat, b: nat)
    requires
        a > 0 || b > 0,
    ensures
        gcd(a, b) > 0,
        a % gcd(a, b) == 0,
        b % gcd(a, b) == 0,
    decreases b,
{
    if b == 0 {
        lemma_mod_self_0(a as int);
    } else {
        lemma_gcd_divides(b, a % b);
        let g = gcd(b, a % b);
        let r = a % b;
        lemma_fundamental_div_mod(a as int, b as int);
        lemma_fundamental_div_mod(b as int, g as int);
        lemma_fundamental_div_mod(r as int, g as int);
        let k = (a / b) * (b / g) + r / g;
        assert(a == k * g) by (nonlinear_arith)
            requires
                a == b * (a / b) + r,
                b == g * (b / g) + 0,
                r == g * (r / g) + 0,
                k == (a / b) * (b / g) + r / g,
        ;
        lemma_mod_multiples_basic(k as int, g as int);
    }
}

/// Nonnegative rational `num/den`; the values built here are in lowest terms, `den >= 1`.
#[derive(Debug, Clone, Copy, PartialEq, Eq, Structural)]
pub struct PosRat {
    pub num: u64,
    pub den: u64,
}

/// Reasons a rational computation or an ensemble certification fails.
#[derive(Debug, Clone, Copy, PartialEq, Eq)]
pub enum EnsembleError {
    MissingTheoremAnchor,
    NormContractivityViolation { norm_1: (u64, u64) },
    InvalidRational,
    RationalOverflow,
    DimensionMismatch { matrix: usize, lambda: usize },
    MatrixNotSquare { row: usize, len: usize, expected: usize },
}

/// `num/den` reduced by the gcd of its terms; rejects a zero denominator and a reduced
/// term beyond `u64`.
pub open spec fn rat_from(num: nat, den: nat) -> Result<PosRat, EnsembleError> {
    if den == 0 {
        Err(EnsembleError::InvalidRational)
    } else {
        let g = gcd(num, den);
        if num / g > u64::MAX || den / g > u64::MAX {
            Err(EnsembleError::RationalOverflow)
        } else {
            Ok(PosRat { num: (num / g) as u64, den: (den / g) as u64 })
        }
    }
}

pub open spec fn rat_add(a: PosRat, b: PosRat) -> Result<PosRat, EnsembleError> {
    rat_from((a.num * b.den + b.num * a.den) as nat, (a.den * b.den) as nat)
}

pub open spec fn rat_mul(a: PosRat, b: PosRat) -> Result<PosRat, EnsembleError> {
    rat_from((a.num * b.num) as nat, (a.den * b.den) as nat)
}

/// The cross-multiplied sum of `add` fits in `u128`.
pub open spec fn add_fits(a: PosRat, b: PosRat) -> bool {
    a.num * b.den + b.num * a.den <= u128::MAX
}

/// Three-way comparison of `a` and `b` as fractions, by cross-multiplication.
pub open spec fn rat_order(a: PosRat, b: PosRat) -> Ordering {
    if a.num * b.den < b.num * a.den {
        Ordering::Less
    } else if a.num * b.den == b.num * a.den {
        Ordering::Equal
    } else {
        Ordering::Greater
    }
}

pub open spec fn error_text(e: EnsembleError) -> Seq<char> {
    match e {
        EnsembleError::MissingTheoremAnchor => "MissingTheoremAnchor: theorem_name is empty or missing"@,
        EnsembleError::NormContractivityViolation { norm_1 } => "NormContractivityViolation: ||G||_1 = "@
            + decimal(norm_1.0 as nat) + "/"@ + decimal(norm_1.1 as nat) + " >= 1"@,
        EnsembleError::InvalidRational => "InvalidRational: denominator must be >= 1 and value nonnegative"@,
        EnsembleError::RationalOverflow => "RationalOverflow: intermediate 1-norm exceeded u64 after reduction"@,
        EnsembleError::DimensionMismatch { matrix, lambda } => "Dimension mismatch: adjacency matrix is "@
            + decimal(matrix as nat) + "x"@ + decimal(matrix as nat) + ", but lambda vector has length "@
            + decimal(lambda as nat),
        EnsembleError::MatrixNotSquare { row, len, expected } => "Row "@ + decimal(row as nat)
            + " has length "@ + decimal(len as nat) + " instead of "@ + decimal(expected as nat),
    }
}

fn gcd_u128(a: u128, b: u128) -> (g: u128)
    ensures
        g == gcd(a as nat, b as nat),
{
    let mut x = a;
    let mut y = b;
    while y != 0
        invariant
            gcd(x as nat, y as nat) == gcd(a as nat, b as nat),
        decreases y,
    {
        let t = y;
        y = x % y;
        x = t;
    }
    x
}

fn wide(x: u64) -> (w: u128)
    ensures
        w == x,
{
    x as u128
}

fn narrow(x: u128) -> (n: u64)
    requires
        x <= u64::MAX,
    ensures
        n == x,
{
    x as u64
}

impl PosRat {
    pub open spec fn value_eq(self, num: int, den: int) -> bool {
        self.num * den == num * self.den
    }

    pub fn zero() -> (r: Self)
        ensures
            r == (PosRat { num: 0, den: 1 }),
    {
        Self { num: 0, den: 1 }
    }

    pub fn one() -> (r: Self)
        ensures
            r == (PosRat { num: 1, den: 1 }),
    {
        Self { num: 1, den: 1 }
    }

    /// `num/den` in lowest terms; a zero denominator is rejected.
    pub fn new(num: u64, den: u64) -> (r: Result<Self, EnsembleError>)
        ensures
            r == rat_from(num as nat, den as nat),
            r is Err <==> den == 0,
    {
        if den == 0 {
            return Err(EnsembleError::InvalidRational);
        }
        proof {
            lemma_gcd_divides(num as nat, den as nat);
            lemma_reduced_fits(num as nat, den as nat);
        }
        Ok(Self::reduce_u64(num, den))
    }

    fn reduce_u64(num: u64, den: u64) -> (r: Self)
        requires
            den > 0,
        ensures
            rat_from(num as nat, den as nat) == Ok::<PosRat, EnsembleError>(r),
    {
        let g128 = gcd_u128(wide(num), wide(den));
        proof {
            lemma_gcd_divides(num as nat, den as nat);
            lemma_reduced_fits(num as nat, den as nat);
        }
        let g = narrow(g128);
        Self { num: num / g, den: den / g }
    }

    fn from_u128(num: u128, den: u128) -> (r: Result<Self, EnsembleError>)
        ensures
            r == rat_from(num as nat, den as nat),
    {
        if den == 0 {
            return Err(EnsembleError::InvalidRational);
        }
        let g = gcd_u128(num, den);
        proof {
            lemma_gcd_divides(num as nat, den as nat);
        }
        let n = num / g;
        let d = den / g;
        if n > 18446744073709551615u128 || d > 18446744073709551615u128 {
            return Err(EnsembleError::RationalOverflow);
        }
        Ok(Self { num: narrow(n), den: narrow(d) })
    }

    /// Sum of two rationals, reduced.
    pub fn add(self, other: Self) -> (r: Result<Self, EnsembleError>)
        requires
            add_fits(self, other),
        ensures
            r == rat_add(self, other),
    {
        proof {
            assert(self.num * other.den <= u64::MAX * u64::MAX) by (nonlinear_arith);
            assert(other.num * self.den <= u64::MAX * u64::MAX) by (nonlinear_arith);
            assert(self.den * other.den <= u64::MAX * u64::MAX) by (nonlinear_arith);
        }
        let a = wide(self.num) * wide(other.den);
        let b = wide(other.num) * wide(self.den);
        Self::from_u128(a + b, wide(self.den) * wide(other.den))
    }

    /// Product of two rationals, reduced.
    pub fn mul(self, other: Self) -> (r: Result<Self, EnsembleError>)
        ensures
            r == rat_mul(self, other),
    {
        proof {
            assert(self.num * other.num <= u64::MAX * u64::MAX) by (nonlinear_arith);
            assert(self.den * other.den <= u64::MAX * u64::MAX) by (nonlinear_arith);
        }
        Self::from_u128(wide(self.num) * wide(other.num), wide(self.den) * wide(other.den))
    }

    /// Strictly below one.
    pub fn lt_one(self) -> (b: bool)
        ensures
            b == (self.num < self.den),
    {
        self.num < self.den
    }

    /// Three-way comparison as fractions.
    pub fn cmp_q(self, other: Self) -> (r: Ordering)
        ensures
            r == rat_order(self, other),
    {
        let (l, h) = cross_products(self, other);
        if l < h {
            Ordering::Less
        } else if l == h {
            Ordering::Equal
        } else {
            Ordering::Greater
        }
    }

    pub fn as_pair(self) -> (p: (u64, u64))
        ensures
            p == (self.num, self.den),
    {
        (self.num, self.den)
    }
}

fn cross_products(a: PosRat, b: PosRat) -> (p: (u128, u128))
    ensures
        p.0 == a.num * b.den,
        p.1 == b.num * a.den,
{
    proof {
        assert(a.num * b.den <= u64::MAX * u64::MAX) by (nonlinear_arith);
        assert(b.num * a.den <= u64::MAX * u64::MAX) by (nonlinear_arith);
    }
    (wide(a.num) * wide(b.den), wide(b.num) * wide(a.den))
}

proof fn lemma_reduced_fits(num: nat, den: nat)
    requires
        den > 0,
        num <= u64::MAX,
        den <= u64::MAX,
    ensures
        gcd(num, den) > 0,
        gcd(num, den) <= u64::MAX,
        num / gcd(num, den) <= num,
        den / gcd(num, den) <= den,
{
    lemma_gcd_divides(num, den);
    let g = gcd(num, den);
    lemma_fundamental_div_mod(den as int, g as int);
    assert(g <= den) by (nonlinear_arith)
        requires
            den == g * (den / g) + 0,
            den > 0,
            g > 0,
    ;
    assert(num / g <= num) by (nonlinear_arith)
        requires
            g > 0,
    ;
    assert(den / g <= den) by (nonlinear_arith)
        requires
            g > 0,
    ;
}

/// A rational built from `num/den` has the value `num/den`: its terms cross-multiply
/// to equality with `num` and `den`, and its denominator is positive.
pub proof fn law_rat_from_value(num: nat, den: nat)
    ensures
        rat_from(num, den) matches Ok(r) ==> r.den > 0 && r.value_eq(num as int, den as int),
{
    if den > 0 {
        lemma_gcd_divides(num, den);
        let g = gcd(num, den);
        lemma_fundamental_div_mod(num as int, g as int);
        lemma_fundamental_div_mod(den as int, g as int);
        let a = num / g;
        let b = den / g;
        assert(a * den == num * b) by (nonlinear_arith)
            requires
                num == g * a + 0,
                den == g * b + 0,
        ;
        assert(b > 0) by (nonlinear_arith)
            requires
                den == g * b + 0,
                den > 0,
                g > 0,
        ;
    }
}

/// Addition of rationals commutes, in its result and in when it fits.
pub proof fn law_add_commutative(a: PosRat, b: PosRat)
    ensures
        rat_add(a, b) == rat_add(b, a),
        add_fits(a, b) == add_fits(b, a),
{
    lemma_mul_is_commutative(a.den as int, b.den as int);
}

/// Multiplication of rationals commutes.
pub proof fn law_mul_commutative(a: PosRat, b: PosRat)
    ensures
        rat_mul(a, b) == rat_mul(b, a),
{
    lemma_mul_is_commutative(a.num as int, b.num as int);
    lemma_mul_is_commutative(a.den as int, b.den as int);
}

/// The sum of two rationals, where it is defined, has the value of their sum.
pub proof fn law_add_value(a: PosRat, b: PosRat)
    ensures
        rat_add(a, b) matches Ok(r) ==> r.value_eq(a.num * b.den + b.num * a.den, a.den * b.den),
{
    law_rat_from_value((a.num * b.den + b.num * a.den) as nat, (a.den * b.den) as nat);
}

/// The product of two rationals, where it is defined, has the value of their product.
pub proof fn law_mul_value(a: PosRat, b: PosRat)
    ensures
        rat_mul(a, b) matches Ok(r) ==> r.value_eq(a.num * b.num, a.den * b.den),
{
    law_rat_from_value((a.num * b.num) as nat, (a.den * b.den) as nat);
}

impl EnsembleError {
    /// Human-readable description of the error.
    pub fn message(&self) -> (s: String)
        ensures
            s@ == error_text(*self),
    {
        let mut s = String::new();
        match self {
            EnsembleError::MissingTheoremAnchor => {
                proof {
                    reveal_strlit("MissingTheoremAnchor: theorem_name is empty or missing");
                }
                s.append("MissingTheoremAnchor: theorem_name is empty or missing");
            },
            EnsembleError::NormContractivityViolation { norm_1 } => {
                proof {
                    reveal_strlit("NormContractivityViolation: ||G||_1 = ");
                    reveal_strlit("/");
                    reveal_strlit(" >= 1");
                }
                s.append("NormContractivityViolation: ||G||_1 = ");
                push_decimal(&mut s, norm_1.0);
                s.append("/");
                push_decimal(&mut s, norm_1.1);
                s.append(" >= 1");
            },
            EnsembleError::InvalidRational => {
                proof {
                    reveal_strlit("InvalidRational: denominator must be >= 1 and value nonnegative");
                }
                s.append("InvalidRational: denominator must be >= 1 and value nonnegative");
            },
            EnsembleError::RationalOverflow => {
                proof {
                    reveal_strlit("RationalOverflow: intermediate 1-norm exceeded u64 after reduction");
                }
                s.append("RationalOverflow: intermediate 1-norm exceeded u64 after reduction");
            },
            EnsembleError::DimensionMismatch { matrix, lambda } => {
                proof {
                    reveal_strlit("Dimension mismatch: adjacency matrix is ");
                    reveal_strlit("x");
                    reveal_strlit(", but lambda vector has length ");
                }
                s.append("Dimension mismatch: adjacency matrix is ");
                push_decimal(&mut s, *matrix as u64);
                s.append("x");
                push_decimal(&mut s, *matrix as u64);
                s.append(", but lambda vector has length ");
                push_decimal(&mut s, *lambda as u64);
            },
            EnsembleError::MatrixNotSquare { row, len, expected } => {
                proof {
                    reveal_strlit("Row ");
                    reveal_strlit(" has length ");
                    reveal_strlit(" instead of ");
                }
                s.append("Row ");
                push_decimal(&mut s, *row as u64);
                s.append(" has length ");
                push_decimal(&mut s, *len as u64);
                s.append(" instead of ");
                push_decimal(&mut s, *expected as u64);
            },
        }
        s
    }
}

} // verus!
