use vstd::prelude::*;
use vstd::arithmetic::div_mod::{lemma_mod_bound, lemma_mod_twice, lemma_mul_mod_noop_general, lemma_add_mod_noop};
use vstd::arithmetic::power::{pow, lemma_pow_adds, lemma_pow_multiplies, lemma_pow0, lemma_pow1};
use vstd::arithmetic::mul::{lemma_mul_is_associative, lemma_mul_is_commutative};

verus! {

/// The Goldilocks prime `2^64 - 2^32 + 1`.
pub const GOLDILOCKS_PRIME: u64 = 0xffff_ffff_0000_0001;

/// An element of the Goldilocks field, held as a `u64` and read modulo the prime.
#[derive(Debug, Clone, Copy, PartialEq, Eq, Structural)]
pub struct GoldilocksField(pub u64);

/// The field element that `x` stands for.
pub open spec fn fv(x: GoldilocksField) -> nat {
    (x.0 as nat) % (GOLDILOCKS_PRIME as nat)
}

pub open spec fn modp(x: int) -> nat {
    (x % (GOLDILOCKS_PRIME as int)) as nat
}

/// Canonical: the stored word is below the prime.
pub open spec fn canonical(x: GoldilocksField) -> bool {
    x.0 < GOLDILOCKS_PRIME
}

proof fn lemma_modp_basics(x: int)
    ensures
        0 <= x % (GOLDILOCKS_PRIME as int) < GOLDILOCKS_PRIME,
{
    lemma_mod_bound(x, GOLDILOCKS_PRIME as int);
}

impl GoldilocksField {
    /// The additive identity.
    pub fn zero() -> (x: Self)
        ensures
            x.0 == 0,
    {
        GoldilocksField(0)
    }

    /// The multiplicative identity.
    pub fn one() -> (x: Self)
        ensures
            x.0 == 1,
    {
        GoldilocksField(1)
    }

    /// The element `v mod p`, canonical.
    pub fn new(v: u64) -> (x: Self)
        ensures
            x.0 == v % GOLDILOCKS_PRIME,
            canonical(x),
    {
        GoldilocksField(v % GOLDILOCKS_PRIME)
    }

    /// Wraps a word that is already below the prime.
    pub fn from_canonical(v: u64) -> (x: Self)
        ensures
            x.0 == v,
    {
        GoldilocksField(v)
    }

    /// The canonical representative, below the prime.
    pub fn to_canonical(&self) -> (v: u64)
        ensures
            v == fv(*self),
            v < GOLDILOCKS_PRIME,
    {
        self.0 % GOLDILOCKS_PRIME
    }

    /// Field addition.
    pub fn add(&self, other: &Self) -> (r: Self)
        ensures
            r.0 == modp(fv(*self) as int + fv(*other) as int),
            canonical(r),
    {
        let a = (self.0 % GOLDILOCKS_PRIME) as u128;
        let b = (other.0 % GOLDILOCKS_PRIME) as u128;
        let s = (a + b) % (GOLDILOCKS_PRIME as u128);
        proof {
            lemma_modp_basics((a + b) as int);
        }
        GoldilocksField(s as u64)
    }

    /// Field subtraction.
    pub fn sub(&self, other: &Self) -> (r: Self)
        ensures
            r.0 == modp(fv(*self) - fv(*other)),
            canonical(r),
    {
        let a = (self.0 % GOLDILOCKS_PRIME) as u128;
        let b = (other.0 % GOLDILOCKS_PRIME) as u128;
        let s = (a + (GOLDILOCKS_PRIME as u128) - b) % (GOLDILOCKS_PRIME as u128);
        proof {
            let p = GOLDILOCKS_PRIME as int;
            lemma_modp_basics((a + p - b) as int);
            assert((a + p - b) % p == (a - b) % p) by {
                vstd::arithmetic::div_mod::lemma_mod_add_multiples_vanish((a - b) as int, p);
            }
        }
        GoldilocksField(s as u64)
    }

    /// Field multiplication.
    pub fn mul(&self, other: &Self) -> (r: Self)
        ensures
            r.0 == modp(fv(*self) as int * fv(*other) as int),
            canonical(r),
    {
        let a = (self.0 % GOLDILOCKS_PRIME) as u128;
        let b = (other.0 % GOLDILOCKS_PRIME) as u128;
        proof {
            assert(a * b <= (GOLDILOCKS_PRIME as int) * (GOLDILOCKS_PRIME as int)) by (nonlinear_arith)
                requires
                    a < GOLDILOCKS_PRIME,
                    b < GOLDILOCKS_PRIME,
            ;
        }
        let s = (a * b) % (GOLDILOCKS_PRIME as u128);
        proof {
            lemma_modp_basics((a * b) as int);
        }
        GoldilocksField(s as u64)
    }

    /// `self` raised to `exp`, by squaring and multiplying.
    pub fn pow(&self, exp: u64) -> (r: Self)
        ensures
            r.0 == modp(pow(fv(*self) as int, exp as nat)),
            canonical(r),
    {
        let ghost b0 = fv(*self) as int;
        let mut acc = GoldilocksField(1);
        let mut base = GoldilocksField(self.0 % GOLDILOCKS_PRIME);
        let mut e = exp;
        proof {
            lemma_pow0(b0);
            lemma_pow1(b0);
            assert(fv(base) == b0) by {
                lemma_mod_twice(self.0 as int, GOLDILOCKS_PRIME as int);
            }
            assert(fv(acc) == 1);
            assert(fv(acc) * pow(fv(base) as int, e as nat) == pow(b0, exp as nat));
        }
        while e > 0
            invariant
                canonical(acc),
                canonical(base),
                modp(pow(b0, exp as nat)) == modp(fv(acc) * pow(fv(base) as int, e as nat)),
            decreases e,
        {
            proof {
                lemma_step(fv(acc) as int, fv(base) as int, e as nat);
            }
            if e % 2 == 1 {
                acc = acc.mul(&base);
            }
            base = base.mul(&base);
            e = e / 2;
        }
        proof {
            lemma_pow0(fv(base) as int);
            assert(fv(acc) == acc.0) by {
                vstd::arithmetic::div_mod::lemma_small_mod(acc.0 as nat, GOLDILOCKS_PRIME as nat);
            }
        }
        acc
    }

    /// The multiplicative inverse by Fermat's little theorem, `self^(p-2)`; zero has none.
    pub fn inverse(&self) -> (r: Option<Self>)
        ensures
            fv(*self) == 0 ==> r is None,
            fv(*self) != 0 ==> (r matches Some(x) && x.0 == modp(
                pow(fv(*self) as int, (GOLDILOCKS_PRIME - 2) as nat),
            )),
    {
        if self.0 % GOLDILOCKS_PRIME == 0 {
            None
        } else {
            Some(self.pow(GOLDILOCKS_PRIME - 2))
        }
    }
}

/// One step of square-and-multiply keeps `acc * base^e` fixed modulo the prime.
proof fn lemma_step(acc: int, base: int, e: nat)
    requires
        e > 0,
        0 <= acc < GOLDILOCKS_PRIME,
        0 <= base < GOLDILOCKS_PRIME,
    ensures
        modp(acc * pow(base, e)) == modp(
            (if e % 2 == 1 {
                modp(acc * base) as int
            } else {
                acc
            }) * pow(modp(base * base) as int, e / 2),
        ),
{
    let p = GOLDILOCKS_PRIME as int;
    let h = (e / 2) as nat;
    lemma_pow_multiplies(base, 2, h);
    lemma_pow_adds(base, 1, 2 * h);
    vstd::arithmetic::power::lemma_square_is_pow2(base);
    lemma_pow1(base);
    assert(pow(base, 2) == base * base);
    lemma_pow_mod_noop(base * base, h);
    if e % 2 == 1 {
        assert(e == 2 * h + 1);
        assert(pow(base, e) == base * pow(pow(base, 2), h)) by {
            assert(pow(base, (1 + 2 * h) as nat) == pow(base, 1) * pow(base, (2 * h) as nat));
            assert(pow(base, (2 * h) as nat) == pow(pow(base, 2), h));
        }
        lemma_mul_is_associative(acc, base, pow(base * base, h));
        lemma_mul_mod_noop_general(acc * base, pow(base * base, h), p);
        lemma_mul_mod_noop_general(acc * base, pow(modp(base * base) as int, h), p);
    } else {
        assert(e == 2 * h);
        assert(pow(base, e) == pow(pow(base, 2), h));
        lemma_mul_mod_noop_general(acc, pow(base * base, h), p);
        lemma_mul_mod_noop_general(acc, pow(modp(base * base) as int, h), p);
    }
}

/// Raising to a power commutes with reduction modulo the prime.
proof fn lemma_pow_mod_noop(b: int, e: nat)
    ensures
        pow(b, e) % (GOLDILOCKS_PRIME as int) == pow(modp(b) as int, e) % (GOLDILOCKS_PRIME as int),
    decreases e,
{
    let p = GOLDILOCKS_PRIME as int;
    if e == 0 {
        lemma_pow0(b);
        lemma_pow0(modp(b) as int);
    } else {
        let mb = modp(b) as int;
        let e1 = (e - 1) as nat;
        lemma_pow_mod_noop(b, e1);
        lemma_mod_twice(b, p);
        lemma_modp_basics(b);
        reveal(pow);
        assert(pow(b, e) == b * pow(b, e1));
        assert(pow(mb, e) == mb * pow(mb, e1));
        lemma_mul_mod_noop_general(b, pow(b, e1), p);
        lemma_mul_mod_noop_general(mb, pow(mb, e1), p);
        assert(mb % p == b % p);
        assert(pow(b, e1) % p == pow(mb, e1) % p);
        assert((b * pow(b, e1)) % p == ((b % p) * (pow(b, e1) % p)) % p);
        assert((mb * pow(mb, e1)) % p == ((mb % p) * (pow(mb, e1) % p)) % p);
    }
}

/// Value of the polynomial with coefficients `cs` (lowest degree first) at `x`, over the
/// integers.
pub open spec fn poly_at(cs: Seq<GoldilocksField>, x: int) -> int
    decreases cs.len(),
{
    if cs.len() == 0 {
        0
    } else {
        fv(cs[0]) + x * poly_at(cs.drop_first(), x)
    }
}

proof fn lemma_horner_step(c: GoldilocksField, acc: nat, x: int, rest: int)
    requires
        acc == modp(rest),
        0 <= x,
    ensures
        modp(modp(acc as int * x) as int + fv(c) as int) == modp(fv(c) + x * rest),
{
    let p = GOLDILOCKS_PRIME as int;
    lemma_mul_is_commutative(acc as int, x);
    lemma_mul_mod_noop_general(rest, x, p);
    lemma_mod_twice(rest, p);
    lemma_mul_is_commutative(rest, x);
    lemma_add_mod_noop(acc as int * x, fv(c) as int, p);
    lemma_add_mod_noop(x * rest, fv(c) as int, p);
    lemma_mod_twice(acc as int * x, p);
    lemma_mod_twice(fv(c) as int, p);
    assert(fv(c) as int % p == fv(c) as int) by {
        vstd::arithmetic::div_mod::lemma_small_mod(fv(c), p as nat);
    }
}

/// Evaluates the polynomial with coefficients `coeffs` (lowest degree first) at `x`, by
/// Horner's rule.
pub fn eval_poly(coeffs: &[GoldilocksField], x: &GoldilocksField) -> (r: GoldilocksField)
    ensures
        fv(r) == modp(poly_at(coeffs@, fv(*x) as int)),
        coeffs@.len() == 1 ==> r == coeffs@[0],
        coeffs@.len() != 1 ==> canonical(r),
{
    let n = coeffs.len();
    if n == 0 {
        return GoldilocksField::zero();
    }
    let ghost xs = fv(*x) as int;
    let mut result = coeffs[n - 1];
    proof {
        let t = coeffs@.subrange(n - 1, n as int);
        assert(t.drop_first() =~= Seq::<GoldilocksField>::empty());
        assert(t[0] == coeffs@[n - 1]);
        assert(poly_at(t.drop_first(), xs) == 0);
        assert(poly_at(t, xs) == fv(coeffs@[n - 1]) + xs * 0);
        lemma_modp_basics(fv(coeffs@[n - 1]) as int);
        vstd::arithmetic::div_mod::lemma_small_mod(fv(coeffs@[n - 1]), GOLDILOCKS_PRIME as nat);
    }
    let mut i = n - 1;
    while i > 0
        invariant
            0 <= i < n,
            n == coeffs@.len(),
            xs == fv(*x) as int,
            fv(result) == modp(poly_at(coeffs@.subrange(i as int, n as int), xs)),
            i < n - 1 ==> canonical(result),
            i == n - 1 ==> result == coeffs@[n - 1],
        decreases i,
    {
        let ghost before = result;
        let ghost rest = poly_at(coeffs@.subrange(i as int, n as int), xs);
        result = result.mul(x).add(&coeffs[i - 1]);
        proof {
            let t = coeffs@.subrange(i - 1, n as int);
            assert(t.drop_first() =~= coeffs@.subrange(i as int, n as int));
            assert(t[0] == coeffs@[i - 1]);
            lemma_horner_step(coeffs@[i - 1], fv(before), xs, rest);
            assert(fv(before) * fv(*x) == fv(before) as int * xs);
            assert(fv(result) == result.0) by {
                vstd::arithmetic::div_mod::lemma_small_mod(result.0 as nat, GOLDILOCKS_PRIME as nat);
            }
        }
        i = i - 1;
    }
    proof {
        assert(coeffs@.subrange(0, n as int) =~= coeffs@);
    }
    result
}

} // verus!
