use vstd::prelude::*;
use crate::decimal::{decimal, push_decimal};

verus! {

/// Schema identifier of the Harmonia first-contact artifact.
pub const HARMONIA_SCHEMA_VERSION: &'static str = "ri1-pirtm-contact-0.1";

/// Provenance of a contact artifact.
#[derive(Debug, Clone, PartialEq, Eq)]
pub struct HarmoniaProvenance {
    pub source_system: String,
    pub grammar_version: String,
    pub created_at: String,
}

/// The first-contact artifact: a symbol-to-prime map and a sparse exponent state, each an
/// association list sorted by symbol.
#[derive(Debug, Clone, PartialEq, Eq)]
pub struct HarmoniaContactArtifact {
    pub schema: String,
    pub symbol_map: Vec<(String, u64)>,
    pub state: Vec<(String, u64)>,
    pub prime_signature: String,
    pub provenance: HarmoniaProvenance,
}

/// `b` to the power `e`, over the naturals.
pub open spec fn npow(b: nat, e: nat) -> nat
    decreases e,
{
    if e == 0 {
        1
    } else {
        b * npow(b, (e - 1) as nat)
    }
}

/// Value bound to `sym`, first binding first.
pub open spec fn lookup_sym(m: Seq<(String, u64)>, sym: Seq<char>) -> Option<u64>
    decreases m.len(),
{
    if m.len() == 0 {
        None
    } else if m[0].0@ == sym {
        Some(m[0].1)
    } else {
        lookup_sym(m.subrange(1, m.len() as int), sym)
    }
}

/// `∏ p_i^(k_i)` over the state's symbols that the symbol map knows.
pub open spec fn state_product(symbols: Seq<(String, u64)>, state: Seq<(String, u64)>) -> nat
    decreases state.len(),
{
    if state.len() == 0 {
        1
    } else {
        state_product(symbols, state.drop_last()) * match lookup_sym(symbols, state.last().0@) {
            Some(p) => npow(p as nat, state.last().1 as nat),
            None => 1,
        }
    }
}

pub open spec fn saturate(x: nat) -> u128 {
    if x > u128::MAX {
        u128::MAX
    } else {
        x as u128
    }
}

pub open spec fn phi_pi_epsilon_signature(phi: u64, pi: u64, eps: u64) -> Seq<char> {
    "2^"@ + decimal(phi as nat) + " * 3^"@ + decimal(pi as nat) + " * 5^"@ + decimal(eps as nat)
}

fn text(s: &str) -> (r: String)
    ensures
        r@ == s@,
{
    s.to_owned()
}

impl Default for HarmoniaProvenance {
    /// The provenance of artifacts produced by this system.
    fn default() -> (p: Self)
        ensures
            p.source_system@ == "PhiPiEpsilon"@,
            p.grammar_version@ == "0.1"@,
            p.created_at@ == "2026-08-31"@,
    {
        Self { source_system: text("PhiPiEpsilon"), grammar_version: text("0.1"), created_at: text("2026-08-31") }
    }
}

proof fn lemma_saturate_step(x: nat, p: nat)
    ensures
        saturate(saturate(x) as nat * p) == saturate(x * p),
{
    if x > u128::MAX {
        if p == 0 {
            assert(x * p == 0) by (nonlinear_arith)
                requires
                    p == 0,
            ;
            assert(saturate(x) as nat * p == 0) by (nonlinear_arith)
                requires
                    p == 0,
            ;
        } else {
            assert(x * p >= x) by (nonlinear_arith)
                requires
                    p >= 1,
            ;
            assert(u128::MAX as nat * p >= u128::MAX) by (nonlinear_arith)
                requires
                    p >= 1,
            ;
        }
    }
}

fn find_symbol(m: &Vec<(String, u64)>, sym: &String) -> (r: Option<u64>)
    ensures
        r == lookup_sym(m@, sym@),
{
    let mut i: usize = 0;
    assert(m@.subrange(0, m@.len() as int) =~= m@);
    while i < m.len()
        invariant
            0 <= i <= m@.len(),
            lookup_sym(m@, sym@) == lookup_sym(m@.subrange(i as int, m@.len() as int), sym@),
        decreases m.len() - i,
    {
        proof {
            let rest = m@.subrange(i as int, m@.len() as int);
            assert(rest.subrange(1, rest.len() as int) =~= m@.subrange(i + 1, m@.len() as int));
        }
        if m[i].0 == *sym {
            return Some(m[i].1);
        }
        i = i + 1;
    }
    None
}

impl HarmoniaContactArtifact {
    /// The standard Φπε state: Φ, π and ε bound to the primes 2, 3 and 5, with the given
    /// exponents.
    pub fn new_phi_pi_epsilon(phi_count: u64, pi_count: u64, eps_count: u64) -> (a: Self)
        ensures
            a.schema@ == HARMONIA_SCHEMA_VERSION@,
            a.symbol_map@.len() == 3,
            a.symbol_map@[0].0@ == "Epsilon"@ && a.symbol_map@[0].1 == 5,
            a.symbol_map@[1].0@ == "Phi"@ && a.symbol_map@[1].1 == 2,
            a.symbol_map@[2].0@ == "Pi"@ && a.symbol_map@[2].1 == 3,
            a.state@.len() == 3,
            a.state@[0].0@ == "Epsilon"@ && a.state@[0].1 == eps_count,
            a.state@[1].0@ == "Phi"@ && a.state@[1].1 == phi_count,
            a.state@[2].0@ == "Pi"@ && a.state@[2].1 == pi_count,
            a.prime_signature@ == phi_pi_epsilon_signature(phi_count, pi_count, eps_count),
            a.provenance.source_system@ == "PhiPiEpsilon"@,
            a.provenance.grammar_version@ == "0.1"@,
            a.provenance.created_at@ == "2026-08-31"@,
    {
        let mut symbol_map: Vec<(String, u64)> = Vec::new();
        symbol_map.push((text("Epsilon"), 5));
        symbol_map.push((text("Phi"), 2));
        symbol_map.push((text("Pi"), 3));
        let mut state: Vec<(String, u64)> = Vec::new();
        state.push((text("Epsilon"), eps_count));
        state.push((text("Phi"), phi_count));
        state.push((text("Pi"), pi_count));
        proof {
            reveal_strlit("2^");
            reveal_strlit(" * 3^");
            reveal_strlit(" * 5^");
        }
        let mut sig = text("2^");
        push_decimal(&mut sig, phi_count);
        sig.append(" * 3^");
        push_decimal(&mut sig, pi_count);
        sig.append(" * 5^");
        push_decimal(&mut sig, eps_count);
        Self {
            schema: text(HARMONIA_SCHEMA_VERSION),
            symbol_map,
            state,
            prime_signature: sig,
            provenance: HarmoniaProvenance::default(),
        }
    }

    /// `N = ∏ p_i^(k_i)` over the state's symbols known to the symbol map, saturating at
    /// `u128::MAX`.
    pub fn compute_multiplicity_number(&self) -> (n: u128)
        ensures
            n == saturate(state_product(self.symbol_map@, self.state@)),
    {
        let mut n: u128 = 1;
        let mut i: usize = 0;
        while i < self.state.len()
            invariant
                0 <= i <= self.state@.len(),
                n == saturate(state_product(self.symbol_map@, self.state@.take(i as int))),
            decreases self.state.len() - i,
        {
            let ghost before = state_product(self.symbol_map@, self.state@.take(i as int));
            proof {
                assert(self.state@.take(i + 1).drop_last() =~= self.state@.take(i as int));
            }
            let count = self.state[i].1;
            match find_symbol(&self.symbol_map, &self.state[i].0) {
                Some(p) => {
                    let mut c: u64 = 0;
                    while c < count
                        invariant
                            0 <= c <= count,
                            n == saturate(before * npow(p as nat, c as nat)),
                        decreases count - c,
                    {
                        proof {
                            lemma_saturate_step(before * npow(p as nat, c as nat), p as nat);
                            assert(before * npow(p as nat, c as nat) * (p as nat) == before * npow(
                                p as nat,
                                (c + 1) as nat,
                            )) by (nonlinear_arith)
                                requires
                                    npow(p as nat, (c + 1) as nat) == (p as nat) * npow(p as nat, c as nat),
                            ;
                        }
                        n = match n.checked_mul(p as u128) {
                            Some(v) => v,
                            None => 340282366920938463463374607431768211455u128,
                        };
                        c = c + 1;
                    }
                },
                None => {
                    assert(before * 1 == before);
                },
            }
            i = i + 1;
        }
        assert(self.state@.take(self.state@.len() as int) =~= self.state@);
        n
    }
}

} // verus!
