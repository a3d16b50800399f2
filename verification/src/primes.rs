use vstd::prelude::*;
use vstd::arithmetic::div_mod::{lemma_fundamental_div_mod, lemma_mod_multiples_basic};
use crate::decimal::{decimal, push_decimal};

verus! {

/// `n` is prime.
pub open spec fn is_prime(n: nat) -> bool {
    n >= 2 && forall|d: nat| 2 <= d < n ==> #[trigger] (n % d) != 0
}

/// The least divisor of `n` from `d` up whose square does not exceed `n`.
pub open spec fn first_divisor(n: nat, d: nat) -> Option<nat>
    decreases n + 1 - d,
{
    if d > n || d * d > n {
        None
    } else if n % d == 0 {
        Some(d)
    } else {
        first_divisor(n, d + 1)
    }
}

pub open spec fn not_prime_text(n: nat) -> Seq<char> {
    "prime_index "@ + decimal(n) + " is not a prime"@
}

pub open spec fn divisible_text(n: nat, d: nat) -> Seq<char> {
    "prime_index "@ + decimal(n) + " is not a prime (divisible by "@ + decimal(d) + ")"@
}

/// Verdict of the prime check on a prime index: below two, or the least divisor found
/// up to the square root.
pub open spec fn prime_verdict(n: nat) -> Result<(), Seq<char>> {
    if n < 2 {
        Err(not_prime_text(n))
    } else {
        match first_divisor(n, 2) {
            Some(d) => Err(divisible_text(n, d)),
            None => Ok(()),
        }
    }
}

/// Checks that `n` is prime; the error names `n` and, for a composite, its least divisor.
pub fn check_prime(n: u64) -> (r: Result<(), String>)
    ensures
        match prime_verdict(n as nat) {
            Ok(()) => r is Ok,
            Err(m) => r matches Err(s) && s@ == m,
        },
{
    if n < 2 {
        let mut s = String::new();
        proof {
            reveal_strlit("prime_index ");
            reveal_strlit(" is not a prime");
        }
        s.append("prime_index ");
        push_decimal(&mut s, n);
        s.append(" is not a prime");
        return Err(s);
    }
    let mut i: u64 = 2;
    while i <= n / i
        invariant
            2 <= i,
            i <= n,
            n >= 2,
            first_divisor(n as nat, 2) == first_divisor(n as nat, i as nat),
        decreases n - i,
    {
        proof {
            assert(i * i <= n) by (nonlinear_arith)
                requires
                    i <= n / i,
                    i > 0,
            ;
        }
        if n % i == 0 {
            let mut s = String::new();
            proof {
                reveal_strlit("prime_index ");
                reveal_strlit(" is not a prime (divisible by ");
                reveal_strlit(")");
            }
            s.append("prime_index ");
            push_decimal(&mut s, n);
            s.append(" is not a prime (divisible by ");
            push_decimal(&mut s, i);
            s.append(")");
            return Err(s);
        }
        proof {
            assert(i + 1 <= n) by (nonlinear_arith)
                requires
                    i * i <= n,
                    i >= 2,
            ;
        }
        i = i + 1;
    }
    proof {
        assert(i * i > n) by (nonlinear_arith)
            requires
                i > n / i,
                i > 0,
        ;
    }
    Ok(())
}

proof fn lemma_first_divisor_found(n: nat, k: nat)
    requires
        first_divisor(n, k) is Some,
    ensures
        ({
            let d = first_divisor(n, k)->0;
            k <= d && d * d <= n && n % d == 0 && d <= n
        }),
    decreases n + 1 - k,
{
    if !(k > n || k * k > n) && n % k != 0 {
        lemma_first_divisor_found(n, k + 1);
    }
}

proof fn lemma_first_divisor_none(n: nat, k: nat, j: nat)
    requires
        first_divisor(n, k) is None,
        k <= j,
        j * j <= n,
        j > 0,
    ensures
        n % j != 0,
    decreases n + 1 - k,
{
    assert(j <= n) by (nonlinear_arith)
        requires
            j * j <= n,
            j > 0,
    ;
    assert(k * k <= j * j) by (nonlinear_arith)
        requires
            k <= j,
    ;
    if k < j {
        lemma_first_divisor_none(n, k + 1, j);
    }
}

/// The prime check accepts exactly the primes.
pub proof fn law_prime_verdict_is_primality(n: nat)
    ensures
        prime_verdict(n) is Ok <==> is_prime(n),
{
    if n >= 2 {
        match first_divisor(n, 2) {
            Some(d) => {
                lemma_first_divisor_found(n, 2);
                assert(d < n) by (nonlinear_arith)
                    requires
                        d >= 2,
                        d * d <= n,
                ;
                assert(n % d == 0);
            },
            None => {
                assert forall|d: nat| 2 <= d < n implies #[trigger] (n % d) != 0 by {
                    if n % d == 0 {
                        lemma_fundamental_div_mod(n as int, d as int);
                        let q = n / d;
                        assert(n == d * q) by (nonlinear_arith)
                            requires
                                n == d * (n / d) + n % d,
                                n % d == 0,
                                q == n / d,
                        ;
                        assert(q >= 2) by (nonlinear_arith)
                            requires
                                n == d * q,
                                d < n,
                                d >= 2,
                        ;
                        if d <= q {
                            assert(d * d <= n) by (nonlinear_arith)
                                requires
                                    n == d * q,
                                    d <= q,
                                    d >= 0,
                            ;
                            lemma_first_divisor_none(n, 2, d);
                        } else {
                            assert(q * q <= n) by (nonlinear_arith)
                                requires
                                    n == d * q,
                                    q < d,
                                    q >= 0,
                            ;
                            lemma_mod_multiples_basic(d as int, q as int);
                            assert(n % q == 0) by (nonlinear_arith)
                                requires
                                    n == d * q,
                                    ((d as int) * (q as int)) % (q as int) == 0,
                            ;
                            lemma_first_divisor_none(n, 2, q);
                        }
                    }
                }
            },
        }
    }
}

} // verus!
