use vstd::prelude::*;
use p3_field::PrimeField64;
use p3_symmetric::Permutation;
use crate::goldilocks::{canonical, fv, modp, GoldilocksField, GOLDILOCKS_PRIME};

verus! {

/// The width-8 Poseidon2 permutation over the Goldilocks field with its default round
/// constants, on canonical words.
pub uninterp spec fn poseidon2_goldilocks_w8(state: Seq<u64>) -> Seq<u64>;

/// Calls `p3_goldilocks::default_goldilocks_poseidon2_8` and permutes the state with
/// `Permutation::permute_mut`. Claims that the result is the permutation named
/// `poseidon2_goldilocks_w8` of the input words, and that every output word is canonical
/// (below the prime), as `PrimeField64::as_canonical_u64` returns it.
#[verifier::external_body]
fn p3_permute(state: [u64; 8]) -> (r: [u64; 8])
    ensures
        r@ == poseidon2_goldilocks_w8(state@),
        forall|i: int| 0 <= i < 8 ==> #[trigger] r@[i] < GOLDILOCKS_PRIME,
{
    let mut s = p3_goldilocks::Goldilocks::new_array(state);
    p3_goldilocks::default_goldilocks_poseidon2_8().permute_mut(&mut s);
    s.map(|x| x.as_canonical_u64())
}

/// Width-8 Poseidon2 sponge state.
#[derive(Debug, Clone, Copy, PartialEq, Eq)]
pub struct Poseidon2Sponge {
    pub state: [GoldilocksField; 8],
}

/// Digest squeezed from a sponge.
#[derive(Debug, Clone, Copy, PartialEq, Eq)]
pub struct Poseidon2ProofReceipt {
    pub hash_output: [u64; 4],
}

/// The canonical words of a state.
pub open spec fn state_words(s: Seq<GoldilocksField>) -> Seq<u64> {
    s.map_values(|x: GoldilocksField| fv(x) as u64)
}

/// The state after one permutation.
pub open spec fn permuted(s: Seq<GoldilocksField>) -> Seq<GoldilocksField> {
    poseidon2_goldilocks_w8(state_words(s)).map_values(|w: u64| GoldilocksField(w))
}

/// The state after adding the first (up to four) inputs into the rate lanes.
pub open spec fn absorbed(s: Seq<GoldilocksField>, inputs: Seq<u64>) -> Seq<GoldilocksField> {
    Seq::new(
        8,
        |i: int|
            if i < 4 && i < inputs.len() {
                GoldilocksField(modp(fv(s[i]) as int + (inputs[i] % GOLDILOCKS_PRIME) as int) as u64)
            } else {
                s[i]
            },
    )
}

impl Default for Poseidon2Sponge {
    /// The all-zero state.
    fn default() -> (s: Self)
        ensures
            forall|i: int| 0 <= i < 8 ==> #[trigger] s.state@[i].0 == 0,
    {
        Self::new()
    }
}

impl Poseidon2Sponge {
    /// The all-zero state.
    pub fn new() -> (s: Self)
        ensures
            forall|i: int| 0 <= i < 8 ==> #[trigger] s.state@[i].0 == 0,
    {
        Self { state: [GoldilocksField(0); 8] }
    }

    /// Applies the permutation to the state.
    pub fn permute(&mut self)
        ensures
            final(self).state@ == permuted(old(self).state@),
            forall|i: int| 0 <= i < 8 ==> canonical(#[trigger] final(self).state@[i]),
    {
        let mut words = [0u64; 8];
        let mut i: usize = 0;
        while i < 8
            invariant
                0 <= i <= 8,
                words@.len() == 8,
                self.state == old(self).state,
                forall|k: int| 0 <= k < i ==> #[trigger] words@[k] == fv(self.state@[k]),
            decreases 8 - i,
        {
            words.set(i, self.state[i].to_canonical());
            i = i + 1;
        }
        assert(words@ =~= state_words(old(self).state@));
        let out = p3_permute(words);
        let mut j: usize = 0;
        while j < 8
            invariant
                0 <= j <= 8,
                out@ == poseidon2_goldilocks_w8(state_words(old(self).state@)),
                forall|k: int| 0 <= k < j ==> #[trigger] self.state@[k] == GoldilocksField(out@[k]),
                forall|k: int| 0 <= k < 8 ==> #[trigger] out@[k] < GOLDILOCKS_PRIME,
                self.state@.len() == 8,
            decreases 8 - j,
        {
            self.state.set(j, GoldilocksField::from_canonical(out[j]));
            j = j + 1;
        }
        assert(self.state@ =~= permuted(old(self).state@));
    }

    /// Adds up to four inputs into the rate lanes, then permutes.
    pub fn absorb(&mut self, inputs: &[u64])
        ensures
            final(self).state@ == permuted(absorbed(old(self).state@, inputs@)),
    {
        let mut i: usize = 0;
        while i < 4 && i < inputs.len()
            invariant
                0 <= i <= 4,
                i <= inputs@.len(),
                self.state@.len() == 8,
                forall|k: int| 0 <= k < 8 ==> (#[trigger] self.state@[k]) == if k < i {
                    absorbed(old(self).state@, inputs@)[k]
                } else {
                    old(self).state@[k]
                },
            decreases 4 - i,
        {
            let x = self.state[i].add(&GoldilocksField::new(inputs[i]));
            proof {
                vstd::arithmetic::div_mod::lemma_small_mod(
                    (inputs@[i as int] % GOLDILOCKS_PRIME) as nat,
                    GOLDILOCKS_PRIME as nat,
                );
            }
            self.state.set(i, x);
            i = i + 1;
        }
        assert(self.state@ =~= absorbed(old(self).state@, inputs@));
        self.permute();
    }

    /// Permutes, then reads the first four lanes.
    pub fn squeeze(&mut self) -> (r: Poseidon2ProofReceipt)
        ensures
            final(self).state@ == permuted(old(self).state@),
            r.hash_output@ == final(self).state@.take(4).map_values(|x: GoldilocksField| fv(x) as u64),
            forall|i: int| 0 <= i < 4 ==> #[trigger] r.hash_output@[i] < GOLDILOCKS_PRIME,
    {
        self.permute();
        let hash_output = [
            self.state[0].to_canonical(),
            self.state[1].to_canonical(),
            self.state[2].to_canonical(),
            self.state[3].to_canonical(),
        ];
        assert(hash_output@ =~= self.state@.take(4).map_values(|x: GoldilocksField| fv(x) as u64));
        Poseidon2ProofReceipt { hash_output }
    }

    /// Two-to-one compression: `left` and `right` fill the lanes, one permutation, the first
    /// four lanes out.
    pub fn compress(left: [u64; 4], right: [u64; 4]) -> (r: [u64; 4])
        ensures
            r@ == poseidon2_goldilocks_w8(
                (left@ + right@).map_values(|w: u64| w % GOLDILOCKS_PRIME),
            ).take(4),
            forall|i: int| 0 <= i < 4 ==> #[trigger] r@[i] < GOLDILOCKS_PRIME,
    {
        let mut sponge = Self::new();
        let mut i: usize = 0;
        while i < 4
            invariant
                0 <= i <= 4,
                sponge.state@.len() == 8,
                forall|k: int| 0 <= k < i ==> (#[trigger] sponge.state@[k]).0 == left@[k] % GOLDILOCKS_PRIME,
                forall|k: int| 0 <= k < i ==> (#[trigger] sponge.state@[k + 4]).0 == right@[k] % GOLDILOCKS_PRIME,
            decreases 4 - i,
        {
            sponge.state.set(i, GoldilocksField::new(left[i]));
            sponge.state.set(i + 4, GoldilocksField::new(right[i]));
            i = i + 1;
        }
        proof {
            assert forall|k: int| 0 <= k < 8 implies #[trigger] state_words(sponge.state@)[k] == (left@ + right@).map_values(
                |w: u64| w % GOLDILOCKS_PRIME,
            )[k] by {
                if k < 4 {
                    assert(sponge.state@[k].0 == left@[k] % GOLDILOCKS_PRIME);
                } else {
                    assert(sponge.state@[(k - 4) + 4].0 == right@[k - 4] % GOLDILOCKS_PRIME);
                }
                vstd::arithmetic::div_mod::lemma_small_mod(sponge.state@[k].0 as nat, GOLDILOCKS_PRIME as nat);
            }
            assert(state_words(sponge.state@) =~= (left@ + right@).map_values(|w: u64| w % GOLDILOCKS_PRIME));
        }
        sponge.permute();
        let out = [
            sponge.state[0].to_canonical(),
            sponge.state[1].to_canonical(),
            sponge.state[2].to_canonical(),
            sponge.state[3].to_canonical(),
        ];
        proof {
            let w = poseidon2_goldilocks_w8((left@ + right@).map_values(|w: u64| w % GOLDILOCKS_PRIME));
            assert(sponge.state@ == w.map_values(|x: u64| GoldilocksField(x)));
            assert(w.len() == 8);
            assert forall|k: int| 0 <= k < 4 implies out@[k] == #[trigger] w.take(4)[k] by {
                assert(sponge.state@[k] == GoldilocksField(w[k]));
                assert(canonical(sponge.state@[k]));
                vstd::arithmetic::div_mod::lemma_small_mod(w[k] as nat, GOLDILOCKS_PRIME as nat);
            }
            assert(out@ =~= w.take(4));
        }
        out
    }
}

/// Absorbing adds: before the permutation, each of the first (up to four) rate lanes holds
/// the field sum of its old value and the matching input, and every other lane keeps its
/// old value.
pub proof fn law_absorb_adds_into_rate(s: Seq<GoldilocksField>, inputs: Seq<u64>, i: int)
    requires
        s.len() == 8,
        0 <= i < 8,
    ensures
        i < 4 && i < inputs.len() ==> fv(absorbed(s, inputs)[i]) == (fv(s[i]) + inputs[i]) % (
        GOLDILOCKS_PRIME as int),
        !(i < 4 && i < inputs.len()) ==> absorbed(s, inputs)[i] == s[i],
{
    let p = GOLDILOCKS_PRIME as int;
    if i < 4 && i < inputs.len() {
        let a = fv(s[i]) as int;
        let b = inputs[i] as int;
        vstd::arithmetic::div_mod::lemma_small_mod(fv(s[i]), GOLDILOCKS_PRIME as nat);
        vstd::arithmetic::div_mod::lemma_add_mod_noop(a, b, p);
        let m = modp(a + (inputs[i] % GOLDILOCKS_PRIME) as int);
        assert(m == (a + b) % p);
        assert(m < GOLDILOCKS_PRIME);
        vstd::arithmetic::div_mod::lemma_small_mod(m, GOLDILOCKS_PRIME as nat);
        assert(absorbed(s, inputs)[i] == GoldilocksField(m as u64));
    }
}

} // verus!
