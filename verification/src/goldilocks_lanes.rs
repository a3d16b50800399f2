//! Goldilocks field arithmetic on packed lanes of two and four words.
use vstd::prelude::*;
use crate::goldilocks::{GoldilocksField, GOLDILOCKS_PRIME, fv, modp};

verus! {

/// The field element a raw lane word stands for.
pub open spec fn lane(x: u64) -> nat {
    fv(GoldilocksField(x))
}

/// Canonical lane-wise sum.
pub open spec fn lane_add(a: u64, b: u64) -> u64 {
    modp(lane(a) as int + lane(b) as int) as u64
}

/// Canonical lane-wise difference.
pub open spec fn lane_sub(a: u64, b: u64) -> u64 {
    modp(lane(a) - lane(b)) as u64
}

/// Canonical lane-wise product.
pub open spec fn lane_mul(a: u64, b: u64) -> u64 {
    modp(lane(a) as int * lane(b) as int) as u64
}

fn add_word(a: u64, b: u64) -> (r: u64)
    ensures
        r == lane_add(a, b),
        r < GOLDILOCKS_PRIME,
{
    GoldilocksField(a).add(&GoldilocksField(b)).0
}

fn sub_word(a: u64, b: u64) -> (r: u64)
    ensures
        r == lane_sub(a, b),
        r < GOLDILOCKS_PRIME,
{
    GoldilocksField(a).sub(&GoldilocksField(b)).0
}

fn mul_word(a: u64, b: u64) -> (r: u64)
    ensures
        r == lane_mul(a, b),
        r < GOLDILOCKS_PRIME,
{
    GoldilocksField(a).mul(&GoldilocksField(b)).0
}

/// Two Goldilocks lanes.
#[derive(Clone, Copy, Debug)]
pub struct SSEGoldilocks(pub [u64; 2]);

impl SSEGoldilocks {
    /// The two words as lanes.
    pub fn load(vals: &[u64; 2]) -> (r: Self)
        ensures
            r.0@ == vals@,
    {
        SSEGoldilocks([vals[0], vals[1]])
    }

    /// Writes the two lanes to `vals`.
    pub fn store(&self, vals: &mut [u64; 2])
        ensures
            final(vals)@ == self.0@,
    {
        vals[0] = self.0[0];
        vals[1] = self.0[1];
        assert(vals@ =~= self.0@);
    }

    /// Lane-wise field sum, canonical.
    pub fn add(a: Self, b: Self) -> (r: Self)
        ensures
            forall|i: int| 0 <= i < 2 ==> #[trigger] r.0@[i] == lane_add(a.0@[i], b.0@[i]),
    {
        SSEGoldilocks([add_word(a.0[0], b.0[0]), add_word(a.0[1], b.0[1])])
    }

    /// Lane-wise field difference, canonical.
    pub fn sub(a: Self, b: Self) -> (r: Self)
        ensures
            forall|i: int| 0 <= i < 2 ==> #[trigger] r.0@[i] == lane_sub(a.0@[i], b.0@[i]),
    {
        SSEGoldilocks([sub_word(a.0[0], b.0[0]), sub_word(a.0[1], b.0[1])])
    }

    /// Lane-wise field product, canonical.
    pub fn mul(a: Self, b: Self) -> (r: Self)
        ensures
            forall|i: int| 0 <= i < 2 ==> #[trigger] r.0@[i] == lane_mul(a.0@[i], b.0@[i]),
    {
        SSEGoldilocks([mul_word(a.0[0], b.0[0]), mul_word(a.0[1], b.0[1])])
    }

    /// Butterfly `(u, v) -> (u + v·ω, u - v·ω)`, lane-wise.
    pub fn butterfly(u: Self, v: Self, omega: Self) -> (r: (Self, Self))
        ensures
            forall|i: int|
                0 <= i < 2 ==> #[trigger] r.0.0@[i] == lane_add(u.0@[i], lane_mul(v.0@[i], omega.0@[i]))
                    && r.1.0@[i] == lane_sub(u.0@[i], lane_mul(v.0@[i], omega.0@[i])),
    {
        let t = Self::mul(v, omega);
        (Self::add(u, t), Self::sub(u, t))
    }
}

/// Four Goldilocks lanes.
#[derive(Clone, Copy, Debug)]
pub struct Avx2Goldilocks(pub [u64; 4]);

impl Avx2Goldilocks {
    /// The four words as lanes.
    pub fn load(vals: &[u64; 4]) -> (r: Self)
        ensures
            r.0@ == vals@,
    {
        let r = Avx2Goldilocks([vals[0], vals[1], vals[2], vals[3]]);
        assert(r.0@ =~= vals@);
        r
    }

    /// Writes the four lanes to `vals`.
    pub fn store(&self, vals: &mut [u64; 4])
        ensures
            final(vals)@ == self.0@,
    {
        vals[0] = self.0[0];
        vals[1] = self.0[1];
        vals[2] = self.0[2];
        vals[3] = self.0[3];
        assert(vals@ =~= self.0@);
    }

    /// Lane-wise field sum, canonical.
    pub fn add(a: Self, b: Self) -> (r: Self)
        ensures
            forall|i: int| 0 <= i < 4 ==> #[trigger] r.0@[i] == lane_add(a.0@[i], b.0@[i]),
    {
        Avx2Goldilocks(
            [
                add_word(a.0[0], b.0[0]),
                add_word(a.0[1], b.0[1]),
                add_word(a.0[2], b.0[2]),
                add_word(a.0[3], b.0[3]),
            ],
        )
    }

    /// Lane-wise field difference, canonical.
    pub fn sub(a: Self, b: Self) -> (r: Self)
        ensures
            forall|i: int| 0 <= i < 4 ==> #[trigger] r.0@[i] == lane_sub(a.0@[i], b.0@[i]),
    {
        Avx2Goldilocks(
            [
                sub_word(a.0[0], b.0[0]),
                sub_word(a.0[1], b.0[1]),
                sub_word(a.0[2], b.0[2]),
                sub_word(a.0[3], b.0[3]),
            ],
        )
    }

    /// Lane-wise field product, canonical.
    pub fn mul(a: Self, b: Self) -> (r: Self)
        ensures
            forall|i: int| 0 <= i < 4 ==> #[trigger] r.0@[i] == lane_mul(a.0@[i], b.0@[i]),
    {
        Avx2Goldilocks(
            [
                mul_word(a.0[0], b.0[0]),
                mul_word(a.0[1], b.0[1]),
                mul_word(a.0[2], b.0[2]),
                mul_word(a.0[3], b.0[3]),
            ],
        )
    }

    /// Butterfly `(u, v) -> (u + v·ω, u - v·ω)`, lane-wise.
    pub fn butterfly(u: Self, v: Self, omega: Self) -> (r: (Self, Self))
        ensures
            forall|i: int|
                0 <= i < 4 ==> #[trigger] r.0.0@[i] == lane_add(u.0@[i], lane_mul(v.0@[i], omega.0@[i]))
                    && r.1.0@[i] == lane_sub(u.0@[i], lane_mul(v.0@[i], omega.0@[i])),
    {
        let t = Self::mul(v, omega);
        (Self::add(u, t), Self::sub(u, t))
    }
}

} // verus!
