use vstd::prelude::*;

verus! {

/// Energy ledger of a pairing configuration: pairing energy against nuclear attraction.
#[derive(Debug, Clone, Copy, PartialEq, Eq)]
pub struct EnergyLedgerState {
    pub v_pair: u64,
    pub v_nuc: u64,
}

/// Total energy `v_pair - v_nuc`, as the executable code computes it in `i64`.
pub open spec fn total_energy(s: EnergyLedgerState) -> int {
    (s.v_pair as i64) as int - (s.v_nuc as i64) as int
}

impl EnergyLedgerState {
    pub fn new(v_pair: u64, v_nuc: u64) -> (s: Self)
        ensures
            s.v_pair == v_pair,
            s.v_nuc == v_nuc,
    {
        Self { v_pair, v_nuc }
    }

    /// `v_pair - v_nuc` with both operands reinterpreted as `i64`.
    pub fn calculate_total_energy(&self) -> (e: i64)
        requires
            i64::MIN <= total_energy(*self) <= i64::MAX,
        ensures
            e == total_energy(*self),
    {
        (self.v_pair as i64) - (self.v_nuc as i64)
    }

    /// Whether this configuration's energy is at most `other`'s.
    pub fn is_ground_state(&self, other: &EnergyLedgerState) -> (b: bool)
        requires
            i64::MIN <= total_energy(*self) <= i64::MAX,
            i64::MIN <= total_energy(*other) <= i64::MAX,
        ensures
            b == (total_energy(*self) <= total_energy(*other)),
    {
        self.calculate_total_energy() <= other.calculate_total_energy()
    }
}

/// Ground-state energy minimization: with the pairing energy fixed, a stronger nuclear
/// attraction never raises the energy, and both energies are computed without overflow.
pub proof fn law_ground_state_minimization(v_pair: u64, v_nuc1: u64, v_nuc2: u64)
    requires
        v_nuc1 <= v_nuc2,
        v_pair < i64::MAX,
        v_nuc2 < i64::MAX,
    ensures
        i64::MIN <= total_energy(EnergyLedgerState { v_pair, v_nuc: v_nuc1 }) <= i64::MAX,
        i64::MIN <= total_energy(EnergyLedgerState { v_pair, v_nuc: v_nuc2 }) <= i64::MAX,
        total_energy(EnergyLedgerState { v_pair, v_nuc: v_nuc2 }) <= total_energy(
            EnergyLedgerState { v_pair, v_nuc: v_nuc1 },
        ),
{
    assert(v_pair < 0x8000_0000_0000_0000u64 ==> (v_pair as i64) as int == v_pair as int) by (bit_vector);
    assert(v_nuc1 < 0x8000_0000_0000_0000u64 ==> (v_nuc1 as i64) as int == v_nuc1 as int) by (bit_vector);
    assert(v_nuc2 < 0x8000_0000_0000_0000u64 ==> (v_nuc2 as i64) as int == v_nuc2 as int) by (bit_vector);
}

} // verus!
