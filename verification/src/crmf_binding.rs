//! CRMF binding: ties proof artifacts to runtime telemetry through witnesses, bounded
//! model checking results and an audit log.
use vstd::prelude::*;
use crate::clock::timestamp_now;
use crate::decimal::{decimal, push_decimal};
use crate::digest::{hex_lower, sha256_of, sha256_hex};
use crate::ofa::{
    Big, RatInterval, Term, json_bool, json_interval, json_string, json_term, push_bool, push_interval,
    push_json_string,
};

verus! {

/// The digest, as lower-case hex, of the UTF-8 bytes of `text`.
pub open spec fn digest_of(text: Seq<char>) -> Seq<char> {
    hex_lower(sha256_of(vstd::utf8::encode_utf8(text)))
}

/// Deterministic witness binding for CRMF telemetry.
#[derive(Debug, PartialEq, Eq)]
pub struct CrmfWitness {
    pub witness_id: String,
    pub term: Term,
    pub interval: RatInterval,
    pub dimension: usize,
    pub contraction_coefficient: RatInterval,
    pub verified: bool,
}

/// Result of a bounded model checking harness.
#[derive(Debug, Clone, PartialEq, Eq)]
pub struct KaniResult {
    pub harness_name: String,
    pub passed: bool,
    pub dimension: usize,
    pub bound: RatInterval,
    pub counterexample: Option<String>,
}

/// Single audit log entry.
#[derive(Debug, Clone, PartialEq, Eq)]
pub struct AuditEntry {
    pub timestamp: String,
    pub event: String,
    pub witness_id: String,
    pub governor: String,
    pub hash: String,
}

/// CRMF binding: maps proof artifacts to runtime telemetry.
#[derive(Debug)]
pub struct CrmfBinding {
    pub contract_id: String,
    pub witnesses: Vec<CrmfWitness>,
    pub kani_results: Vec<KaniResult>,
    pub audit_log: Vec<AuditEntry>,
}

impl CrmfWitness {
    /// A fresh, unverified witness whose id is the digest of the term's JSON text.
    pub fn new(term: Term, interval: RatInterval, dimension: usize, contraction_coefficient: RatInterval) -> (w:
        CrmfWitness)
        ensures
            w.witness_id@ == digest_of(json_term(term)),
            w.term == term,
            w.interval == interval,
            w.dimension == dimension,
            w.contraction_coefficient == contraction_coefficient,
            !w.verified,
    {
        let witness_id = term.hash();
        CrmfWitness { witness_id, term, interval, dimension, contraction_coefficient, verified: false }
    }

    /// Marks the witness verified exactly when the result passed within its dimension.
    pub fn verify(&mut self, kani_result: &KaniResult) -> (r: bool)
        ensures
            r == (kani_result.passed && kani_result.dimension <= old(self).dimension),
            *final(self) == (CrmfWitness { verified: r, ..*old(self) }),
    {
        self.verified = kani_result.passed && kani_result.dimension <= self.dimension;
        self.verified
    }
}

impl KaniResult {
    /// A passing result.
    pub fn pass(harness_name: String, dimension: usize, bound: RatInterval) -> (r: KaniResult)
        ensures
            r == (KaniResult { harness_name, passed: true, dimension, bound, counterexample: None }),
    {
        KaniResult { harness_name, passed: true, dimension, bound, counterexample: None }
    }

    /// A failing result with its counterexample; the bound is the point `0/1`.
    pub fn fail(harness_name: String, dimension: usize, counterexample: String) -> (r: KaniResult)
        ensures
            r.harness_name == harness_name,
            !r.passed,
            r.dimension == dimension,
            r.bound.view_ints() == (0int, 0int, 1int),
            r.counterexample == Some(counterexample),
    {
        let bound = RatInterval::singleton(Big::from_i64(0), Big::from_i64(1));
        KaniResult { harness_name, passed: false, dimension, bound, counterexample: Some(counterexample) }
    }
}

pub open spec fn json_option_string(o: Option<String>) -> Seq<char> {
    match o {
        Some(s) => json_string(s@),
        None => seq!['n', 'u', 'l', 'l'],
    }
}

/// A result as serde_json writes it.
pub open spec fn json_kani(r: KaniResult) -> Seq<char> {
    "{\"harness_name\":"@ + json_string(r.harness_name@) + ",\"passed\":"@ + json_bool(r.passed)
        + ",\"dimension\":"@ + decimal(r.dimension as nat) + ",\"bound\":"@ + json_interval(r.bound)
        + ",\"counterexample\":"@ + json_option_string(r.counterexample) + seq!['}']
}

fn kani_json(r: &KaniResult) -> (s: String)
    ensures
        s@ == json_kani(*r),
{
    let mut out = String::new();
    out.append("{\"harness_name\":");
    push_json_string(&mut out, &r.harness_name);
    out.append(",\"passed\":");
    push_bool(&mut out, r.passed);
    out.append(",\"dimension\":");
    push_decimal(&mut out, r.dimension as u64);
    out.append(",\"bound\":");
    push_interval(&mut out, &r.bound);
    out.append(",\"counterexample\":");
    proof {
        reveal_strlit("null");
        reveal_strlit("}");
    }
    match &r.counterexample {
        Some(c) => push_json_string(&mut out, c),
        None => out.append("null"),
    }
    out.append("}");
    assert(out@ =~= json_kani(*r));
    out
}

/// The first passing result named `id` at or after position `k`.
pub open spec fn first_pass(results: Seq<KaniResult>, id: Seq<char>, k: int) -> Option<KaniResult>
    decreases results.len() - k,
{
    if k < 0 || k >= results.len() {
        None
    } else if results[k].harness_name@ == id && results[k].passed {
        Some(results[k])
    } else {
        first_pass(results, id, k + 1)
    }
}

/// Whether `w` is verified once checked against `results`: against the first passing
/// result named by its id, if there is one; otherwise as it was.
pub open spec fn verified_after(w: CrmfWitness, results: Seq<KaniResult>) -> bool {
    match first_pass(results, w.witness_id@, 0) {
        Some(r) => r.dimension <= w.dimension,
        None => w.verified,
    }
}

pub open spec fn all_verified(ws: Seq<CrmfWitness>) -> bool {
    forall|i: int| 0 <= i < ws.len() ==> (#[trigger] ws[i]).verified
}

pub open spec fn all_passed(rs: Seq<KaniResult>) -> bool {
    forall|i: int| 0 <= i < rs.len() ==> (#[trigger] rs[i]).passed
}

/// Whether the log entry stamps an event at some Unix second.
pub open spec fn stamped(e: AuditEntry) -> bool {
    exists|secs: u64| e.timestamp@ == decimal(secs as nat)
}

impl CrmfBinding {
    /// An empty binding for `contract_id`.
    pub fn new(contract_id: String) -> (b: CrmfBinding)
        ensures
            b.contract_id == contract_id,
            b.witnesses@.len() == 0,
            b.kani_results@.len() == 0,
            b.audit_log@.len() == 0,
    {
        CrmfBinding { contract_id, witnesses: Vec::new(), kani_results: Vec::new(), audit_log: Vec::new() }
    }

    /// Logs and records a witness.
    pub fn add_witness(&mut self, witness: CrmfWitness)
        ensures
            final(self).contract_id == old(self).contract_id,
            final(self).witnesses@ == old(self).witnesses@.push(witness),
            final(self).kani_results@ == old(self).kani_results@,
            final(self).audit_log@.len() == old(self).audit_log@.len() + 1,
            final(self).audit_log@.drop_last() == old(self).audit_log@,
            ({
                let e = final(self).audit_log@.last();
                &&& e.event@ == "witness_added"@
                &&& e.witness_id@ == witness.witness_id@
                &&& e.governor@ == "system"@
                &&& e.hash@ == digest_of(json_term(witness.term))
                &&& stamped(e)
            }),
    {
        let entry = AuditEntry {
            timestamp: timestamp_now(),
            event: String::from_str("witness_added"),
            witness_id: witness.witness_id.clone(),
            governor: String::from_str("system"),
            hash: witness.term.hash(),
        };
        self.audit_log.push(entry);
        self.witnesses.push(witness);
        assert(self.audit_log@.drop_last() =~= old(self).audit_log@);
    }

    /// Logs and records a model checking result.
    pub fn add_kani_result(&mut self, result: KaniResult)
        ensures
            final(self).contract_id == old(self).contract_id,
            final(self).witnesses@ == old(self).witnesses@,
            final(self).kani_results@ == old(self).kani_results@.push(result),
            final(self).audit_log@.len() == old(self).audit_log@.len() + 1,
            final(self).audit_log@.drop_last() == old(self).audit_log@,
            ({
                let e = final(self).audit_log@.last();
                &&& e.event@ == "kani_result"@
                &&& e.witness_id@ == result.harness_name@
                &&& e.governor@ == "kani"@
                &&& e.hash@ == digest_of(json_kani(result))
                &&& stamped(e)
            }),
    {
        let j = kani_json(&result);
        let entry = AuditEntry {
            timestamp: timestamp_now(),
            event: String::from_str("kani_result"),
            witness_id: result.harness_name.clone(),
            governor: String::from_str("kani"),
            hash: sha256_hex(j.as_str().as_bytes()),
        };
        self.audit_log.push(entry);
        self.kani_results.push(result);
        assert(self.audit_log@.drop_last() =~= old(self).audit_log@);
    }

    /// Checks each witness against the first passing result named by its id, then says
    /// whether every witness is verified.
    pub fn verify_all(&mut self) -> (r: bool)
        ensures
            final(self).contract_id == old(self).contract_id,
            final(self).kani_results@ == old(self).kani_results@,
            final(self).audit_log@ == old(self).audit_log@,
            final(self).witnesses@.len() == old(self).witnesses@.len(),
            forall|i: int|
                0 <= i < old(self).witnesses@.len() ==> #[trigger] final(self).witnesses@[i] == (CrmfWitness {
                    verified: verified_after(old(self).witnesses@[i], old(self).kani_results@),
                    ..old(self).witnesses@[i]
                }),
            r == all_verified(final(self).witnesses@),
    {
        let n = self.witnesses.len();
        let mut i: usize = 0;
        while i < n
            invariant
                n == old(self).witnesses@.len(),
                i <= n,
                self.contract_id == old(self).contract_id,
                self.kani_results@ == old(self).kani_results@,
                self.audit_log@ == old(self).audit_log@,
                self.witnesses@.len() == n,
                forall|k: int|
                    0 <= k < i ==> #[trigger] self.witnesses@[k] == (CrmfWitness {
                        verified: verified_after(old(self).witnesses@[k], old(self).kani_results@),
                        ..old(self).witnesses@[k]
                    }),
                forall|k: int| i <= k < n ==> #[trigger] self.witnesses@[k] == old(self).witnesses@[k],
            decreases n - i,
        {
            let mut found: Option<usize> = None;
            let mut j: usize = 0;
            while j < self.kani_results.len()
                invariant
                    j <= self.kani_results@.len(),
                    i < self.witnesses@.len(),
                    found matches Some(f) ==> f < self.kani_results@.len() && first_pass(
                        self.kani_results@,
                        self.witnesses@[i as int].witness_id@,
                        0,
                    ) == Some(self.kani_results@[f as int]),
                    found is None ==> first_pass(self.kani_results@, self.witnesses@[i as int].witness_id@, 0)
                        == first_pass(self.kani_results@, self.witnesses@[i as int].witness_id@, j as int),
                    found is Some ==> j == self.kani_results@.len(),
                    found matches Some(f) ==> self.kani_results@[f as int].passed,
                decreases self.kani_results@.len() - j,
            {
                if self.kani_results[j].harness_name == self.witnesses[i].witness_id
                    && self.kani_results[j].passed {
                    proof {
                        assert(first_pass(self.kani_results@, self.witnesses@[i as int].witness_id@, j as int) == Some(
                            self.kani_results@[j as int],
                        ));
                    }
                    found = Some(j);
                    j = self.kani_results.len();
                } else {
                    j += 1;
                }
            }
            let ghost before = self.witnesses@;
            if let Some(f) = found {
                let mut w = self.witnesses.remove(i);
                w.verify(&self.kani_results[f]);
                self.witnesses.insert(i, w);
                assert(self.witnesses@ =~= before.update(i as int, w));
            }
            proof {
                assert(self.witnesses@[i as int] == (CrmfWitness {
                    verified: verified_after(old(self).witnesses@[i as int], old(self).kani_results@),
                    ..old(self).witnesses@[i as int]
                }));
            }
            i += 1;
        }
        self.all_witnesses_verified()
    }

    fn all_witnesses_verified(&self) -> (r: bool)
        ensures
            r == all_verified(self.witnesses@),
    {
        let mut i: usize = 0;
        while i < self.witnesses.len()
            invariant
                i <= self.witnesses@.len(),
                forall|k: int| 0 <= k < i ==> (#[trigger] self.witnesses@[k]).verified,
            decreases self.witnesses@.len() - i,
        {
            if !self.witnesses[i].verified {
                return false;
            }
            i += 1;
        }
        true
    }

    /// Whether every witness is verified and every result passed.
    pub fn is_drift_free(&self) -> (r: bool)
        ensures
            r == (all_verified(self.witnesses@) && all_passed(self.kani_results@)),
    {
        if !self.all_witnesses_verified() {
            return false;
        }
        let mut i: usize = 0;
        while i < self.kani_results.len()
            invariant
                i <= self.kani_results@.len(),
                forall|k: int| 0 <= k < i ==> (#[trigger] self.kani_results@[k]).passed,
            decreases self.kani_results@.len() - i,
        {
            if !self.kani_results[i].passed {
                return false;
            }
            i += 1;
        }
        true
    }

    /// The kill signal when the binding has drifted, naming the contract.
    pub fn trigger_gov_kill(&self) -> (r: Option<String>)
        ensures
            r is None <==> (all_verified(self.witnesses@) && all_passed(self.kani_results@)),
            r matches Some(s) ==> s@ == "SIG_GOV_KILL: drift detected in contract "@ + self.contract_id@,
    {
        if !self.is_drift_free() {
            let mut s = String::from_str("SIG_GOV_KILL: drift detected in contract ");
            s.append(self.contract_id.as_str());
            Some(s)
        } else {
            None
        }
    }
}

} // verus!
