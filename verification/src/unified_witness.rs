use vstd::prelude::*;

verus! {

/// Frozen state of a failed compilation, the payload that recovery must co-sign. The ACE
/// deficit is held as the bit pattern of its `f64` value.
#[derive(Debug, Clone)]
pub struct UnifiedWitness {
    pub tensor_hash: String,
    pub compilation_timestamp: u64,
    pub ace_deficit_bits: u64,
}

impl UnifiedWitness {
    pub fn new(tensor_hash: String, compilation_timestamp: u64, ace_deficit_bits: u64) -> (w: Self)
        ensures
            w.tensor_hash == tensor_hash,
            w.compilation_timestamp == compilation_timestamp,
            w.ace_deficit_bits == ace_deficit_bits,
    {
        Self { tensor_hash, compilation_timestamp, ace_deficit_bits }
    }
}

/// Recovery approval: two independent signatures over the witness.
#[derive(Debug)]
pub struct DualSignatureRecovery {
    pub witness: UnifiedWitness,
    pub primary_signature: Option<String>,
    pub secondary_signature: Option<String>,
}

/// Reasons a recovery is refused, in the order they are checked.
pub open spec fn recovery_verdict(primary: Option<Seq<char>>, secondary: Option<Seq<char>>) -> Result<(), Seq<char>> {
    if primary is None {
        Err("Primary signature missing. Recovery aborted."@)
    } else if secondary is None {
        Err("Secondary signature missing. Recovery aborted."@)
    } else if primary == secondary {
        Err("Signatures must be cryptographically distinct (no self-dealing)."@)
    } else {
        Ok(())
    }
}

pub open spec fn sig_view(s: Option<String>) -> Option<Seq<char>> {
    match s {
        Some(x) => Some(x@),
        None => None,
    }
}

fn same_text(a: &String, b: &String) -> (r: bool)
    ensures
        r == (a@ == b@),
{
    *a == *b
}

impl DualSignatureRecovery {
    pub fn new(witness: UnifiedWitness) -> (r: Self)
        ensures
            r.witness == witness,
            r.primary_signature is None,
            r.secondary_signature is None,
    {
        Self { witness, primary_signature: None, secondary_signature: None }
    }

    pub fn attach_primary_signature(&mut self, sig: String)
        ensures
            final(self).primary_signature == Some(sig),
            final(self).secondary_signature == old(self).secondary_signature,
            final(self).witness == old(self).witness,
    {
        self.primary_signature = Some(sig);
    }

    pub fn attach_secondary_signature(&mut self, sig: String)
        ensures
            final(self).secondary_signature == Some(sig),
            final(self).primary_signature == old(self).primary_signature,
            final(self).witness == old(self).witness,
    {
        self.secondary_signature = Some(sig);
    }

    /// Both signatures must be present and distinct.
    pub fn verify_recovery(&self) -> (r: Result<(), &'static str>)
        ensures
            match recovery_verdict(sig_view(self.primary_signature), sig_view(self.secondary_signature)) {
                Ok(()) => r is Ok,
                Err(m) => r matches Err(s) && s@ == m,
            },
    {
        proof {
            reveal_strlit("Primary signature missing. Recovery aborted.");
            reveal_strlit("Secondary signature missing. Recovery aborted.");
            reveal_strlit("Signatures must be cryptographically distinct (no self-dealing).");
        }
        match (&self.primary_signature, &self.secondary_signature) {
            (None, _) => Err("Primary signature missing. Recovery aborted."),
            (Some(_), None) => Err("Secondary signature missing. Recovery aborted."),
            (Some(a), Some(b)) => {
                if same_text(a, b) {
                    Err("Signatures must be cryptographically distinct (no self-dealing).")
                } else {
                    Ok(())
                }
            },
        }
    }
}

/// The dual-signature mandate: a recovery is approved exactly when both signatures are
/// present and differ; with none, one, or two equal signatures it is refused.
pub proof fn law_dual_signature_mandate(primary: Option<Seq<char>>, secondary: Option<Seq<char>>)
    ensures
        recovery_verdict(primary, secondary) is Ok <==> (primary is Some && secondary is Some && primary != secondary),
{
}

} // verus!
