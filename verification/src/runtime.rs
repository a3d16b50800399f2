use vstd::prelude::*;
use crate::rational::error_text;
use crate::spectral::{certify_check, receipt_matches, validate_and_certify, Ensemble, EnsembleContractivityReceipt};

verus! {

/// How a compiled module is run.
#[derive(Debug)]
pub struct RuntimeConfig {
    pub dry_run: bool,
    pub jid_enabled: bool,
    pub ledger_enabled: bool,
    pub enforce_bounds: bool,
    pub input_args: Vec<String>,
}

impl Default for RuntimeConfig {
    fn default() -> (c: Self)
        ensures
            !c.dry_run && !c.jid_enabled && !c.ledger_enabled && !c.enforce_bounds && c.input_args@.len() == 0,
    {
        RuntimeConfig {
            dry_run: false,
            jid_enabled: false,
            ledger_enabled: false,
            enforce_bounds: false,
            input_args: Vec::new(),
        }
    }
}

/// Outcome of running a module.
#[derive(Debug)]
pub struct ExecutionReceipt {
    pub return_code: i32,
    pub stdout: String,
    pub stderr: String,
    pub contractivity_hash: String,
}

/// What a run does: simulate, or lower and execute the loaded module.
#[derive(Debug)]
pub enum RunPlan {
    /// A simulated run with the given output; the ledger hash is taken when `ledger` holds.
    DryRun { stdout: String, ledger: bool },
    /// Lower the module at `mlir_path` and execute it.
    Execute { mlir_path: String },
}

/// The governed runtime.
#[derive(Debug)]
pub struct Runtime {
    pub config: RuntimeConfig,
    pub mlir_path: Option<String>,
}

/// The words joined by single spaces.
pub open spec fn join_space(v: Seq<Seq<char>>) -> Seq<char>
    decreases v.len(),
{
    if v.len() == 0 {
        Seq::empty()
    } else if v.len() == 1 {
        v[0]
    } else {
        join_space(v.drop_last()) + " "@ + v.last()
    }
}

pub open spec fn dry_run_output(args: Seq<String>) -> Seq<char> {
    if args.len() == 0 {
        Seq::empty()
    } else {
        "Simulated output for input: "@ + join_space(args.map_values(|s: String| s@)) + "\n"@
    }
}

impl Runtime {
    pub fn new(config: RuntimeConfig) -> (r: Self)
        ensures
            r.config == config,
            r.loaded() is None,
    {
        Self { config, mlir_path: None }
    }

    /// The module path loaded last.
    pub open spec fn loaded(self) -> Option<Seq<char>> {
        match self.mlir_path {
            Some(p) => Some(p@),
            None => None,
        }
    }

    /// Loads the module at `mlir_path` for the next run.
    pub fn load(&mut self, mlir_path: &str) -> (r: Result<(), String>)
        ensures
            r is Ok,
            final(self).loaded() == Some(mlir_path@),
            final(self).config == old(self).config,
    {
        self.mlir_path = Some(mlir_path.to_owned());
        Ok(())
    }

    /// Decides how the next run proceeds: a dry run is simulated without a module; a real
    /// run needs a loaded module.
    pub fn run_plan(&self) -> (r: Result<RunPlan, String>)
        ensures
            self.config.dry_run ==> (r matches Ok(RunPlan::DryRun { stdout, ledger }) && stdout@ == dry_run_output(
                self.config.input_args@,
            ) && ledger == self.config.ledger_enabled),
            !self.config.dry_run && self.loaded() is None ==> (r matches Err(m) && m@ == "No module loaded"@),
            !self.config.dry_run && self.loaded() is Some ==> (r matches Ok(RunPlan::Execute { mlir_path })
                && Some(mlir_path@) == self.loaded()),
    {
        if self.config.dry_run {
            let args = &self.config.input_args;
            let mut out = String::new();
            if args.len() > 0 {
                proof {
                    reveal_strlit("Simulated output for input: ");
                    reveal_strlit(" ");
                    reveal_strlit("\n");
                }
                out.append("Simulated output for input: ");
                let ghost v = args@.map_values(|s: String| s@);
                let mut i: usize = 0;
                while i < args.len()
                    invariant
                        0 <= i <= args@.len(),
                        args@.len() > 0,
                        v == args@.map_values(|s: String| s@),
                        out@ == "Simulated output for input: "@ + join_space(v.take(i as int)),
                    decreases args.len() - i,
                {
                    proof {
                        assert(v.take(i + 1).drop_last() =~= v.take(i as int));
                        if i == 0 {
                            assert(v.take(1) =~= seq![v[0]]);
                            assert(v.take(0) =~= Seq::<Seq<char>>::empty());
                        }
                    }
                    if i > 0 {
                        out.append(" ");
                    }
                    out.append(args[i].as_str());
                    i = i + 1;
                }
                assert(v.take(args.len() as int) =~= v);
                out.append("\n");
            }
            return Ok(RunPlan::DryRun { stdout: out, ledger: self.config.ledger_enabled });
        }
        match &self.mlir_path {
            Some(p) => Ok(RunPlan::Execute { mlir_path: p.clone() }),
            None => {
                proof {
                    reveal_strlit("No module loaded");
                }
                Err("No module loaded".to_owned())
            },
        }
    }

    /// Certifies an ensemble under the exact 1-norm gate.
    pub fn validate_ensemble(&self, ensemble: &Ensemble) -> (r: Result<EnsembleContractivityReceipt, String>)
        requires
            certify_check(*ensemble) is Some,
        ensures
            match certify_check(*ensemble) {
                Some(Ok(n1)) => r matches Ok(rc) && receipt_matches(rc, *ensemble, n1, rc.timestamp),
                Some(Err(x)) => r matches Err(m) && m@ == error_text(x),
                None => false,
            },
    {
        validate_and_certify(ensemble)
    }
}

/// An HTTP response issued under governance.
#[derive(Debug)]
pub struct GovernedHttpResponse {
    pub status_code: u16,
    pub body: String,
    pub qmhes_tag: String,
    pub goldilocks_proof_receipt: String,
    pub sentinel_receipt: String,
}

/// An HTTP endpoint guarded by a certified ensemble.
#[derive(Debug)]
pub struct GovernedHttpServer {
    pub port: u16,
    pub ensemble: Ensemble,
}

impl GovernedHttpServer {
    pub fn new(port: u16, ensemble: Ensemble) -> (s: Self)
        ensures
            s.port == port,
            s.ensemble == ensemble,
    {
        Self { port, ensemble }
    }
}

/// State the daemon keeps across requests: its runtime and the number of open sessions.
#[derive(Debug)]
pub struct DaemonState {
    pub runtime: Runtime,
    pub session_count: usize,
}

} // verus!
