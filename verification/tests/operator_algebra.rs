use num_bigint::BigInt;
use pirtm::crmf_binding::{CrmfBinding, CrmfWitness, KaniResult};
use pirtm::ofa::{Big, Endomorphism, OpSymbol, RatInterval, Telemetry, Term, Witness};
use sha2::{Digest, Sha256};

fn big(v: i64) -> Big {
    Big::from_i64(v)
}

fn value(b: &Big) -> BigInt {
    BigInt::from_signed_bytes_le(&b.bytes)
}

fn var(name: &str) -> Term {
    Term::Var { name: name.to_string() }
}

fn op(name: &str, arity: usize) -> OpSymbol {
    OpSymbol { name: name.to_string(), arity, lip_bound: RatInterval::singleton(big(1), big(1)) }
}

fn sha_hex(text: &str) -> String {
    Sha256::digest(text.as_bytes()).iter().map(|b| format!("{:02x}", b)).collect()
}

#[test]
fn test_rat_interval_add() {
    let a = RatInterval::new(big(1), big(3), big(2));
    let b = RatInterval::new(big(2), big(4), big(3));
    let result = a.add(&b);
    assert_eq!(result.lower, big(7));
    assert_eq!(result.upper, big(17));
}

#[test]
fn test_term_depth() {
    let t = Term::App { op: op("test_op", 2), args: vec![var("x")] };
    assert_eq!(t.depth(), 1);
}

#[test]
fn test_endomorphism_contractive() {
    let e = Endomorphism::identity();
    assert!(e.is_contractive());
}

#[test]
fn big_arithmetic_is_exact() {
    let huge = RatInterval::new(big(i64::MAX), big(i64::MAX), big(1));
    let prod = huge.mul(&huge);
    let expected = BigInt::from(i64::MAX) * BigInt::from(i64::MAX);
    assert_eq!(value(&prod.lower), expected);
    assert_eq!(value(&prod.upper), expected);
    assert_eq!(value(&big(-1125)), BigInt::from(-1125));
    assert_eq!(big(-1125).bytes, vec![155, 251]);
}

#[test]
fn interval_product_takes_extreme_corners() {
    let a = RatInterval::new(big(-2), big(3), big(5));
    let b = RatInterval::new(big(-7), big(4), big(2));
    let p = a.mul(&b);
    // corners: 14, -8, -21, 12
    assert_eq!(p.lower, big(-21));
    assert_eq!(p.upper, big(14));
    assert_eq!(p.denominator, big(10));
}

#[test]
fn interval_width_and_contraction() {
    let a = RatInterval::new(big(1), big(4), big(2));
    assert_eq!(a.width(), big(3));
    assert!(a.is_contractive(&big(4)));
    assert!(!a.is_contractive(&big(3)));
    let s = RatInterval::singleton(big(5), big(7));
    assert_eq!(s.lower, s.upper);
    assert_eq!(s.width(), big(0));
}

#[test]
fn term_size_and_depth_count_nodes() {
    let inner = Term::App { op: op("g", 1), args: vec![var("y")] };
    let t = Term::App { op: op("f", 3), args: vec![var("x"), inner, Term::App { op: op("c", 0), args: vec![] }] };
    assert_eq!(t.size(), 5);
    assert_eq!(t.depth(), 2);
    assert_eq!(var("z").size(), 1);
    assert_eq!(var("z").depth(), 0);
}

#[test]
fn term_json_matches_serde_layout() {
    assert_eq!(var("x").to_json(), r#"{"Var":{"name":"x"}}"#);
    assert_eq!(var("a\"b\\c\n\u{1}").to_json(), r#"{"Var":{"name":"a\"b\\c\n\u0001"}}"#);
    let t = Term::App { op: op("f", 2), args: vec![var("x"), var("y")] };
    assert_eq!(
        t.to_json(),
        r#"{"App":{"op":{"name":"f","arity":2,"lip_bound":{"lower":[1,[1]],"upper":[1,[1]],"denominator":[1,[1]]}},"args":[{"Var":{"name":"x"}},{"Var":{"name":"y"}}]}}"#
    );
    let neg = OpSymbol {
        name: "n".to_string(),
        arity: 0,
        lip_bound: RatInterval::new(big(-5), big(0), big(4294967296)),
    };
    assert_eq!(
        Term::App { op: neg, args: vec![] }.to_json(),
        r#"{"App":{"op":{"name":"n","arity":0,"lip_bound":{"lower":[-1,[5]],"upper":[0,[]],"denominator":[1,[0,1]]}},"args":[]}}"#
    );
}

#[test]
fn term_hash_is_digest_of_json() {
    let t = var("x");
    assert_eq!(t.hash(), sha_hex(r#"{"Var":{"name":"x"}}"#));
    assert_eq!(t.hash().len(), 64);
}

#[test]
fn endomorphism_apply_and_compose() {
    let mut e = Endomorphism::identity();
    e.on_var.push(("x".to_string(), var("y")));
    let t = Term::App { op: op("f", 2), args: vec![var("x"), var("z")] };
    let r = e.apply(&t);
    assert_eq!(r, Term::App { op: op("f", 2), args: vec![var("y"), var("z")] });

    let mut g = Endomorphism::identity();
    g.on_var.push(("y".to_string(), Term::App { op: op("h", 1), args: vec![var("w")] }));
    let c = e.compose(&g);
    assert_eq!(c.on_var.len(), 1);
    assert_eq!(c.on_var[0].0, "x");
    assert_eq!(c.on_var[0].1, Term::App { op: op("h", 1), args: vec![var("w")] });
    assert!(e.is_contractive());
    assert!(!c.is_contractive());
    // the identity fixes every term
    assert_eq!(Endomorphism::identity().apply(&t), t);
}

#[test]
fn telemetry_anchor_hashes_json() {
    let w = Witness {
        term_hash: "abc".to_string(),
        interval: RatInterval::singleton(big(1), big(2)),
        dimension: 3,
        verified: true,
    };
    let t = Telemetry::new(w, "gov".to_string(), "c1".to_string());
    assert!(t.timestamp.chars().all(|c| c.is_ascii_digit()));
    let json = format!(
        r#"{{"timestamp":"{}","witness":{{"term_hash":"abc","interval":{{"lower":[1,[1]],"upper":[1,[1]],"denominator":[1,[2]]}},"dimension":3,"verified":true}},"governor":"gov","contract_id":"c1"}}"#,
        t.timestamp
    );
    assert_eq!(t.to_json(), json);
    assert_eq!(t.anchor(), sha_hex(&json));
}

#[test]
fn test_crmf_witness_creation() {
    let term = var("x");
    let interval = RatInterval::singleton(big(1), big(2));
    let cc = RatInterval::singleton(big(1), big(10));
    let witness = CrmfWitness::new(term, interval, 12, cc);
    assert_eq!(witness.dimension, 12);
    assert!(!witness.verified);
    assert_eq!(witness.witness_id, sha_hex(r#"{"Var":{"name":"x"}}"#));
}

#[test]
fn test_kani_result_pass() {
    let result = KaniResult::pass(
        "verify_coherence_finite_primes".to_string(),
        12,
        RatInterval::singleton(big(1), big(1000)),
    );
    assert!(result.passed);
    assert_eq!(result.dimension, 12);
}

#[test]
fn test_binding_drift_free() {
    let mut binding = CrmfBinding::new("zeta_comb".to_string());
    let term = var("x");
    let interval = RatInterval::singleton(big(1), big(2));
    let cc = RatInterval::singleton(big(1), big(10));
    let mut witness = CrmfWitness::new(term, interval, 12, cc);
    witness.witness_id = "verify_coherence_finite_primes".to_string();
    binding.add_witness(witness);

    let result = KaniResult::pass(
        "verify_coherence_finite_primes".to_string(),
        12,
        RatInterval::singleton(big(1), big(1000)),
    );
    binding.add_kani_result(result);

    assert!(binding.verify_all());
    assert!(binding.is_drift_free());
    assert!(binding.trigger_gov_kill().is_none());
}

#[test]
fn test_binding_drift_detected() {
    let mut binding = CrmfBinding::new("zeta_comb".to_string());
    let term = var("x");
    let interval = RatInterval::singleton(big(1), big(2));
    let cc = RatInterval::singleton(big(1), big(10));
    let witness = CrmfWitness::new(term, interval, 12, cc);
    binding.add_witness(witness);

    assert!(!binding.is_drift_free());
    assert!(binding.trigger_gov_kill().is_some());
}

#[test]
fn binding_audit_log_and_kill_message() {
    let mut binding = CrmfBinding::new("c7".to_string());
    let mut witness = CrmfWitness::new(var("x"), RatInterval::singleton(big(1), big(2)), 4, RatInterval::singleton(big(1), big(10)));
    witness.witness_id = "h".to_string();
    binding.add_witness(witness);
    assert_eq!(binding.audit_log[0].event, "witness_added");
    assert_eq!(binding.audit_log[0].governor, "system");
    assert_eq!(binding.audit_log[0].witness_id, "h");
    assert_eq!(binding.audit_log[0].hash, sha_hex(r#"{"Var":{"name":"x"}}"#));

    // a result beyond the witness's dimension does not verify it
    binding.add_kani_result(KaniResult::pass("h".to_string(), 5, RatInterval::singleton(big(1), big(1))));
    assert_eq!(binding.audit_log[1].event, "kani_result");
    assert_eq!(binding.audit_log[1].governor, "kani");
    assert_eq!(
        binding.audit_log[1].hash,
        sha_hex(r#"{"harness_name":"h","passed":true,"dimension":5,"bound":{"lower":[1,[1]],"upper":[1,[1]],"denominator":[1,[1]]},"counterexample":null}"#)
    );
    assert!(!binding.verify_all());
    assert_eq!(binding.trigger_gov_kill(), Some("SIG_GOV_KILL: drift detected in contract c7".to_string()));

    let failed = KaniResult::fail("h".to_string(), 1, "cex".to_string());
    assert!(!failed.passed);
    assert_eq!(failed.counterexample, Some("cex".to_string()));
    assert_eq!(failed.bound.lower, big(0));
    assert_eq!(failed.bound.denominator, big(1));
}

#[test]
fn interval_operations_contain_pointwise_results() {
    let a = RatInterval::new(big(-2), big(3), big(5));
    let b = RatInterval::new(big(-7), big(4), big(2));
    let s = a.add(&b);
    let p = a.mul(&b);
    for x in -2i64..=3 {
        for y in -7i64..=4 {
            let sum = x * 2 + y * 5;
            assert!(value(&s.lower) <= BigInt::from(sum) && BigInt::from(sum) <= value(&s.upper));
            let prod = x * y;
            assert!(value(&p.lower) <= BigInt::from(prod) && BigInt::from(prod) <= value(&p.upper));
        }
    }
}
