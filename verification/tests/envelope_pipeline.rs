use pirtm::daemon::{envelope_ensemble, EnvelopeMethod};
use pirtm::spectral::validate_and_certify;

fn params() -> (Vec<Vec<(u64, u64)>>, Vec<(u64, u64)>, Option<String>) {
    (
        vec![vec![(0, 1), (4, 10)], vec![(4, 10), (0, 1)]],
        vec![(9, 10), (9, 10)],
        Some("Foundations.ADR.BoundedIteration.iterate_non_expansive".to_string()),
    )
}

#[test]
fn header_only_envelope_with_dotted_theorem_certifies() {
    let e = envelope_ensemble(EnvelopeMethod::Compile, "test_contract", Ok(params()), None).unwrap();
    assert_eq!(e.name, "test_contract");
    assert_eq!(e.theorem_name, "Foundations.ADR.BoundedIteration.iterate_non_expansive");
    assert_eq!(e.adjacency[0][1].as_pair(), (2, 5));
    assert_eq!(e.lambdas[1].as_pair(), (9, 10));
    let cert = validate_and_certify(&e).unwrap();
    assert_eq!(cert.exact_rational_norm_1, (9, 25));
}

#[test]
fn envelope_errors_come_in_order() {
    assert_eq!(
        envelope_ensemble(EnvelopeMethod::Compile, "x", Err("ParseError in envelope header: boom".to_string()), None)
            .unwrap_err(),
        "ParseError in envelope header: boom"
    );
    let err = envelope_ensemble(EnvelopeMethod::Validate, "x", Ok(params()), Some("Other.thm")).unwrap_err();
    assert!(err.starts_with("TheoremAnchorMismatch"));
    let mut p = params();
    p.2 = None;
    let err = envelope_ensemble(EnvelopeMethod::Validate, "x", Ok(p.clone()), None).unwrap_err();
    assert!(err.starts_with("MissingTheoremAnchor"));
    let e = envelope_ensemble(EnvelopeMethod::Compile, "x", Ok(p.clone()), Some("Rpc.thm")).unwrap();
    assert_eq!(e.theorem_name, "Rpc.thm");
    p.1 = vec![(1, 0), (1, 2)];
    let err = envelope_ensemble(EnvelopeMethod::Compile, "x", Ok(p), Some("Rpc.thm")).unwrap_err();
    assert!(err.starts_with("InvalidRational"));
}

#[test]
fn crlf_offsets_can_leave_character_boundaries() {
    // Offsets count each line as its length plus one, so CRLF lines drift the offsets
    // back by one byte each: here the delimiter start falls inside the second '€'.
    let src = "x\r\nx\r\n€€\r\n---";
    let found = pirtm::envelope::find_explicit_delimiter_line(src);
    assert_eq!(found, Some((11, 14)));
    assert!(!src.is_char_boundary(11));
}
