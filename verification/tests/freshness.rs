use relaygraph::freshness::fingerprint_link_revision;

#[test]
fn link_revision_separates_each_component_and_component_boundaries() {
    let baseline = fingerprint_link_revision("ab", "id:c", Some("reason"));
    assert_ne!(
        baseline,
        fingerprint_link_revision("xy", "id:c", Some("reason"))
    );
    assert_ne!(
        baseline,
        fingerprint_link_revision("ab", "id:d", Some("reason"))
    );
    assert_ne!(
        baseline,
        fingerprint_link_revision("ab", "id:c", Some("other"))
    );
    assert_ne!(baseline, fingerprint_link_revision("ab", "id:c", None));
    assert_ne!(
        fingerprint_link_revision("ab", "c", None),
        fingerprint_link_revision("a", "bc", None)
    );
}

#[test]
fn link_revision_is_a_sha256_text() {
    let revision = fingerprint_link_revision("ab", "id:c", None);
    assert!(revision.starts_with("sha256:"));
    assert_eq!(revision.len(), "sha256:".len() + 64);
    assert!(revision["sha256:".len()..].chars().all(|c| c.is_ascii_hexdigit() && !c.is_ascii_uppercase()));
    assert_eq!(revision, fingerprint_link_revision("ab", "id:c", None));
}

use relaygraph::freshness::{fingerprint_bytes, freshness_message, freshness_state, lf_normalize, FreshnessState};

#[test]
fn line_endings_do_not_change_a_file_revision() {
    let crlf = fingerprint_bytes(&b"first\r\nsecond\rthird\n".to_vec());
    let lf = fingerprint_bytes(&b"first\nsecond\nthird\n".to_vec());
    assert_eq!(crlf, lf);
    assert_ne!(lf, fingerprint_bytes(&b"first second third\n".to_vec()));
    assert_eq!(lf_normalize("a\r\nb\rc\n\r"), "a\nb\nc\n\n");
}

#[test]
fn file_revision_is_the_sha256_of_the_content() {
    assert_eq!(
        fingerprint_bytes(&Vec::new()),
        "sha256:e3b0c44298fc1c149afbf4c8996fb92427ae41e4649b934ca495991b7852b855"
    );
    assert_eq!(
        fingerprint_bytes(&b"abc".to_vec()),
        "sha256:ba7816bf8f01cfea414140de5dae2223b00361a396177a9cb410ff61f20015ad"
    );
}

#[test]
fn non_utf8_content_is_hashed_as_raw_bytes() {
    let crlf = fingerprint_bytes(&vec![0xff, b'\r', b'\n']);
    let lf = fingerprint_bytes(&vec![0xff, b'\n']);
    assert_ne!(crlf, lf);
    assert!(crlf.starts_with("sha256:"));
}

#[test]
fn review_is_required_exactly_when_a_revision_changed() {
    assert_eq!(freshness_state(false, false, false), None);
    assert_eq!(freshness_state(true, false, false), Some(FreshnessState::SourceChanged));
    assert_eq!(freshness_state(false, true, false), Some(FreshnessState::TargetChanged));
    assert_eq!(freshness_state(true, true, false), Some(FreshnessState::BothChanged));
    assert_eq!(freshness_state(false, false, true), Some(FreshnessState::LinkChanged));
    assert_eq!(freshness_state(true, true, true), Some(FreshnessState::AllChanged));
    assert_eq!(
        freshness_message(FreshnessState::TargetAndLinkChanged),
        "target and link revisions changed after acknowledgement"
    );
    assert_eq!(
        freshness_message(FreshnessState::AllChanged),
        "source, target, and link revisions changed after acknowledgement"
    );
}
