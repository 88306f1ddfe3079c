use vulnfinder_core::cve_db::{version_in_range, CveDatabase, CveEntry};

#[test]
fn semver_range_matching() {
    assert!(version_in_range("8.9.1", ">=8.0.0,<9.0.0"));
    assert!(!version_in_range("9.1.0", ">=8.0.0,<9.0.0"));
}

#[test]
fn simple_matching_fallback() {
    assert!(version_in_range("OpenSSH_7.2", "<=OpenSSH_7.5"));
}

#[test]
fn any_range_matches_every_version() {
    assert!(version_in_range("1.2.3", "any"));
    assert!(version_in_range("OpenSSH_7.2", " ANY "));
    assert!(version_in_range("weird-build", "Any"));
}

#[test]
fn semver_bounds_and_equality() {
    assert!(version_in_range("v8.0", ">=8.0.0,<=8.0.0"));
    assert!(version_in_range("8.0.0", "==8.0.0,"));
    assert!(!version_in_range("8.0.1", "=8.0.0,"));
    assert!(version_in_range("2.4.41", ">2.4.0, <2.4.50"));
    assert!(!version_in_range("2.4.50", ">2.4.0, <2.4.50"));
}

#[test]
fn malformed_semver_condition_does_not_match() {
    assert!(!version_in_range("1.2.3", ">=1.0.0,<abc"));
}

#[test]
fn lexical_comparison_is_tokenwise_and_case_blind() {
    assert!(version_in_range("openssh-7.2", "=OpenSSH_7.2"));
    assert!(!version_in_range("OpenSSH_7.6", "<=OpenSSH_7.5"));
    assert!(version_in_range("OpenSSH_7.6", ">OpenSSH_7.5"));
    assert!(!version_in_range("OpenSSH_7.6", "<OpenSSH_7.5"));
}

fn entry(product: &str, range: &str, id: &str) -> CveEntry {
    CveEntry {
        product: product.to_string(),
        version_range: range.to_string(),
        cve_id: id.to_string(),
        cvss_tenths: Some(98),
        summary: "summary".to_string(),
        references: vec!["https://example.invalid/ref".to_string()],
        remediation: "upgrade".to_string(),
    }
}

#[test]
fn product_without_version_matches_nothing() {
    let db = CveDatabase::new(vec![entry("OpenSSH", "any", "CVE-1"), entry("openssh", "any", "CVE-2")]);
    assert!(db.match_service("OpenSSH", None).is_empty());
}

#[test]
fn matching_needs_product_and_version() {
    let db = CveDatabase::new(vec![
        entry("OpenSSH", ">=8.0.0,<9.0.0", "CVE-A"),
        entry("Apache", "any", "CVE-B"),
        entry("OPENSSH", "<=OpenSSH_7.5", "CVE-C"),
        entry("openssh", ">=9.0.0,<10.0.0", "CVE-D"),
    ]);
    let hits = db.match_service("openssh", Some("8.9.1"));
    let ids: Vec<String> = hits.iter().map(|m| m.cve_id.clone()).collect();
    // The lexical range compares token "8" below token "openssh", so it holds too.
    assert_eq!(ids, vec!["CVE-A".to_string(), "CVE-C".to_string()]);
    assert_eq!(hits[0].cvss_tenths, Some(98));
    assert_eq!(hits[0].references, vec!["https://example.invalid/ref".to_string()]);
    assert_eq!(hits[0].remediation, "upgrade");
    let old = db.match_service("OpenSSH", Some("OpenSSH_7.2"));
    assert_eq!(old.len(), 1);
    assert_eq!(old[0].cve_id, "CVE-C");
}
