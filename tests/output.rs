use vulnfinder_core::cve_db::{CveDatabase, CveEntry};
use vulnfinder_core::fingerprint::parse_http_response;
use vulnfinder_core::output::{build_report, render_table};
use vulnfinder_core::scanner::ScanState;

#[test]
fn report_lists_open_ports_with_matches() {
    let mut state = ScanState::new(vec!["192.0.2.5".to_string()], vec![22, 80]);
    state.complete(0, false, None).unwrap();
    let http = parse_http_response("HTTP/1.1 200 OK\r\nServer: Apache/2.4.41 (Ubuntu)\r\n").unwrap();
    state.complete(1, true, Some(http)).unwrap();
    let results = state.finish().unwrap();
    let db = CveDatabase::new(vec![CveEntry {
        product: "apache".to_string(),
        version_range: "<=2.4.41 (Ubuntu)".to_string(),
        cve_id: "CVE-2020-0001".to_string(),
        cvss_tenths: None,
        summary: "s".to_string(),
        references: vec![],
        remediation: "r".to_string(),
    }]);
    let report = build_report(&results, &db);
    assert_eq!(report.hosts.len(), 1);
    assert_eq!(report.hosts[0].target, "192.0.2.5");
    assert_eq!(report.hosts[0].ports.len(), 1);
    let p = &report.hosts[0].ports[0];
    assert_eq!(p.port, 80);
    assert_eq!(p.service.as_deref(), Some("http"));
    assert_eq!(p.product.as_deref(), Some("Apache"));
    assert_eq!(p.cves.len(), 1);
    assert_eq!(p.cves[0].cve_id, "CVE-2020-0001");
}

#[test]
fn table_rows_are_padded_to_their_columns() {
    let mut state = ScanState::new(vec!["192.0.2.5".to_string()], vec![80, 443]);
    let http = parse_http_response("HTTP/1.1 200 OK\r\nServer: Apache/2.4.41 (Ubuntu)\r\n").unwrap();
    state.complete(0, true, Some(http)).unwrap();
    state.complete(1, true, None).unwrap();
    let db = CveDatabase::new(vec![CveEntry {
        product: "Apache".to_string(),
        version_range: "any".to_string(),
        cve_id: "CVE-2021-41773".to_string(),
        cvss_tenths: Some(98),
        summary: "path traversal".to_string(),
        references: vec!["a".to_string(), "b".to_string()],
        remediation: "upgrade".to_string(),
    }]);
    let report = build_report(&state.finish().unwrap(), &db);
    let mut expected = String::new();
    expected.push_str("TARGET            PORT   SERVICE  PRODUCT         VERSION   CVES\n");
    expected.push_str("-------------------------------------------------------------------\n");
    expected.push_str(&format!(
        "{:<17} {:<6} {:<8} {:<15} {:<8} {:<3}\n",
        "192.0.2.5", 80, "http", "Apache", "2.4.41 (Ubuntu)", 1
    ));
    expected.push_str(&format!("  - CVE-2021-41773 CVSS:{:?} path traversal\n", Some(9.8f32)));
    expected.push_str("    Remediation: upgrade\n");
    expected.push_str("    References: a, b\n");
    expected.push_str("    Evidence: http server header: Server: Apache/2.4.41 (Ubuntu)\n");
    expected.push_str(&format!(
        "{:<17} {:<6} {:<8} {:<15} {:<8} {:<3}\n",
        "192.0.2.5", 443, "-", "-", "-", 0
    ));
    assert_eq!(render_table(&report, true), expected);
    assert!(!render_table(&report, false).contains("Evidence"));
}
