use vulnfinder_core::fingerprint::{
    banner_text, first_probe, http_fingerprint, http_request, next_step, normalize_ssh_version,
    parse_http_response, parse_product_version, ssh_fingerprint, tcp_fingerprint, tls_fingerprint,
    truncate, FingerprintAction, PeerCert, Probe,
};

#[test]
fn normalizes_openssh_banner_versions_for_semver_matching() {
    assert_eq!(normalize_ssh_version("OpenSSH_8.4p1"), Some("8.4.1".to_string()));
    assert_eq!(normalize_ssh_version("OpenSSH_9.7"), Some("9.7.0".to_string()));
}

#[test]
fn ssh_version_with_letters_is_dropped() {
    assert_eq!(normalize_ssh_version("dropbear_2020.81"), Some("2020.81.0".to_string()));
    assert_eq!(normalize_ssh_version("OpenSSH_9.xp1"), None);
    assert_eq!(normalize_ssh_version("p"), None);
    assert_eq!(normalize_ssh_version("OpenSSH_8."), None);
    assert_eq!(normalize_ssh_version("OpenSSH_8.4p"), None);
    assert_eq!(normalize_ssh_version("OpenSSH_8"), Some("8.0.0".to_string()));
}

#[test]
fn identifies_ssh_banner_text() {
    let banner = banner_text(b"SSH-2.0-OpenSSH_9.3p1 Debian-3\r\n");
    assert_eq!(banner, "SSH-2.0-OpenSSH_9.3p1 Debian-3  ");
    let fp = ssh_fingerprint(&banner).expect("fingerprint expected");
    assert_eq!(fp.service, "ssh");
    assert_eq!(fp.product.as_deref(), Some("OpenSSH"));
    assert_eq!(fp.version.as_deref(), Some("9.3.1"));
    assert!(fp.evidence.iter().any(|e| e.contains("SSH-2.0")));
    assert_eq!(fp.evidence, vec!["ssh banner: SSH-2.0-OpenSSH_9.3p1 Debian-3".to_string()]);
}

#[test]
fn non_ssh_banner_is_not_ssh() {
    assert!(ssh_fingerprint("220 mail ESMTP").is_none());
    assert!(ssh_fingerprint("").is_none());
}

#[test]
fn http_server_header_splits_product_and_version() {
    let fp = parse_http_response("HTTP/1.1 200 OK\r\nServer: Apache/2.4.41 (Ubuntu)\r\n\r\n").unwrap();
    assert_eq!(fp.service, "http");
    assert_eq!(fp.product.as_deref(), Some("Apache"));
    assert!(fp.version.as_deref().unwrap().starts_with("2.4.41"));
    assert_eq!(fp.evidence, vec!["http server header: Server: Apache/2.4.41 (Ubuntu)".to_string()]);
}

#[test]
fn http_without_server_header() {
    let fp = parse_http_response("HTTP/1.0 404 Not Found\r\n\r\n").unwrap();
    assert_eq!(fp.product, None);
    assert_eq!(fp.version, None);
    assert_eq!(fp.evidence, vec!["http server header: none".to_string()]);
    let fp = http_fingerprint(b"HTTP/1.0 200 OK\r\nserver: nginx\r\n").unwrap();
    assert_eq!(fp.product.as_deref(), Some("nginx"));
    assert_eq!(fp.version, None);
}

#[test]
fn product_version_split() {
    assert_eq!(parse_product_version(""), (None, None));
    assert_eq!(parse_product_version("lighttpd"), (Some("lighttpd".to_string()), None));
    assert_eq!(
        parse_product_version("nginx / 1.25.3"),
        (Some("nginx".to_string()), Some("1.25.3".to_string()))
    );
}

#[test]
fn evidence_is_cut_to_two_hundred_characters() {
    let long = "x".repeat(250);
    assert_eq!(truncate(&long).chars().count(), 200);
    assert_eq!(truncate("short"), "short");
    let fp = tcp_fingerprint(Some(&long));
    assert_eq!(fp.evidence[0].chars().count(), 200);
    assert!(fp.evidence[0].starts_with("banner: xxx"));
    let banner = format!("SSH-2.0-OpenSSH_9.7 {}", "y".repeat(250));
    let fp = ssh_fingerprint(&banner).unwrap();
    assert_eq!(fp.evidence[0].chars().count(), 200);
    assert_eq!(fp.version.as_deref(), Some("9.7.0"));
    let response = format!("HTTP/1.1 200 OK\r\nServer: {}\r\n", "z".repeat(300));
    let fp = parse_http_response(&response).unwrap();
    assert_eq!(fp.evidence[0].chars().count(), 200);
}

#[test]
fn tcp_fingerprint_has_banner_evidence_only() {
    let fp = tcp_fingerprint(Some("hello"));
    assert_eq!(fp.service, "tcp");
    assert_eq!(fp.evidence, vec!["banner: hello".to_string()]);
    assert!(tcp_fingerprint(None).evidence.is_empty());
}

#[test]
fn tls_fingerprint_without_readable_certificate() {
    let fp = tls_fingerprint(&PeerCert::Missing);
    assert_eq!(fp.service, "tls");
    assert_eq!(fp.evidence, vec!["tls cert: unavailable".to_string()]);
    let fp = tls_fingerprint(&PeerCert::Der(vec![1, 2, 3]));
    assert_eq!(fp.evidence, vec!["tls cert: parsed fields unavailable".to_string()]);
    let fp = tls_fingerprint(&PeerCert::Unreadable);
    assert_eq!(fp.evidence, vec!["tls cert: parsed fields unavailable".to_string()]);
}

#[test]
fn http_request_names_the_host() {
    assert_eq!(
        http_request("10.0.0.1"),
        "HEAD / HTTP/1.0\r\nHost: 10.0.0.1\r\nUser-Agent: vulnfinder\r\nConnection: close\r\n\r\n"
    );
}

#[test]
fn probe_order_by_port() {
    assert_eq!(first_probe(), Probe::Ssh);
    assert!(matches!(next_step(80, Probe::Ssh, None), FingerprintAction::Run(Probe::Http)));
    assert!(matches!(next_step(8080, Probe::Ssh, None), FingerprintAction::Run(Probe::Http)));
    assert!(matches!(next_step(443, Probe::Ssh, None), FingerprintAction::Run(Probe::Tls)));
    assert!(matches!(next_step(443, Probe::Tls, None), FingerprintAction::Run(Probe::Http)));
    assert!(matches!(next_step(25, Probe::Ssh, None), FingerprintAction::Run(Probe::Generic)));
    assert!(matches!(next_step(80, Probe::Http, None), FingerprintAction::Finish(None)));
    let ssh = ssh_fingerprint("SSH-2.0-OpenSSH_9.7").unwrap();
    match next_step(443, Probe::Ssh, Some(ssh)) {
        FingerprintAction::Finish(Some(fp)) => assert_eq!(fp.version.as_deref(), Some("9.7.0")),
        _ => panic!("ssh banner ends fingerprinting"),
    }
}

#[test]
fn server_value_runs_to_the_end_of_the_line() {
    let fp = parse_http_response("HTTP/1.1 200 OK\r\nServer: a:b/1\r\n").unwrap();
    assert_eq!(fp.product.as_deref(), Some("a:b"));
    assert_eq!(fp.version.as_deref(), Some("1"));
    let fp = parse_http_response("HTTP/1.1 200 OK\r\nSERVER:   \r\n").unwrap();
    assert_eq!(fp.product, None);
    assert_eq!(fp.version, None);
    assert_eq!(fp.evidence, vec!["http server header: SERVER:".to_string()]);
}
