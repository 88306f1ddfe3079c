use vulnfinder_core::error::VulnFinderError;
use vulnfinder_core::ports::{load_ports, DEFAULT_PORTS};
use vulnfinder_core::target::{expand_ipv4_range, is_valid_hostname};

#[test]
fn defaults_when_no_inputs() {
    let ports = load_ports(None, None).unwrap();
    assert_eq!(ports, DEFAULT_PORTS);
}

#[test]
fn merges_sources() {
    let ports = load_ports(Some("22,80"), Some("443\n8080\n")).unwrap();
    assert_eq!(ports, vec![22, 80, 443, 8080]);
}

#[test]
fn ports_are_sorted_once_each() {
    let ports = load_ports(Some(" 8080, 22,,22 ,+80"), Some("# web\n\n443\r\n22\n")).unwrap();
    assert_eq!(ports, vec![22, 80, 443, 8080]);
    assert_eq!(load_ports(Some(" , "), Some("# nothing\n")).unwrap(), DEFAULT_PORTS.to_vec());
}

#[test]
fn bad_port_entries_are_reported() {
    for (raw, bad) in [("22,0", "0"), ("70000", "70000"), ("ssh", "ssh"), ("1,-5", "-5"), ("+", "+")] {
        match load_ports(Some(raw), None) {
            Err(VulnFinderError::InvalidPort(s)) => assert_eq!(s, bad),
            other => panic!("unexpected {other:?}"),
        }
    }
    match load_ports(Some("22"), Some("80\nhttp\n9x\n")) {
        Err(VulnFinderError::InvalidPort(s)) => assert_eq!(s, "http"),
        other => panic!("unexpected {other:?}"),
    }
    assert_eq!(load_ports(Some("65535,0001"), None).unwrap(), vec![1, 65535]);
}

#[test]
fn hostnames() {
    assert!(is_valid_hostname("scanme.example.org"));
    assert!(is_valid_hostname("a-b.c"));
    assert!(!is_valid_hostname(""));
    assert!(!is_valid_hostname("-a.b"));
    assert!(!is_valid_hostname("a..b"));
    assert!(!is_valid_hostname("a_b"));
    assert!(!is_valid_hostname(&"a".repeat(64)));
    assert!(!is_valid_hostname(&["abc"; 64].join(".")));
}

#[test]
fn ipv4_ranges_expand_inclusively() {
    assert_eq!(expand_ipv4_range(10, 12).unwrap(), vec![10, 11, 12]);
    assert_eq!(expand_ipv4_range(7, 7).unwrap(), vec![7]);
    assert_eq!(expand_ipv4_range(0, 4095).unwrap().len(), 4096);
    assert!(matches!(expand_ipv4_range(0, 4096), Err(VulnFinderError::InvalidTarget(_))));
    assert!(matches!(expand_ipv4_range(3, 1), Err(VulnFinderError::InvalidTarget(_))));
}
