use vulnfinder_core::fingerprint::tcp_fingerprint;
use vulnfinder_core::scanner::{port_result, Dispatcher, ScanState};

fn targets() -> Vec<String> {
    vec!["10.0.0.2".to_string(), "10.0.0.1".to_string()]
}

fn run(order: &[usize]) -> String {
    let mut state = ScanState::new(targets(), vec![22, 80, 443]);
    assert_eq!(state.job_count(), 6);
    for &k in order {
        let open = state.job_at(k).port != 443;
        let fp = if open { Some(tcp_fingerprint(Some("hi"))) } else { None };
        assert!(state.complete(k, open, fp).is_some());
    }
    format!("{:?} {:?}", state.finish().unwrap(), state.stats_now())
}

#[test]
fn every_pair_reported_once() {
    let mut state = ScanState::new(targets(), vec![22, 80, 443]);
    assert!(state.finish().is_none());
    for k in (0..6).rev() {
        let open = k % 3 == 0;
        state.complete(k, open, None).unwrap();
    }
    let stats = state.stats_now();
    assert_eq!(stats.scanned, 6);
    assert_eq!(stats.total_ports, 6);
    assert_eq!(stats.total_targets, 2);
    assert_eq!(stats.open_ports, 2);
    assert_eq!(stats.services_identified, 0);
    let hosts = state.finish().unwrap();
    assert_eq!(hosts.len(), 2);
    assert_eq!(hosts[0].target, "10.0.0.2");
    assert_eq!(hosts[1].target, "10.0.0.1");
    for h in &hosts {
        let ports: Vec<u16> = h.ports.iter().map(|p| p.port).collect();
        assert_eq!(ports, vec![22, 80, 443]);
    }
    assert!(hosts[0].ports[0].open);
    assert!(!hosts[0].ports[1].open);
}

#[test]
fn completion_order_does_not_change_results() {
    assert_eq!(run(&[0, 1, 2, 3, 4, 5]), run(&[5, 3, 1, 0, 4, 2]));
}

#[test]
fn a_job_is_recorded_once() {
    let mut state = ScanState::new(targets(), vec![22]);
    let event = state.complete(1, true, Some(tcp_fingerprint(None))).unwrap();
    assert_eq!(event.message, "open 10.0.0.1:22");
    assert_eq!(event.current_target, "10.0.0.1");
    assert_eq!(event.current_port, 22);
    assert_eq!(event.stats.scanned, 1);
    assert_eq!(event.stats.services_identified, 1);
    assert!(state.complete(1, false, None).is_none());
    assert!(state.complete(7, false, None).is_none());
    assert_eq!(state.stats_now().scanned, 1);
    let event = state.complete(0, false, None).unwrap();
    assert_eq!(event.message, "closed 10.0.0.2:22");
}

#[test]
fn closed_port_carries_no_fingerprint() {
    let r = port_result(8080, false, Some(tcp_fingerprint(Some("x"))));
    assert!(!r.open);
    assert!(r.fingerprint.is_none());
    let mut state = ScanState::new(vec!["h".to_string()], vec![9]);
    state.complete(0, false, Some(tcp_fingerprint(None))).unwrap();
    let hosts = state.finish().unwrap();
    assert!(hosts[0].ports[0].fingerprint.is_none());
    assert_eq!(state.stats_now().services_identified, 0);
}

#[test]
fn empty_matrix_finishes_at_once() {
    let state = ScanState::new(vec![], vec![22]);
    assert_eq!(state.finish().unwrap().len(), 0);
}

#[test]
fn dispatcher_keeps_in_flight_under_limit() {
    let mut d = Dispatcher::new(5, 2);
    assert_eq!(d.start(), Some(0));
    assert_eq!(d.start(), Some(1));
    assert_eq!(d.start(), None);
    assert_eq!(d.in_flight_now(), 2);
    d.finish_one();
    assert_eq!(d.start(), Some(2));
    let mut max = d.in_flight_now();
    loop {
        while let Some(_) = d.start() {
            max = max.max(d.in_flight_now());
        }
        if d.in_flight_now() == 0 {
            break;
        }
        d.finish_one();
    }
    assert!(max <= 2);
    assert!(d.is_done());
}

#[test]
fn ports_are_scanned_in_ascending_order_once() {
    let mut state = ScanState::new(vec!["h".to_string()], vec![443, 22, 443, 80]);
    assert_eq!(state.job_count(), 3);
    assert_eq!(state.job_at(0).port, 22);
    for k in [2, 0, 1] {
        state.complete(k, false, None).unwrap();
    }
    let ports: Vec<u16> = state.finish().unwrap()[0].ports.iter().map(|p| p.port).collect();
    assert_eq!(ports, vec![22, 80, 443]);
}

#[test]
fn repeated_targets_are_scanned_once() {
    let mut state = ScanState::new(
        vec!["b".to_string(), "a".to_string(), "b".to_string()],
        vec![22],
    );
    assert_eq!(state.job_count(), 2);
    state.complete(0, false, None).unwrap();
    state.complete(1, false, None).unwrap();
    let hosts = state.finish().unwrap();
    let names: Vec<&str> = hosts.iter().map(|h| h.target.as_str()).collect();
    assert_eq!(names, vec!["b", "a"]);
    assert_eq!(state.stats_now().total_targets, 2);
}
