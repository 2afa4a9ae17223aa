use quasar::fmt::ipv4_to_string;
use quasar::scanner::{
    begin_scan, build_scan_result, detect_device_type, get_scan_progress, get_scan_results,
    identify_service, is_scanning, parse_cidr, prepare_scan, record_scan_result, start_progress, stop_scan,
    window_full, ScanResult, ScanRunningGuard, ScannerState, MAX_CONCURRENT_SCANS,
};

#[test]
fn test_parse_cidr() {
    let ips = parse_cidr("192.168.1.0/30").unwrap();
    assert_eq!(ips.len(), 4);

    // Verify the IPs are correct
    assert_eq!(ipv4_to_string(ips[0]), "192.168.1.0");
    assert_eq!(ipv4_to_string(ips[1]), "192.168.1.1");
    assert_eq!(ipv4_to_string(ips[2]), "192.168.1.2");
    assert_eq!(ipv4_to_string(ips[3]), "192.168.1.3");
}

#[test]
fn test_parse_cidr_invalid() {
    let result = parse_cidr("invalid");
    assert!(result.is_err());
}

#[test]
fn test_parse_cidr_larger_subnet() {
    let ips = parse_cidr("10.0.0.0/24").unwrap();
    assert_eq!(ips.len(), 256);
}

#[test]
fn test_scanner_state_new() {
    let state = ScannerState::new();
    assert!(!is_scanning(&state));

    let results = get_scan_results(&state);
    assert!(results.is_empty());

    let progress = get_scan_progress(&state);
    assert_eq!(progress.total, 0);
    assert_eq!(progress.completed, 0);
}

#[test]
fn test_stop_scan_only_sets_signal() {
    let mut state = ScannerState::new();

    // Set scanning state manually (simulating an active scan)
    state.is_scanning = true;
    assert!(is_scanning(&state));

    // stop_scan should only set the stop signal, NOT reset is_scanning.
    // The ScanRunningGuard is the sole owner of is_scanning.
    stop_scan(&mut state);
    assert!(
        is_scanning(&state),
        "stop_scan must not reset is_scanning; only the guard should"
    );
    assert!(state.stop_signal, "stop signal must be set");
}

#[test]
fn test_scan_running_guard_resets_on_drop() {
    let mut state = ScannerState::new();
    state.is_scanning = true;

    {
        let guard = ScanRunningGuard::new();
        assert!(is_scanning(&state));
        guard.release(&mut state);
    }

    assert!(
        !is_scanning(&state),
        "Guard release must reset is_scanning to false"
    );
}

#[test]
fn test_guard_no_race_on_stop_start() {
    // Simulate: scan1 running → stop_scan → scan2 starts → scan1 guard released
    let mut state = ScannerState::new();

    // Scan 1 starts
    let guard1 = begin_scan(&mut state, "10.0.0.0/30").unwrap();

    // User calls stop_scan (only sets signal, does NOT touch is_scanning)
    stop_scan(&mut state);
    assert!(is_scanning(&state), "stop_scan must not reset is_scanning");

    // Scan 1 detects stop signal and exits, releasing its guard
    guard1.release(&mut state);
    assert!(!is_scanning(&state));

    // Scan 2 starts with its own guard
    let _guard2 = begin_scan(&mut state, "10.0.0.0/30").unwrap();

    // is_scanning must still be true — no stale guard can interfere
    assert!(
        is_scanning(&state),
        "Scan 2 must remain active after scan 1's guard was released"
    );
}

#[test]
fn test_scan_result_fields() {
    let result = ScanResult {
        ip: "10.0.0.1".to_string(),
        is_alive: true,
        latency_ms: Some(5),
        open_ports: vec![22, 443],
        hostname: None,
        mac_address: None,
        device_type: "workstation".to_string(),
        services: vec![],
        vendor: None,
        last_seen: 1234567890,
    };

    assert_eq!(result.ip, "10.0.0.1");
    assert!(result.is_alive);
    assert_eq!(result.latency_ms, Some(5));
    assert_eq!(result.open_ports.len(), 2);
}

#[test]
fn test_scan_result_dead_host() {
    let result = ScanResult {
        ip: "192.168.255.255".to_string(),
        is_alive: false,
        latency_ms: None,
        open_ports: vec![],
        hostname: None,
        mac_address: None,
        device_type: "unknown".to_string(),
        services: vec![],
        vendor: None,
        last_seen: 1234567890,
    };

    assert!(!result.is_alive);
    assert!(result.open_ports.is_empty());
    assert_eq!(result.latency_ms, None);
}

#[test]
fn test_detect_device_type_rdp_only_is_workstation() {
    assert_eq!(detect_device_type(&[3389]), "workstation");
}

#[test]
fn test_detect_device_type_ssh_only_is_workstation() {
    assert_eq!(detect_device_type(&[22]), "workstation");
}

#[test]
fn test_detect_device_type_many_ports_is_server() {
    // 3+ ports (without matching router pattern) → server
    assert_eq!(detect_device_type(&[22, 80, 3306]), "server");
    // RDP + multiple other ports → server (not workstation)
    assert_eq!(detect_device_type(&[22, 3389, 80]), "server");
}

#[test]
fn test_detect_device_type_smb_is_server() {
    assert_eq!(detect_device_type(&[445]), "server");
}

#[test]
fn test_detect_device_type_router() {
    assert_eq!(detect_device_type(&[80, 443]), "router");
}

#[test]
fn test_detect_device_type_printer() {
    assert_eq!(detect_device_type(&[9100]), "printer");
}

#[test]
fn test_detect_device_type_empty_is_unknown() {
    assert_eq!(detect_device_type(&[]), "unknown");
}

#[test]
fn a_second_scan_is_refused_while_one_runs() {
    let mut state = ScannerState::new();
    assert_eq!(
        begin_scan(&mut state, "10.0.0/8").err(),
        Some("Invalid CIDR notation".to_string())
    );
    let _g = begin_scan(&mut state, "10.0.0.0/8").unwrap();
    assert_eq!(
        begin_scan(&mut state, "10.0.0.0/8").err(),
        Some("Scan already in progress".to_string())
    );
}

#[test]
fn blocks_wider_than_a_slash_16_are_refused() {
    assert_eq!(
        parse_cidr("10.0.0.0/15").err(),
        Some("CIDR range too large (/15 covers 131072 hosts). Maximum supported range is /16.".to_string())
    );
    assert_eq!(parse_cidr("10.0.0.0/16").unwrap().len(), 65536);
    let one = parse_cidr("10.1.2.3/32").unwrap();
    assert_eq!(one.len(), 1);
    assert_eq!(ipv4_to_string(one[0]), "10.1.2.3");
    // Host bits are ignored.
    let block = parse_cidr("192.168.1.77/30").unwrap();
    assert_eq!(ipv4_to_string(block[0]), "192.168.1.76");
}

#[test]
fn a_live_host_keeps_its_open_ports_and_services() {
    let probed = vec![22u16, 80, 3389];
    let open = vec![true, false, true];
    let r = build_scan_result(0x0A000001, Some(3), &probed, &open, Some("h".to_string()), 7);
    assert_eq!(r.ip, "10.0.0.1");
    assert!(r.is_alive);
    assert_eq!(r.open_ports, vec![22, 3389]);
    assert_eq!(r.services.len(), 2);
    assert_eq!(r.services[0].service, "SSH");
    assert_eq!(r.device_type, "workstation");
    assert_eq!(r.hostname, Some("h".to_string()));

    let dead = build_scan_result(0x0A000002, None, &probed, &open, Some("h".to_string()), 7);
    assert!(!dead.is_alive);
    assert!(dead.open_ports.is_empty());
    assert_eq!(dead.hostname, None);
    assert_eq!(dead.device_type, "unknown");
}

#[test]
fn progress_counts_each_recorded_result() {
    let mut state = ScannerState::new();
    start_progress(&mut state, 2);
    let mut completed: usize = 0;
    let r = build_scan_result(1, None, &vec![], &vec![], None, 0);
    let p = record_scan_result(&mut state, r, &mut completed);
    assert_eq!(p.completed, 1);
    assert_eq!(p.total, 2);
    assert_eq!(get_scan_results(&state).len(), 1);
    assert_eq!(identify_service(443).service, "HTTPS");
    assert!(window_full(MAX_CONCURRENT_SCANS));
    assert!(!window_full(MAX_CONCURRENT_SCANS - 1));
}

#[test]
fn refusing_a_slash_8_releases_the_flag_and_keeps_the_progress() {
    let mut state = ScannerState::new();
    let e = prepare_scan(&mut state, "10.0.0.0/8").err().unwrap();
    assert_eq!(e, "CIDR range too large (/8 covers 16777216 hosts). Maximum supported range is /16.");
    assert!(!is_scanning(&state));
    assert_eq!(state.progress.total, 0);
    assert_eq!(state.progress.completed, 0);
}

#[test]
fn a_second_scan_is_refused_and_leaves_the_first_alone() {
    let mut state = ScannerState::new();
    let (_guard, hosts) = prepare_scan(&mut state, "192.168.1.0/30").ok().unwrap();
    assert_eq!(hosts.len(), 4);
    assert_eq!(state.progress.total, 4);
    let mut completed = 0usize;
    let r = build_scan_result(hosts[0], None, &vec![], &vec![], None, 1);
    record_scan_result(&mut state, r, &mut completed);
    let e = prepare_scan(&mut state, "10.0.0.0/24").err().unwrap();
    assert_eq!(e, "Scan already in progress");
    assert!(is_scanning(&state));
    assert_eq!(state.results.len(), 1);
    assert_eq!((state.progress.total, state.progress.completed), (4, 1));
}

#[test]
fn an_invalid_block_after_a_stop_changes_nothing() {
    let mut state = ScannerState::new();
    stop_scan(&mut state);
    let e = prepare_scan(&mut state, "192.168.1.0/33").err().unwrap();
    assert_eq!(e, "Invalid CIDR notation");
    assert!(!is_scanning(&state));
    assert!(state.stop_signal);
    assert!(state.results.is_empty());
    assert_eq!((state.progress.total, state.progress.completed), (0, 0));
}
