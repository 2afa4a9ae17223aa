use quasar::host_tracker::{host_write, service_row_id, HostTracker, HostWrite};
use quasar::saved_hosts::{
    delete_batches, delete_hosts_statement, effective_port, remote_host_metric, stored_username,
    transfers_moved_by_host_edit, SavedHost,
};
use quasar::ssh_exec::MetricCounts;

#[test]
fn moving_a_host_with_scheduled_transfers_is_detected() {
    let current = || Some(("db1.example".to_string(), 22i64));
    // No transfer uses the host yet.
    assert_eq!(transfers_moved_by_host_edit(current(), "evil.example", "ssh", Some(22), 0), None);
    // Same destination (case, default port).
    assert_eq!(transfers_moved_by_host_edit(current(), "DB1.example ", "ssh", None, 1), None);
    assert_eq!(
        transfers_moved_by_host_edit(current(), "evil.example", "ssh", Some(22), 1),
        Some(("db1.example".to_string(), 22, 1))
    );
    assert_eq!(
        transfers_moved_by_host_edit(current(), "db1.example", "ssh", Some(2222), 1),
        Some(("db1.example".to_string(), 22, 1))
    );
    // An unknown host.
    assert_eq!(transfers_moved_by_host_edit(None, "x", "ssh", None, 3), None);
}

#[test]
fn rdp_hosts_default_to_their_port() {
    assert_eq!(effective_port("RDP", None), 3389);
    assert_eq!(effective_port("ssh", None), 22);
    assert_eq!(effective_port("rdp", Some(4000)), 4000);
    assert_eq!(stored_username(Some("")), None);
    assert_eq!(stored_username(Some("root")), Some("root".to_string()));
    assert_eq!(stored_username(None), None);
}

#[test]
fn hosts_are_deleted_in_batches() {
    assert_eq!(delete_hosts_statement(3), "DELETE FROM hosts WHERE id IN (?,?,?)");
    assert_eq!(delete_batches(0), Vec::<usize>::new());
    assert_eq!(delete_batches(1000), vec![999, 1]);
    assert_eq!(delete_batches(999), vec![999]);
}

fn saved(id: &str) -> SavedHost {
    SavedHost {
        id: id.to_string(),
        name: "box".to_string(),
        address: "db.example".to_string(),
        port: 22,
        username: None,
        protocol: "ssh".to_string(),
        credential_id: None,
    }
}

fn counts() -> MetricCounts {
    MetricCounts {
        memory_used_mb: Some(1),
        memory_total_mb: Some(2),
        disk_used_gb: None,
        disk_total_gb: None,
        uptime_seconds: Some(3),
    }
}

#[test]
fn probe_results_say_why_a_host_is_unreachable() {
    let up = remote_host_metric(saved("a"), Some(Ok(12)), Some(counts()));
    assert!(up.reachable);
    assert_eq!(up.latency_ms, Some(12));
    assert_eq!(up.error, None);
    assert_eq!(up.metrics.map(|m| m.uptime_seconds), Some(Some(3)));
    let down = remote_host_metric(saved("b"), Some(Err("Ping timeout".to_string())), Some(counts()));
    assert!(!down.reachable);
    assert_eq!(down.error, Some("Ping timeout".to_string()));
    assert!(down.metrics.is_none());
    let unknown = remote_host_metric(saved("c"), None, None);
    assert_eq!(unknown.error, Some("Could not resolve hostname".to_string()));
    assert_eq!(unknown.id, "c");
}

#[test]
fn discovered_hosts_count_their_scans() {
    match host_write(Some(("id-1".to_string(), 4)), 99) {
        HostWrite::Update { id, scan_count } => assert_eq!((id.as_str(), scan_count), ("id-1", 5)),
        HostWrite::Insert { .. } => panic!("a known host is updated"),
    }
    match host_write(None, 99) {
        HostWrite::Insert { id, first_seen, scan_count } => {
            assert_eq!((first_seen, scan_count), (99, 1));
            assert_eq!(id.len(), 36);
        }
        HostWrite::Update { .. } => panic!("a new host is inserted"),
    }
    assert_eq!(service_row_id(Some("s".to_string())), ("s".to_string(), false));
    assert!(service_row_id(None).1);
    assert_eq!(
        HostTracker::list_hosts_query(Some(5)),
        "SELECT id, ip, hostname, mac_address, device_type, vendor, first_seen, last_seen, scan_count FROM discovered_hosts ORDER BY last_seen DESC LIMIT 5"
    );
    assert_eq!(HostTracker::search_pattern("10.0"), "%10.0%");
}
