use quasar::health::{has_auth, preflight_result, ssh_health_result, HealthCheckResult};

#[test]
fn test_health_check_result_unreachable() {
    let result = HealthCheckResult {
        host: "192.168.255.255".to_string(),
        reachable: false,
        latency_ms: None,
        metrics: None,
        error: Some("Host unreachable".to_string()),
    };

    assert!(!result.reachable);
    assert!(result.error.is_some());
}

#[test]
fn test_health_check_result_reachable() {
    let result = HealthCheckResult {
        host: "192.168.1.1".to_string(),
        reachable: true,
        latency_ms: Some(10),
        metrics: None,
        error: None,
    };

    assert!(result.reachable);
    assert_eq!(result.latency_ms, Some(10));
    assert!(result.error.is_none());
}

#[test]
fn a_failed_ping_ends_the_check() {
    let r = ssh_health_result("h", Some(Err("Ping timeout".to_string())), None);
    assert!(!r.reachable);
    assert_eq!(r.error, Some("Host unreachable".to_string()));
    let r = ssh_health_result("h", Some(Ok(7)), None);
    assert!(r.reachable && r.latency_ms == Some(7) && r.error.is_none());
    let r = ssh_health_result("h", None, None);
    assert!(r.reachable && r.latency_ms.is_none());
    let p = preflight_result("h", Err("Ping error: x".to_string()));
    assert_eq!(p.error, Some("Ping error: x".to_string()));
    assert!(preflight_result("h", Ok(3)).reachable);
    assert!(has_auth(None, Some("~/.ssh/id"), None));
    assert!(!has_auth(None, None, None));
}
