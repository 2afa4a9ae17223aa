use quasar::discovery::{discovered_host, receiver_stays, DiscoveryState, PollOutcome};
use quasar::launcher::{check_rdp_address, launch_rdp};
use quasar::ssh_tunnel::{check_tunnel_command, check_tunnel_request, close_result, TunnelInfo, TunnelState};

fn tunnel_info(id: &str, local_port: u16) -> TunnelInfo {
    TunnelInfo {
        id: id.to_string(),
        ssh_host: "h".into(),
        ssh_port: 22,
        local_port,
        remote_host: "r".into(),
        remote_port: 80,
    }
}

#[test]
fn a_tunnel_id_can_not_be_reused_while_active() {
    let mut state = TunnelState::new();
    state.register("t1", tunnel_info("t1", 1080)).unwrap();
    assert!(state.register("t1", tunnel_info("t1", 1080)).is_err());
    assert!(state.in_use("t1"));
    assert!(state.remove("t1"));
    assert!(!state.in_use("t1"));
}

#[test]
fn removing_a_tunnel_signals_its_loop_to_stop() {
    let mut state = TunnelState::new();
    state.register("t1", tunnel_info("t1", 1080)).unwrap();
    // `true` is the signal the tunnel's loop is stopped by.
    assert!(state.remove("t1"));
    // Removing it again, or an id that never existed, reports false.
    assert!(!state.remove("t1"));
    assert!(!state.remove("nope"));
}

#[test]
fn list_reports_every_active_tunnel() {
    let mut state = TunnelState::new();
    assert!(state.list().is_empty());
    state.register("a", tunnel_info("a", 1080)).unwrap();
    state.register("b", tunnel_info("b", 1081)).unwrap();
    let mut ports: Vec<u16> = state.list().iter().map(|t| t.local_port).collect();
    ports.sort_unstable();
    assert_eq!(ports, vec![1080, 1081]);
    state.remove("a");
    let listed = state.list();
    assert_eq!(listed.len(), 1);
    assert_eq!(listed[0].id, "b");
}

#[test]
fn tunnel_requests_are_checked_before_connecting() {
    let mut state = TunnelState::new();
    assert!(check_tunnel_request(&state, "t", "10.0.0.1", 22, "root", 1080, 80).is_ok());
    state.register("t", tunnel_info("t", 1080)).unwrap();
    assert_eq!(
        check_tunnel_request(&state, "t", "10.0.0.1", 22, "root", 1080, 80).err(),
        Some("Tunnel id t is already in use".to_string())
    );
    assert!(check_tunnel_request(&state, "u", "10.0.0.1", 22, "root", 0, 80).is_err());
    assert_eq!(
        check_tunnel_request(&state, "u", "bad host", 22, "root", 1080, 80).err(),
        Some("Invalid SSH host: bad host".to_string())
    );
}

#[test]
fn disconnected_receivers_are_dropped_and_live_ones_kept() {
    let mut receivers = vec![PollOutcome::Timeout, PollOutcome::Disconnected];
    receivers.retain(|o| receiver_stays(*o));
    assert_eq!(receivers.len(), 1, "only the live receiver remains");
    assert!(receiver_stays(PollOutcome::Event));
    let host = discovered_host("box._ssh._tcp.local.".to_string(), Some("10.0.0.2".to_string()), 22).unwrap();
    assert_eq!((host.address.as_str(), host.port, host.service_type.as_str()), ("10.0.0.2", 22, "discovered"));
    assert!(discovered_host("x".to_string(), None, 22).is_none());
    let mut d = DiscoveryState::new();
    assert!(d.try_start());
    assert!(!d.try_start());
    d.request_stop();
    d.finished();
    assert!(d.try_start());
    assert!(!d.stop_requested);
}

#[test]
fn tunnel_commands_check_hosts_then_ports() {
    assert!(check_tunnel_command("10.0.0.1", 22, 1080, "db.internal", 5432).is_ok());
    assert_eq!(
        check_tunnel_command("bad host", 22, 1080, "db", 5432).err(),
        Some("Invalid SSH host format".to_string())
    );
    assert_eq!(
        check_tunnel_command("10.0.0.1", 22, 0, "bad host", 5432).err(),
        Some("Port must be between 1 and 65535".to_string())
    );
    assert_eq!(
        check_tunnel_command("10.0.0.1", 22, 1080, "bad host", 5432).err(),
        Some("Invalid remote host format".to_string())
    );
    assert!(close_result(true).is_ok());
    assert_eq!(close_result(false).err(), Some("Tunnel not found".to_string()));
}

#[test]
fn rdp_targets_are_checked() {
    assert!(check_rdp_address("10.0.0.7").is_ok());
    assert!(check_rdp_address("desk.example").is_ok());
    assert_eq!(check_rdp_address("no way").err(), Some("Invalid host address format".to_string()));
    assert_eq!(launch_rdp("10.0.0.7", false).err(), Some("RDP launch only supported on Windows for MVP".to_string()));
    let cmd = launch_rdp("10.0.0.7", true).ok().unwrap();
    assert_eq!(cmd.program, "mstsc");
    assert_eq!(cmd.args, vec!["/v".to_string(), "10.0.0.7".to_string()]);
}
