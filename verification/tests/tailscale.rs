use quasar::tailscale::{
    find_tailscale_binary, join_dir_path, normalise_peer, status_from_raw, tailscale_candidates,
    HostOs, RawPeer, RawStatus, RawTailnet, TailscalePeer, TailscaleStatus,
};

fn raw_peer(
    id: &str,
    host_name: &str,
    dns_name: &str,
    ips: &[&str],
    os: &str,
    online: bool,
    exit_node: bool,
    ssh_host_keys: Option<Vec<&str>>,
) -> RawPeer {
    RawPeer {
        id: id.to_string(),
        host_name: host_name.to_string(),
        dns_name: dns_name.to_string(),
        tailscale_ips: ips.iter().map(|s| s.to_string()).collect(),
        os: os.to_string(),
        online,
        exit_node,
        ssh_host_keys: ssh_host_keys.map(|v| v.into_iter().map(|s| s.to_string()).collect()),
    }
}

/// Modelled on real `tailscale status --json` output, as the parser hands it over.
fn fixture(magic_dns_enabled: bool) -> RawStatus {
    RawStatus {
        backend_state: "Running".to_string(),
        magic_dns_suffix: "tail1234.ts.net".to_string(),
        current_tailnet: Some(RawTailnet { magic_dns_enabled }),
        self_node: Some(raw_peer(
            "nSELF",
            "my-laptop",
            "my-laptop.tail1234.ts.net.",
            &["100.64.0.1", "fd7a:115c:a1e0::1"],
            "linux",
            true,
            false,
            None,
        )),
        peer: Some(vec![
            raw_peer(
                "nVPS",
                "vps-a8fa83ff",
                "vps-a8fa83ff.tail1234.ts.net.",
                &["100.64.0.2", "fd7a:115c:a1e0::2"],
                "linux",
                true,
                false,
                Some(vec!["ssh-ed25519 AAAA..."]),
            ),
            raw_peer("nPHONE", "Pixel", "pixel.tail1234.ts.net.", &["100.64.0.3"], "android", false, false, None),
            raw_peer("nV6", "ipv6-only", "", &["fd7a:115c:a1e0::9"], "linux", true, false, None),
            raw_peer(
                "nEXIT",
                "exit-box",
                "exit-box.tail1234.ts.net.",
                &["100.64.0.4"],
                "linux",
                true,
                true,
                Some(vec![]),
            ),
        ]),
    }
}

fn peer<'a>(status: &'a TailscaleStatus, hostname: &str) -> &'a TailscalePeer {
    status
        .peers
        .iter()
        .find(|p| p.hostname == hostname)
        .unwrap_or_else(|| panic!("peer {} missing", hostname))
}

#[test]
fn parses_self_and_peers_with_magic_dns() {
    let status = status_from_raw(fixture(true));
    assert!(status.installed);
    assert_eq!(status.backend_state, "Running");
    assert!(status.magic_dns_enabled);
    assert_eq!(status.magic_dns_suffix.as_deref(), Some("tail1234.ts.net"));

    let me = status.self_node.as_ref().expect("self node");
    assert_eq!(me.hostname, "my-laptop");
    // Trailing dot stripped.
    assert_eq!(me.dns_name, "my-laptop.tail1234.ts.net");
    assert_eq!(me.ipv4.as_deref(), Some("100.64.0.1"));
    assert_eq!(me.preferred_address, "my-laptop.tail1234.ts.net");

    // Self is never in `peers`; the IPv6-only node is dropped.
    assert_eq!(status.peers.len(), 3);
    assert!(status.peers.iter().all(|p| p.id != "nSELF"));
    assert!(status.peers.iter().all(|p| p.hostname != "ipv6-only"));

    let vps = peer(&status, "vps-a8fa83ff");
    assert_eq!(vps.preferred_address, "vps-a8fa83ff.tail1234.ts.net");
    assert_eq!(vps.ipv4.as_deref(), Some("100.64.0.2"));
    assert!(vps.online);
    assert!(vps.tailscale_ssh);
    assert!(!vps.exit_node);
    assert_eq!(vps.os, "linux");
}

#[test]
fn prefers_ipv4_when_magic_dns_disabled() {
    let status = status_from_raw(fixture(false));
    assert!(!status.magic_dns_enabled);
    let vps = peer(&status, "vps-a8fa83ff");
    assert_eq!(vps.preferred_address, "100.64.0.2");
    // The DNS name is still surfaced for matching/display.
    assert_eq!(vps.dns_name, "vps-a8fa83ff.tail1234.ts.net");
}

#[test]
fn empty_ssh_host_keys_means_no_tailscale_ssh() {
    let status = status_from_raw(fixture(true));
    let exit = peer(&status, "exit-box");
    assert!(!exit.tailscale_ssh);
    assert!(exit.exit_node);
    let phone = peer(&status, "Pixel");
    assert!(!phone.tailscale_ssh);
}

#[test]
fn peers_sorted_online_first_then_hostname() {
    let status = status_from_raw(fixture(true));
    let order: Vec<&str> = status.peers.iter().map(|p| p.hostname.as_str()).collect();
    // exit-box and vps-a8fa83ff are online (alphabetical), Pixel is offline.
    assert_eq!(order, vec!["exit-box", "vps-a8fa83ff", "Pixel"]);
}

#[test]
fn backend_state_passthrough_for_needs_login_and_stopped() {
    for state in ["NeedsLogin", "Stopped"] {
        let raw = RawStatus {
            backend_state: state.to_string(),
            magic_dns_suffix: String::new(),
            current_tailnet: None,
            self_node: None,
            peer: None,
        };
        let status = status_from_raw(raw);
        assert!(status.installed);
        assert_eq!(status.backend_state, state);
        assert!(status.peers.is_empty());
        assert!(status.self_node.is_none());
        assert!(status.magic_dns_suffix.is_none());
    }
}

#[test]
fn peer_with_invalid_address_is_dropped() {
    let raw = RawStatus {
        backend_state: "Running".to_string(),
        magic_dns_suffix: "tail1234.ts.net".to_string(),
        current_tailnet: Some(RawTailnet { magic_dns_enabled: true }),
        self_node: None,
        peer: Some(vec![
            raw_peer(
                "nBAD",
                "bad host",
                "bad_host!.tail1234.ts.net.",
                &["999.1.1.1", "not-an-ip"],
                "linux",
                true,
                false,
                None,
            ),
            raw_peer("nBADDNS", "baddns", "bad_dns.tail1234.ts.net.", &["100.64.0.7"], "linux", true, false, None),
        ]),
    };
    let status = status_from_raw(raw);
    // The peer with only invalid addresses is gone entirely...
    assert!(status.peers.iter().all(|p| p.id != "nBAD"));
    // ...while a peer with an invalid DNS name but a valid IPv4 falls back to the IP.
    let baddns = peer(&status, "baddns");
    assert_eq!(baddns.dns_name, "");
    assert_eq!(baddns.preferred_address, "100.64.0.7");
}

#[test]
fn falls_back_to_address_when_hostname_missing() {
    let raw = RawStatus {
        backend_state: "Running".to_string(),
        magic_dns_suffix: String::new(),
        current_tailnet: None,
        self_node: None,
        peer: Some(vec![raw_peer("nX", "", "", &["100.64.0.8"], "", true, false, None)]),
    };
    let status = status_from_raw(raw);
    assert_eq!(status.peers[0].hostname, "100.64.0.8");
}

#[test]
fn sorting_compares_hostnames_without_case() {
    let raw = RawStatus {
        backend_state: "Running".to_string(),
        magic_dns_suffix: String::new(),
        current_tailnet: None,
        self_node: None,
        peer: Some(vec![
            raw_peer("1", "beta", "", &["100.64.0.10"], "", true, false, None),
            raw_peer("2", "Alpha", "", &["100.64.0.11"], "", true, false, None),
            raw_peer("3", "gamma", "", &["100.64.0.12"], "", false, false, None),
            raw_peer("4", "Delta", "", &["100.64.0.13"], "", false, false, None),
        ]),
    };
    let status = status_from_raw(raw);
    let order: Vec<&str> = status.peers.iter().map(|p| p.hostname.as_str()).collect();
    assert_eq!(order, vec!["Alpha", "beta", "Delta", "gamma"]);
}

#[test]
fn a_peer_without_an_ipv4_address_is_shown_only_by_its_dns_name() {
    let p = raw_peer("6", "six", "six.ts.net.", &["fd7a::1"], "linux", true, false, None);
    assert!(normalise_peer(p, false).is_none());
    let p = raw_peer("6", "", "six.ts.net.", &["fd7a::1"], "linux", true, false, None);
    let shown = normalise_peer(p, true).unwrap();
    assert_eq!(shown.preferred_address, "six.ts.net");
    assert_eq!(shown.hostname, "six.ts.net");
    assert_eq!(shown.ipv4, None);
}

#[test]
fn the_binary_is_looked_up_on_path_then_in_install_locations() {
    let dirs = vec!["/usr/local/bin".to_string(), "/opt/bin/".to_string()];
    let c = tailscale_candidates(&dirs, HostOs::Other);
    assert_eq!(c[0], "/usr/local/bin/tailscale");
    assert_eq!(c[1], "/opt/bin/tailscale");
    let found = find_tailscale_binary(&c, &c.iter().map(|p| p.starts_with("/opt")).collect());
    assert_eq!(found.as_deref(), Some("/opt/bin/tailscale"));
    let none = find_tailscale_binary(&c, &vec![false; c.len()]);
    assert_eq!(none, None);
    assert_eq!(join_dir_path("C:\\Tools", "tailscale.exe", true), "C:\\Tools\\tailscale.exe");
}
