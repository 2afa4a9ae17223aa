use quasar::native_confirm::TrustStatus;
use quasar::ssh_auth::{auth_result, expand_tilde, key_source, try_password, KeySource};
use quasar::ssh::{
    idle_sessions, interactive_decision, should_flush, validate_connect_target,
    HostKeyApprovalState, InteractiveDecision, PresentedHostKey, SshState, SSH_IDLE_TIMEOUT_MS,
};

fn presented(host: &str) -> PresentedHostKey {
    PresentedHostKey {
        host: host.to_string(),
        port: 22,
        fingerprint: format!("SHA256:{}", host),
        key_type: "ssh-key".to_string(),
        key_bytes: vec![1, 2, 3],
        old_fingerprint: None,
    }
}

#[test]
fn rejected_keys_are_refused_without_a_prompt() {
    assert_eq!(interactive_decision(true, TrustStatus::Trusted), InteractiveDecision::Accept);
    assert_eq!(interactive_decision(false, TrustStatus::Rejected), InteractiveDecision::Refuse);
    assert_eq!(interactive_decision(false, TrustStatus::Unknown), InteractiveDecision::Prompt);
    assert_eq!(interactive_decision(false, TrustStatus::Changed), InteractiveDecision::Prompt);
}

/// Accepting a changed key needs a native confirmation; a first-seen key doesn't.
#[test]
fn only_changed_keys_carry_a_native_warning() {
    let mut state = HostKeyApprovalState::new();
    let fresh = state.register(presented("a"));
    assert_eq!(state.changed_key_warning(&fresh).unwrap(), None);
    let mut changed = presented("b");
    changed.old_fingerprint = Some("SHA256:old".to_string());
    let id = state.register(changed);
    let warning = state.changed_key_warning(&id).unwrap().unwrap();
    assert!(warning.contains("SHA256:old") && warning.contains("SHA256:b"));
    assert!(state.changed_key_warning("missing").is_err());
}

#[test]
fn a_pending_approval_is_answered_once() {
    let mut state = HostKeyApprovalState::new();
    let request_id = state.register(presented("real.host"));
    let key = state.take(&request_id).unwrap();
    // The key persisted is the one the handshake presented.
    assert_eq!(key.host, "real.host");
    assert_eq!(key.fingerprint, "SHA256:real.host");
    assert_eq!(key.key_bytes, vec![1, 2, 3]);
    assert_eq!(
        state.take(&request_id).err(),
        Some("Host key approval request is no longer pending".to_string())
    );
}

#[test]
fn request_ids_are_fresh() {
    let mut state = HostKeyApprovalState::new();
    let a = state.register(presented("h"));
    let b = state.register(presented("h"));
    assert_ne!(a, b);
    state.cancel(&a);
    assert!(state.take(&a).is_err());
    assert!(state.take(&b).is_ok());
}

#[test]
fn pending_connection_cancellation_is_tracked() {
    let mut state = SshState::new();
    state.begin_pending_connection("session-1", false).unwrap();
    assert!(state.mark_pending_cancelled("session-1"));
    assert!(state.is_pending_cancelled("session-1"));
    state.finish_pending_connection("session-1");
    assert!(state.mark_pending_cancelled("session-1"));
}

#[test]
fn cancelled_tombstone_blocks_a_late_connection_start() {
    let mut state = SshState::new();

    assert!(state.mark_pending_cancelled("session-2"));
    assert_eq!(
        state.begin_pending_connection("session-2", false).unwrap_err(),
        "Session connection was cancelled"
    );
    state.begin_pending_connection("session-2", false).unwrap();
    assert_eq!(
        state.begin_pending_connection("session-2", false).unwrap_err(),
        "Session is already connecting"
    );
    assert_eq!(
        state.begin_pending_connection("session-3", true).unwrap_err(),
        "Session already exists"
    );
}

#[test]
fn connect_targets_are_checked() {
    assert!(validate_connect_target("10.0.0.1", "root", 22).is_ok());
    assert!(validate_connect_target("db.example.com", "root", 22).is_ok());
    assert!(validate_connect_target("10.0.0.1", "root", 0).is_err());
    assert!(validate_connect_target("10.0.0.1", "ro ot", 22).is_err());
    assert_eq!(
        validate_connect_target("bad host!", "root", 22).err(),
        Some("Invalid host format: bad host!".to_string())
    );
}

#[test]
fn output_is_flushed_at_line_ends_or_when_large() {
    assert!(should_flush(0, b"abc\n"));
    assert!(should_flush(0, b"abc\r"));
    assert!(!should_flush(10, b"abc"));
    assert!(should_flush(4096, b""));
}

#[test]
fn sftp_needs_a_password() {
    assert!(quasar::sftp::require_password_auth("pw").is_ok());
    assert_eq!(
        quasar::sftp::require_password_auth("").err(),
        Some("SFTP requires password-based authentication. SSH key authentication is not yet supported for SFTP operations.".to_string())
    );
}

#[test]
fn idle_sessions_are_reaped_after_thirty_minutes() {
    let now = 10 * SSH_IDLE_TIMEOUT_MS;
    let activity = vec![
        ("a".to_string(), now - SSH_IDLE_TIMEOUT_MS - 1),
        ("b".to_string(), now - SSH_IDLE_TIMEOUT_MS),
        ("c".to_string(), now + 5),
        ("d".to_string(), 0),
    ];
    assert_eq!(idle_sessions(&activity, now), vec!["a".to_string(), "d".to_string()]);
}

#[test]
fn keys_are_tried_before_passwords() {
    assert!(matches!(key_source(Some("~/.ssh/id"), Some("PEM")), KeySource::File(p) if p == "~/.ssh/id"));
    assert!(matches!(key_source(None, Some("PEM")), KeySource::Inline(p) if p == "PEM"));
    assert!(matches!(key_source(None, None), KeySource::Absent));
    assert_eq!(expand_tilde("~/.ssh/id", Some("/home/u")), "/home/u/.ssh/id");
    assert_eq!(expand_tilde("~/.ssh/id", None), "~/.ssh/id");
    assert_eq!(expand_tilde("/etc/key", Some("/home/u")), "/etc/key");
    assert!(!try_password(Some(true), true));
    assert!(try_password(Some(false), true));
    assert!(!try_password(None, false));
    assert!(auth_result(Some(true), None).is_ok());
    assert!(auth_result(Some(false), Some(true)).is_ok());
    assert_eq!(auth_result(None, Some(false)).err(), Some("Authentication failed".to_string()));
    assert_eq!(auth_result(Some(false), None).err(), Some("No password or SSH key provided".to_string()));
}

#[test]
fn a_refused_target_does_not_stay_pending() {
    let mut state = SshState::new();
    let e = state.begin_connect("s1", false, "bad host!", "root", 22).unwrap_err();
    assert_eq!(e, "Invalid host format: bad host!");
    // Nothing is left pending, so the same id can start again.
    assert!(state.begin_connect("s1", false, "10.0.0.5", "root", 22).is_ok());
    assert_eq!(state.begin_connect("s1", false, "10.0.0.5", "root", 22).unwrap_err(), "Session is already connecting");
    assert_eq!(state.begin_connect("s2", true, "10.0.0.5", "root", 22).unwrap_err(), "Session already exists");
}
