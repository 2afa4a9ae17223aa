use quasar::ssh_pool::{
    acquire_action, session_expiry, session_usable, sweep_action, ConnectParams, SlotAction,
    SweepAction, IDLE_TIMEOUT_MS, MAX_LIFETIME_MS,
};

fn params<'a>(host: &'a str, username: &'a str, password: Option<&'a str>) -> ConnectParams<'a> {
    ConnectParams {
        host,
        port: 22,
        username,
        password,
        key_path: None,
        private_key: None,
        key_passphrase: None,
        timeout_secs: 10,
    }
}

#[test]
fn test_same_endpoint_and_auth_share_a_key() {
    let a = params("10.0.0.1", "edward", Some("hunter2")).pool_key();
    let b = params("10.0.0.1", "edward", Some("hunter2")).pool_key();
    assert_eq!(a, b);
}

#[test]
fn test_changed_password_produces_a_different_key() {
    // A rotated or revoked secret must never reuse the old session.
    let old = params("10.0.0.1", "edward", Some("hunter2")).pool_key();
    let new = params("10.0.0.1", "edward", Some("hunter3")).pool_key();
    assert_ne!(old, new);
}

#[test]
fn test_absent_and_empty_credentials_are_distinct() {
    let none = params("10.0.0.1", "edward", None).pool_key();
    let empty = params("10.0.0.1", "edward", Some("")).pool_key();
    assert_ne!(none, empty, "no credential must not collide with an empty one");
}

#[test]
fn test_different_host_user_or_port_do_not_share() {
    let base = params("10.0.0.1", "edward", Some("pw")).pool_key();
    assert_ne!(base, params("10.0.0.2", "edward", Some("pw")).pool_key());
    assert_ne!(base, params("10.0.0.1", "root", Some("pw")).pool_key());

    let mut other_port = params("10.0.0.1", "edward", Some("pw"));
    other_port.port = 2222;
    assert_ne!(base, other_port.pool_key());
}

#[test]
fn test_key_material_fields_are_not_interchangeable() {
    // Length prefixing keeps distinct fields from hashing to the same digest.
    let mut as_path = params("h", "u", None);
    as_path.key_path = Some("secret");
    let mut as_pem = params("h", "u", None);
    as_pem.private_key = Some("secret");
    assert_ne!(as_path.pool_key(), as_pem.pool_key());
}

#[test]
fn test_pool_key_does_not_retain_the_secret() {
    let key = params("10.0.0.1", "edward", Some("super-secret-password")).pool_key();
    let rendered = format!("{:?}", key);
    assert!(
        !rendered.contains("super-secret-password"),
        "the pool key must not carry the plaintext secret"
    );
}

#[test]
fn the_timeout_is_not_part_of_the_key() {
    let a = params("h", "u", Some("p"));
    let mut b = params("h", "u", Some("p"));
    b.timeout_secs = 99;
    assert_eq!(a.pool_key(), b.pool_key());
}

#[test]
fn sessions_are_reused_only_while_fresh() {
    let exp = session_expiry(1_000);
    assert_eq!(exp, 1_000 + MAX_LIFETIME_MS);
    assert!(session_usable(false, 1_000, exp, 2_000));
    assert!(!session_usable(true, 1_000, exp, 2_000));
    assert!(!session_usable(false, 1_000, exp, 1_000 + IDLE_TIMEOUT_MS));
    assert!(!session_usable(false, exp - 1, exp, exp));
    assert_eq!(acquire_action(Some(true)), SlotAction::Reuse);
    assert_eq!(acquire_action(Some(false)), SlotAction::Replace);
    assert_eq!(acquire_action(None), SlotAction::Connect);
    assert_eq!(sweep_action(None), SweepAction::Forget);
    assert_eq!(sweep_action(Some((false, false))), SweepAction::Retire);
    assert_eq!(sweep_action(Some((false, true))), SweepAction::Keep);
    assert_eq!(sweep_action(Some((true, false))), SweepAction::Keep);
}
