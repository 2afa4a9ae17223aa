use quasar::errors::{sanitize_error, user_facing_vault_error};

#[test]
fn user_facing_vault_errors_pass_through_and_internals_do_not() {
    let lockout = "Vault is locked out. Try again in 42 seconds".to_string();
    assert_eq!(user_facing_vault_error(lockout.clone()), lockout);
    // The SFTP file manager resolves its credential on every call; after an auto-lock the
    // user must be told to unlock, not "Vault operation failed" (P7-3 review).
    assert_eq!(user_facing_vault_error("Vault is locked".to_string()), "Vault is locked");
    let blocked = "2 credential(s) can't be decrypted with the current key and would be lost".to_string();
    assert_eq!(user_facing_vault_error(blocked.clone()), blocked);
    assert_eq!(
        user_facing_vault_error("Failed to open database: /home/x/quasar.db".to_string()),
        sanitize_error(String::new(), "vault")
    );
}

#[test]
fn test_sanitize_error_does_not_leak_internal_details() {
    let internal =
        "SQLITE error: no such table: credentials at /home/user/.local/quasar.db".to_string();
    let result = sanitize_error(internal.clone(), "database");
    assert!(!result.contains("SQLITE"));
    assert!(!result.contains("/home/user"));
    assert!(!result.contains("credentials"));
    assert!(result.contains("Database operation failed"));
}

#[test]
fn test_sanitize_error_all_contexts() {
    let cases = vec![
        ("database", "Database operation failed"),
        ("vault", "Vault operation failed"),
        ("ssh", "SSH operation failed"),
        ("network", "Network operation failed"),
        ("sftp", "File transfer failed"),
        ("monitoring", "Monitoring operation failed"),
        ("scanner", "Network scan operation failed"),
        ("credential", "Credential operation failed"),
        ("tailscale", "Tailscale status check failed"),
    ];

    for (context, expected_prefix) in cases {
        let result = sanitize_error("internal error".to_string(), context);
        assert!(
            result.starts_with(expected_prefix),
            "Context '{}' should produce message starting with '{}', got '{}'",
            context,
            expected_prefix,
            result
        );
    }
}

#[test]
fn test_sanitize_error_unknown_context_returns_generic() {
    let result = sanitize_error("something broke".to_string(), "unknown_context");
    assert_eq!(result, "Operation failed. Check logs for details.");
    assert!(!result.contains("something broke"));
}

#[test]
fn scheduled_task_contexts_share_one_message() {
    let a = sanitize_error("x".to_string(), "scheduled task");
    let b = sanitize_error("y".to_string(), "scheduled tasks");
    assert_eq!(a, "Scheduled task operation failed. Check logs for details.");
    assert_eq!(a, b);
    assert_eq!(sanitize_error("z".to_string(), "run task"), "Run task failed. Check logs for details.");
}

#[test]
fn vault_pass_through_needs_the_prefix_at_the_start() {
    assert_eq!(
        user_facing_vault_error("Invalid master password".to_string()),
        "Invalid master password"
    );
    assert_eq!(
        user_facing_vault_error("error: Invalid master password".to_string()),
        "Vault operation failed. Check logs for details."
    );
}
