//! Error messages shown to the user. Internal details (paths, SQL, library errors) never
//! reach the frontend: each context maps to one generic message (OWASP ASVS v4.0 7.4.1,
//! CWE-209). Vault errors that only tell the user what to do pass through verbatim.

use vstd::prelude::*;
use crate::text::{chars_contain, chars_starts_with, contains_seq, owned, starts_with, str_chars, str_eq};

verus! {

/// The generic message for an error in `context`.
pub open spec fn sanitized_message(context: Seq<char>) -> Seq<char> {
    if context == "database"@ {
        "Database operation failed. Check logs for details."@
    } else if context == "vault"@ {
        "Vault operation failed. Check logs for details."@
    } else if context == "ssh"@ {
        "SSH operation failed. Check logs for details."@
    } else if context == "network"@ {
        "Network operation failed. Check logs for details."@
    } else if context == "sftp"@ {
        "File transfer failed. Check logs for details."@
    } else if context == "monitoring"@ {
        "Monitoring operation failed. Check logs for details."@
    } else if context == "scanner"@ {
        "Network scan operation failed. Check logs for details."@
    } else if context == "credential"@ {
        "Credential operation failed. Check logs for details."@
    } else if context == "scheduled task"@ || context == "scheduled tasks"@ {
        "Scheduled task operation failed. Check logs for details."@
    } else if context == "run task"@ {
        "Run task failed. Check logs for details."@
    } else if context == "tailscale"@ {
        "Tailscale status check failed. Check logs for details."@
    } else {
        "Operation failed. Check logs for details."@
    }
}

/// Replaces an internal error with the generic message for its context. The internal
/// text is not part of the result.
pub fn sanitize_error(internal_error: String, context: &str) -> (r: String)
    ensures
        r@ == sanitized_message(context@),
{
    let _ = internal_error;
    if str_eq(context, "database") {
        owned("Database operation failed. Check logs for details.")
    } else if str_eq(context, "vault") {
        owned("Vault operation failed. Check logs for details.")
    } else if str_eq(context, "ssh") {
        owned("SSH operation failed. Check logs for details.")
    } else if str_eq(context, "network") {
        owned("Network operation failed. Check logs for details.")
    } else if str_eq(context, "sftp") {
        owned("File transfer failed. Check logs for details.")
    } else if str_eq(context, "monitoring") {
        owned("Monitoring operation failed. Check logs for details.")
    } else if str_eq(context, "scanner") {
        owned("Network scan operation failed. Check logs for details.")
    } else if str_eq(context, "credential") {
        owned("Credential operation failed. Check logs for details.")
    } else if str_eq(context, "scheduled task") || str_eq(context, "scheduled tasks") {
        owned("Scheduled task operation failed. Check logs for details.")
    } else if str_eq(context, "run task") {
        owned("Run task failed. Check logs for details.")
    } else if str_eq(context, "tailscale") {
        owned("Tailscale status check failed. Check logs for details.")
    } else {
        owned("Operation failed. Check logs for details.")
    }
}

/// Vault errors the user must see verbatim: wrong password, lockout, a blocked password
/// change and why. They carry no internals.
pub open spec fn is_user_facing_vault_error(e: Seq<char>) -> bool {
    ||| starts_with(e, "Invalid master password"@)
    ||| starts_with(e, "Too many failed attempts"@)
    ||| starts_with(e, "Vault is locked"@)
    ||| starts_with(e, "Invalid current password"@)
    ||| starts_with(e, "Master password must"@)
    ||| starts_with(e, "Vault must be unlocked"@)
    ||| starts_with(e, "Vault key does not match"@)
    ||| starts_with(e, "Auto-lock timeout must"@)
    ||| contains_seq(e, "can't be decrypted with the current key"@)
}

fn has_prefix(e: &Vec<char>, p: &str) -> (b: bool)
    ensures
        b == starts_with(e@, p@),
{
    let pv = str_chars(p);
    chars_starts_with(e, &pv)
}

/// A vault error for the user: passed through when it only tells the user what to do,
/// otherwise the generic vault message.
pub fn user_facing_vault_error(internal_error: String) -> (r: String)
    ensures
        r@ == (if is_user_facing_vault_error(internal_error@) {
            internal_error@
        } else {
            sanitized_message("vault"@)
        }),
{
    let e = str_chars(internal_error.as_str());
    let needle = str_chars("can't be decrypted with the current key");
    let pass = has_prefix(&e, "Invalid master password") || has_prefix(&e, "Too many failed attempts")
        || has_prefix(&e, "Vault is locked") || has_prefix(&e, "Invalid current password")
        || has_prefix(&e, "Master password must") || has_prefix(&e, "Vault must be unlocked")
        || has_prefix(&e, "Vault key does not match") || has_prefix(&e, "Auto-lock timeout must")
        || chars_contain(&e, &needle);
    if pass {
        internal_error
    } else {
        sanitize_error(internal_error, "vault")
    }
}

} // verus!
