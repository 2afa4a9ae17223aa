use quasar::native_confirm::{
    accepted, display_text, host_change_needs_confirm, trust_change_needs_confirm, DialogGate,
    TrustStatus, DECLINED, DECLINE_COOLDOWN_MS, MIN_HUMAN_RESPONSE_MS,
};

#[test]
fn instant_answers_do_not_confirm() {
    assert!(!accepted(true, 50), "an Enter already in flight");
    assert!(accepted(true, MIN_HUMAN_RESPONSE_MS));
    assert!(!accepted(false, 10_000));
}

#[test]
fn one_dialog_at_a_time_and_a_cooldown_after_decline() {
    let mut gate = DialogGate::new();
    let now: u64 = 1_000_000;
    gate.begin_dialog(now).unwrap();
    assert!(gate.begin_dialog(now).is_err(), "a second dialog is refused while one is open");
    gate.end_dialog(false, now);
    assert_eq!(gate.begin_dialog(now + 10).unwrap_err(), DECLINED, "refused during the cooldown");
    gate.last_decline = None;
    gate.begin_dialog(now + 20).unwrap();
    gate.end_dialog(true, now + 30);
}

#[test]
fn dialog_text_from_the_webview_is_neutralised() {
    let fake = "x'?\n\nRoutine re-check. Click Reveal to continue.";
    assert!(!display_text(fake).contains('\n'));
    assert_eq!(display_text(&"a".repeat(100)).chars().count(), 65);
    assert_eq!(display_text("  db1\t "), "db1");
}

#[test]
fn loosening_or_moving_a_binding_needs_confirmation() {
    // No change requested, or binding an unbound credential: narrows only.
    assert!(!host_change_needs_confirm(Some("db1"), None));
    assert!(!host_change_needs_confirm(None, Some("db1")));
    assert!(!host_change_needs_confirm(Some(""), Some("db1")));
    assert!(!host_change_needs_confirm(Some("DB1 "), Some("db1")));
    // Moving or clearing a binding.
    assert!(host_change_needs_confirm(Some("db1"), Some("evil.example")));
    assert!(host_change_needs_confirm(Some("db1"), Some("")));
}

#[test]
fn only_restricting_trust_changes_skip_confirmation() {
    for current in [None, Some(TrustStatus::Trusted), Some(TrustStatus::Unknown), Some(TrustStatus::Changed)] {
        assert!(!trust_change_needs_confirm(current.as_ref(), &TrustStatus::Rejected));
        assert!(!trust_change_needs_confirm(current.as_ref(), &TrustStatus::Unknown));
        assert!(!trust_change_needs_confirm(current.as_ref(), &TrustStatus::Changed));
        assert!(trust_change_needs_confirm(current.as_ref(), &TrustStatus::Trusted));
    }
    // Leaving Rejected in any direction asks.
    let rejected = Some(TrustStatus::Rejected);
    assert!(trust_change_needs_confirm(rejected.as_ref(), &TrustStatus::Unknown));
    assert!(trust_change_needs_confirm(rejected.as_ref(), &TrustStatus::Changed));
    assert!(trust_change_needs_confirm(rejected.as_ref(), &TrustStatus::Trusted));
    assert!(!trust_change_needs_confirm(rejected.as_ref(), &TrustStatus::Rejected));
}

#[test]
fn the_decline_cooldown_ends() {
    let mut gate = DialogGate::new();
    gate.begin_dialog(5).unwrap();
    gate.end_dialog(false, 100);
    assert!(gate.begin_dialog(100 + DECLINE_COOLDOWN_MS - 1).is_err());
    assert!(gate.begin_dialog(100 + DECLINE_COOLDOWN_MS).is_ok());
}

#[test]
fn display_text_truncates_with_an_ellipsis() {
    let shown = display_text(&"b".repeat(64));
    assert_eq!(shown, "b".repeat(64));
    let long = display_text(&"c".repeat(70));
    assert!(long.ends_with('…'));
}
