use quasar::alerts::{
    validate_rule, AlertEngine, AlertRule, AlertSeverity, ComparisonOperator, MetricType,
    RuleObservation, MAX_ACTIVE_ALERTS, MAX_COOLDOWN_SECONDS,
};

fn rule(id: &str, metric: MetricType, threshold: f64, severity: AlertSeverity) -> AlertRule {
    AlertRule {
        id: id.to_string(),
        metric,
        operator: ComparisonOperator::GreaterThan,
        threshold_bits: threshold.to_bits(),
        severity,
        enabled: true,
        cooldown_seconds: 300,
    }
}

/// What the monitoring task works out for a `>` rule and the current value.
fn observe(value: f64, threshold: f64) -> RuleObservation {
    RuleObservation {
        triggered: value > threshold,
        alert_message: format!("value {:.1}% > {:.1}%", value, threshold),
        recovery_message: format!("value back to {:.1}%", value),
    }
}

#[test]
fn monitoring_test_alert_engine_add_rule() {
    let mut engine = AlertEngine::new();
    let r = rule("test-1", MetricType::CpuUsage, 80.0, AlertSeverity::Warning);
    engine.add_rule(r).unwrap();

    let rules = engine.get_rules();
    assert_eq!(rules.len(), 1);
    assert_eq!(rules[0].id, "test-1");
}

#[test]
fn monitoring_test_alert_engine_evaluation() {
    let mut engine = AlertEngine::new();
    engine.add_rule(rule("test-2", MetricType::CpuUsage, 50.0, AlertSeverity::Critical)).unwrap();

    let (alerts, _recoveries) = engine.evaluate(&vec![observe(75.0, 50.0)], 1234567890, 0);
    assert_eq!(alerts.len(), 1);
    assert!(matches!(alerts[0].severity, AlertSeverity::Critical));
}

#[test]
fn monitoring_test_alert_engine_no_trigger() {
    let mut engine = AlertEngine::new();
    engine.add_rule(rule("test-3", MetricType::CpuUsage, 90.0, AlertSeverity::Warning)).unwrap();

    let (alerts, _recoveries) = engine.evaluate(&vec![observe(50.0, 90.0)], 1234567890, 0);
    assert!(alerts.is_empty());
}

#[test]
fn monitoring_test_alert_acknowledge_and_dismiss() {
    let mut engine = AlertEngine::new();
    engine.add_rule(rule("test-4", MetricType::MemoryUsage, 0.0, AlertSeverity::Info)).unwrap();

    let (_alerts, _recoveries) = engine.evaluate(&vec![observe(100.0, 0.0)], 1234567890, 0);
    let alerts = engine.get_active_alerts();
    assert_eq!(alerts.len(), 1);

    engine.acknowledge_alert(&alerts[0].id);
    let alerts = engine.get_active_alerts();
    assert!(alerts[0].acknowledged);

    engine.dismiss_alert(&alerts[0].id);
    let alerts = engine.get_active_alerts();
    assert!(alerts.is_empty());
}

#[test]
fn invalid_alert_rules_are_rejected() {
    let mut engine = AlertEngine::new();
    assert!(engine.add_rule(rule("", MetricType::CpuUsage, 50.0, AlertSeverity::Info)).is_err());
    assert!(engine.add_rule(rule("x", MetricType::CpuUsage, f64::NAN, AlertSeverity::Info)).is_err());
    assert!(engine.add_rule(rule("x", MetricType::CpuUsage, 150.0, AlertSeverity::Info)).is_err());
    let mut slow = rule("x", MetricType::CpuUsage, 50.0, AlertSeverity::Info);
    slow.cooldown_seconds = MAX_COOLDOWN_SECONDS + 1;
    assert!(engine.add_rule(slow).is_err());
    assert!(engine.get_rules().is_empty());
}

#[test]
fn threshold_edges_are_percentages() {
    assert!(validate_rule(&rule("a", MetricType::DiskUsage, 0.0, AlertSeverity::Info)).is_ok());
    assert!(validate_rule(&rule("a", MetricType::DiskUsage, -0.0, AlertSeverity::Info)).is_ok());
    assert!(validate_rule(&rule("a", MetricType::DiskUsage, 100.0, AlertSeverity::Info)).is_ok());
    assert!(validate_rule(&rule("a", MetricType::DiskUsage, 100.000001, AlertSeverity::Info)).is_err());
    assert!(validate_rule(&rule("a", MetricType::DiskUsage, -1.0, AlertSeverity::Info)).is_err());
    assert!(validate_rule(&rule("a", MetricType::DiskUsage, f64::INFINITY, AlertSeverity::Info)).is_err());
    assert_eq!(
        validate_rule(&rule("   ", MetricType::DiskUsage, 1.0, AlertSeverity::Info)).err(),
        Some("Alert rule id must be 1-64 characters".to_string())
    );
}

#[test]
fn a_repeat_within_the_cooldown_is_suppressed_and_recovery_is_reported() {
    let mut engine = AlertEngine::new();
    engine.add_rule(rule("cpu", MetricType::CpuUsage, 50.0, AlertSeverity::Warning)).unwrap();
    let (a, r) = engine.evaluate(&vec![observe(90.0, 50.0)], 10, 1_000);
    assert_eq!((a.len(), r.len()), (1, 0));
    assert_eq!(a[0].rule_id, "cpu");
    assert_eq!(a[0].timestamp, 10);
    assert!(!a[0].acknowledged);
    // Still high, within the cooldown: nothing new.
    let (a, r) = engine.evaluate(&vec![observe(91.0, 50.0)], 11, 2_000);
    assert_eq!((a.len(), r.len()), (0, 0));
    // Back to normal: one recovery.
    let (a, r) = engine.evaluate(&vec![observe(10.0, 50.0)], 12, 3_000);
    assert_eq!((a.len(), r.len()), (0, 1));
    assert_eq!(r[0].rule_id, "cpu");
    assert_eq!(r[0].recovered_at, 12);
    // A second recovery is not reported.
    let (_, r) = engine.evaluate(&vec![observe(10.0, 50.0)], 13, 4_000);
    assert!(r.is_empty());
}

#[test]
fn disabled_rules_never_fire() {
    let mut engine = AlertEngine::new();
    let mut r = rule("off", MetricType::CpuUsage, 10.0, AlertSeverity::Warning);
    r.enabled = false;
    engine.add_rule(r).unwrap();
    let (a, _) = engine.evaluate(&vec![observe(99.0, 10.0)], 1, 1);
    assert!(a.is_empty());
}

#[test]
fn the_active_list_keeps_the_newest_alerts() {
    let mut engine = AlertEngine::new();
    let mut r = rule("r", MetricType::CpuUsage, 10.0, AlertSeverity::Warning);
    r.cooldown_seconds = 0;
    engine.add_rule(r).unwrap();
    for i in 0..(MAX_ACTIVE_ALERTS as u64 + 5) {
        // Alternate high and low so every high reading raises a new alert.
        engine.evaluate(&vec![observe(99.0, 10.0)], i, i * 10_000);
        engine.evaluate(&vec![observe(1.0, 10.0)], i, i * 10_000 + 1);
    }
    let active = engine.get_active_alerts();
    assert_eq!(active.len(), MAX_ACTIVE_ALERTS);
    assert_eq!(active[MAX_ACTIVE_ALERTS - 1].timestamp, MAX_ACTIVE_ALERTS as u64 + 4);
}

#[test]
fn replacing_a_rule_keeps_one_copy() {
    let mut engine = AlertEngine::new();
    engine.add_rule(rule("a", MetricType::CpuUsage, 10.0, AlertSeverity::Warning)).unwrap();
    engine.add_rule(rule("b", MetricType::CpuUsage, 10.0, AlertSeverity::Warning)).unwrap();
    engine.add_rule(rule("a", MetricType::DiskUsage, 20.0, AlertSeverity::Critical)).unwrap();
    let rules = engine.get_rules();
    assert_eq!(rules.len(), 2);
    assert_eq!(rules[1].id, "a");
    assert_eq!(rules[1].metric, MetricType::DiskUsage);
    engine.remove_rule("a");
    assert_eq!(engine.get_rules().len(), 1);
}

#[test]
fn metrics_are_saved_every_sixth_tick_and_pruned_daily() {
    use_schedule();
}

fn use_schedule() {
    let mut s = quasar::monitoring::PersistSchedule::new();
    let mut saves = Vec::new();
    let mut cleanups = 0;
    for n in 1..=(quasar::monitoring::CLEANUP_INTERVAL_TICKS as u64) {
        let w = s.tick();
        if w.save_metrics {
            saves.push(n);
        }
        if w.cleanup {
            cleanups += 1;
            assert_eq!(n, 17280);
        }
    }
    assert_eq!(&saves[..3], &[6, 12, 18]);
    assert_eq!(saves.len(), 2880);
    assert_eq!(cleanups, 1);
}

#[test]
fn mod_test_alert_engine_add_rule() {
    let mut engine = AlertEngine::new();
    engine.add_rule(rule("test-1", MetricType::CpuUsage, 80.0, AlertSeverity::Warning)).unwrap();

    let rules = engine.get_rules();
    assert_eq!(rules.len(), 1);
    assert_eq!(rules[0].id, "test-1");
}

#[test]
fn mod_test_alert_engine_evaluation() {
    let mut engine = AlertEngine::new();
    engine.add_rule(rule("test-2", MetricType::CpuUsage, 50.0, AlertSeverity::Critical)).unwrap();

    let (alerts, _recoveries) = engine.evaluate(&vec![observe(75.0, 50.0)], 1234567890, 0);
    assert_eq!(alerts.len(), 1);
    assert!(matches!(alerts[0].severity, AlertSeverity::Critical));
}

#[test]
fn mod_test_alert_engine_no_trigger() {
    let mut engine = AlertEngine::new();
    engine.add_rule(rule("test-3", MetricType::CpuUsage, 90.0, AlertSeverity::Warning)).unwrap();

    let (alerts, _recoveries) = engine.evaluate(&vec![observe(50.0, 90.0)], 1234567890, 0);
    assert!(alerts.is_empty());
}

#[test]
fn mod_test_alert_acknowledge_and_dismiss() {
    let mut engine = AlertEngine::new();
    engine.add_rule(rule("test-4", MetricType::MemoryUsage, 0.0, AlertSeverity::Info)).unwrap();

    let (_alerts, _recoveries) = engine.evaluate(&vec![observe(100.0, 0.0)], 1234567890, 0);
    let alerts = engine.get_active_alerts();
    assert_eq!(alerts.len(), 1);

    engine.acknowledge_alert(&alerts[0].id);
    let alerts = engine.get_active_alerts();
    assert!(alerts[0].acknowledged);

    engine.dismiss_alert(&alerts[0].id);
    let alerts = engine.get_active_alerts();
    assert!(alerts.is_empty());
}

#[test]
fn alerts_from_before_a_suspend_are_not_persisted() {
    let mut engine = AlertEngine::new();
    let before = engine.generation();
    engine.suspend();
    assert!(!engine.is_current(before), "stale results are dropped");
    let current = engine.generation();
    assert!(engine.is_current(current));
    engine.suspend(); // the import's reload
    assert!(!engine.is_current(current), "and then finds its results stale");
    assert!(engine.is_current(engine.generation()));
}

#[test]
fn reload_forgets_the_previous_triggered_state() {
    let mut shared = rule("shared-id", MetricType::CpuUsage, 50.0, AlertSeverity::Warning);
    shared.cooldown_seconds = 0;
    let mut engine = AlertEngine::new();
    engine.attach_store("quasar_alert_reload.db".to_string(), vec![]);
    engine.add_rule(shared.copy()).unwrap();
    let (alerts, _) = engine.evaluate(&vec![observe(90.0, 50.0)], 10, 0);
    assert_eq!(alerts.len(), 1, "fixture: the rule triggers before the reload");

    // A reload: everything is dropped, then the new database's rules are loaded.
    engine.suspend();
    assert_eq!(engine.attach_store("quasar_alert_reload.db".to_string(), vec![shared]), 1);
    let (_, recoveries) = engine.evaluate(&vec![observe(10.0, 50.0)], 20, 1000);
    assert!(recoveries.is_empty(), "no recovery for an alert of the previous database");
}

#[test]
fn stale_tick_results_are_dropped() {
    let mut engine = AlertEngine::new();
    engine.add_rule(rule("r", MetricType::CpuUsage, 50.0, AlertSeverity::Warning)).unwrap();
    let generation = engine.generation();
    let (alerts, recoveries) = engine.evaluate(&vec![observe(90.0, 50.0)], 1, 0);
    assert_eq!(alerts.len(), 1);
    let kept = engine.persist_if_current(generation, alerts, recoveries).unwrap();
    assert_eq!(kept.0.len(), 1);
    engine.suspend();
    assert!(engine.persist_if_current(generation, kept.0, kept.1).is_none());
}
