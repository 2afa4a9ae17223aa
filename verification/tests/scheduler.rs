use quasar::local_paths::Intent;
use quasar::scheduler::{
    check_cron_expression, host_protocol_runs_tasks, is_due, is_due_checked, record_run, run_result,
    run_status, task_action, task_local_intent, task_transfer_unchanged, truncate_output,
    validate_scheduled_task, InFlight, SchedulerState, StoredTransfer, TaskAction, TaskRow, TaskRunResult,
    CHECK_INTERVAL_SECS, MAX_OUTPUT_LEN,
};

fn stored(p: &str, t: &str) -> Option<StoredTransfer> {
    Some(StoredTransfer {
        local_path: Some(p.to_string()),
        task_type: Some(t.to_string()),
        host_id: "h1".to_string(),
        remote_path: Some("/r".to_string()),
    })
}

#[test]
fn in_flight_claims_are_exclusive_until_dropped() {
    let mut in_flight = InFlight::new();
    let first = in_flight.claim("sched-test-claim").unwrap();
    assert!(in_flight.claim("sched-test-claim").is_none());
    assert!(in_flight.claim("sched-test-other").is_some());
    first.release(&mut in_flight);
    assert!(in_flight.claim("sched-test-claim").is_some());
}

#[test]
fn scheduled_task_path_exemption_requires_same_type() {
    assert_eq!(task_local_intent("sftp_upload"), Some(Intent::Read));
    assert_eq!(task_local_intent("sftp_download"), Some(Intent::Write));
    assert_eq!(task_local_intent("ssh"), None);
    let same = |s| task_transfer_unchanged(s, "/a", "sftp_upload", "h1", Some("/r"));
    assert!(same(stored("/a", "sftp_upload")));
    assert!(!task_transfer_unchanged(stored("/a", "sftp_upload"), "/a", "sftp_download", "h1", Some("/r")));
    assert!(!task_transfer_unchanged(stored("/a", "sftp_upload"), "/b", "sftp_upload", "h1", Some("/r")));
    assert!(!same(None));
    assert!(!same(Some(StoredTransfer {
        local_path: None,
        task_type: Some("ssh".into()),
        host_id: "h1".into(),
        remote_path: None,
    })));
    // A new destination (host or remote path) needs a new pick too.
    assert!(!task_transfer_unchanged(stored("/a", "sftp_upload"), "/a", "sftp_upload", "evil", Some("/r")));
    assert!(!task_transfer_unchanged(stored("/a", "sftp_upload"), "/a", "sftp_upload", "h1", Some("/tmp/x")));
    assert!(!task_transfer_unchanged(stored("/a", "sftp_upload"), "/a", "sftp_upload", "h1", None));
}

#[test]
fn scheduled_task_validation() {
    let ok = |t: Option<&str>, cmd: &str, lp: Option<&str>, rp: Option<&str>| {
        validate_scheduled_task("backup", cmd, t, lp, rp, Some("ssh"))
    };
    assert_eq!(ok(None, "uptime", None, None).unwrap(), "ssh");
    assert!(ok(Some("SFTP_UPLOAD"), "uptime", None, None).unwrap_err().contains("Unknown task type"));
    assert!(ok(Some("ssh"), "   ", None, None).is_err());
    assert!(ok(Some("sftp_upload"), "", Some("/tmp/a"), None).is_err());
    assert_eq!(ok(Some("sftp_upload"), "", Some("/tmp/a"), Some("/srv/a")).unwrap(), "sftp_upload");
    assert!(validate_scheduled_task("t", "uptime", None, None, None, None)
        .unwrap_err()
        .contains("Host not found"));
    assert!(validate_scheduled_task("", "uptime", None, None, None, Some("ssh")).is_err());
    // Inventory-only hosts (database, API, other) can't run tasks.
    for protocol in ["database", "api", "other", "rdp"] {
        assert!(validate_scheduled_task("t", "uptime", None, None, None, Some(protocol))
            .unwrap_err()
            .contains("SSH host"));
    }
}

#[test]
fn tasks_only_run_against_ssh_hosts() {
    assert!(host_protocol_runs_tasks(" SSH "));
    assert!(host_protocol_runs_tasks("ssh"));
    assert!(!host_protocol_runs_tasks("rdp"));
    assert!(!host_protocol_runs_tasks("database"));
}

#[test]
fn cron_grammar_contract() {
    for ok in ["0 0 9 * * *", "0 */5 * * * *", "0 0 9 * * Mon-Fri", "0 30 2 1 * *", "0 0 9 * * * 2030"] {
        assert!(check_cron_expression(ok).is_ok(), "should accept {}", ok);
    }
    for bad in ["*/5 * * * *", "0 60 * * * *", "0 0 24 * * *", "not cron"] {
        let e = check_cron_expression(bad).unwrap_err();
        assert!(e.starts_with("Invalid cron expression: "), "should reject {}", bad);
    }
}

#[test]
fn scheduler_test_is_due() {
    // 6-field cron: sec min hour day month dow. "0 0 9 * * *" = daily 9:00 UTC.
    // 2024-01-01T00:00:00Z = 1704067200; 9:00 that day = 1704099600.
    let nine = 1_704_099_600i64;
    assert!(is_due("0 0 9 * * *", Some(nine - 2 * 3600), nine));
    assert!(!is_due("0 0 9 * * *", Some(nine - 2 * 3600), nine - 1));
    assert!(!is_due("0 0 9 * * *", Some(nine), nine + 60));
    // Never run: looked up from two check intervals before now.
    assert!(is_due("0 0 9 * * *", None, nine + 2 * CHECK_INTERVAL_SECS - 1));
    assert!(!is_due("0 0 9 * * *", None, nine + 2 * CHECK_INTERVAL_SECS + 1));
    assert!(!is_due("not cron", None, nine));
    assert_eq!(is_due_checked("0 0 9 * * *", None, i64::MIN), None);
    assert_eq!(is_due_checked("0 0 9 * * *", Some(nine - 7200), nine), Some(true));
}

#[test]
fn scheduler_test_set_run_result_truncates_long_output() {
    let long = "x".repeat(5000);
    let stored = truncate_output(&long);
    assert!(stored.len() <= MAX_OUTPUT_LEN + 3);
    assert_eq!(stored, format!("{}...", "x".repeat(MAX_OUTPUT_LEN)));
    assert_eq!(truncate_output("short"), "short");
}

#[test]
fn test_set_run_result_truncates_multibyte_output_without_panicking() {
    // 'é' is two bytes and straddles the cut point.
    let long = format!("{}{}", "a".repeat(MAX_OUTPUT_LEN - 1), "é".repeat(10));
    let stored = truncate_output(&long);
    assert!(stored.len() <= MAX_OUTPUT_LEN + 3);
    assert_eq!(stored, format!("{}...", "a".repeat(MAX_OUTPUT_LEN - 1)));
}

#[test]
fn actions_and_results_follow_the_task_type() {
    assert!(matches!(task_action("ssh", None, None), Ok(TaskAction::Ssh)));
    assert_eq!(
        task_action("sftp_upload", Some("/l"), None).err(),
        Some("SFTP upload requires local_path and remote_path".to_string())
    );
    assert_eq!(
        task_action("ftp", None, None).err(),
        Some("Unknown task type: ftp".to_string())
    );
    let up = task_action("sftp_upload", Some("/l"), Some("/r")).unwrap();
    let r = run_result(&up, Ok("ignored".to_string()));
    assert!(r.success);
    assert_eq!(r.output, Some("Upload completed.".to_string()));
    let r = run_result(&TaskAction::Ssh, Ok("hello".to_string()));
    assert_eq!(r.output, Some("hello".to_string()));
    let r = run_result(&TaskAction::Ssh, Err("boom".to_string()));
    assert!(!r.success);
    assert_eq!(r.error, Some("boom".to_string()));
    assert_eq!(run_status(true), "success");
    assert_eq!(run_status(false), "failure");
}

fn every_second_task(id: &str) -> TaskRow {
    TaskRow {
        id: id.to_string(),
        name: id.to_string(),
        cron_expression: "* * * * * *".to_string(),
        host_id: "host-1".to_string(),
        command: "true".to_string(),
        credential_id: None,
        enabled: 1,
        last_run_at: None,
        created_at: 0,
        updated_at: 0,
        task_type: "ssh".to_string(),
        local_path: None,
        remote_path: None,
    }
}

#[test]
fn due_runs_never_overlap() {
    let mut state = SchedulerState::new();
    let mut in_flight = InFlight::new();
    let tasks = vec![every_second_task("slow"), every_second_task("fast")];
    let t0 = 1_704_099_600i64;
    let runs = state.plan_due_runs_checked(&tasks, t0, &mut in_flight).unwrap();
    assert_eq!(runs.iter().map(|r| r.0).collect::<Vec<_>>(), vec![0, 1]);
    let mut guards = Vec::new();
    for (i, g) in runs {
        state.record_start(&tasks[i].id, t0);
        guards.push((i, g));
    }
    // The fast run ends; the slow one is still running at the next tick.
    let (_, fast) = guards.pop().unwrap();
    fast.release(&mut in_flight);
    let t1 = t0 + CHECK_INTERVAL_SECS + 1;
    let runs = state.plan_due_runs_checked(&tasks, t1, &mut in_flight).unwrap();
    assert_eq!(runs.iter().map(|r| r.0).collect::<Vec<_>>(), vec![1]);
    assert!(in_flight.claim("slow").is_none(), "Run now is refused too");
}

#[test]
fn mod_test_is_due() {
    let nine = 1_704_099_600i64;
    assert!(is_due("0 0 9 * * *", Some(nine - 2 * 3600), nine + 60));
    assert_eq!(is_due_checked("0 0 9 * * *", Some(nine - 2 * 3600), nine), Some(true));
}

#[test]
fn mod_test_set_run_result_truncates_long_output() {
    let long = "x".repeat(5000);
    let stored = truncate_output(&long);
    assert!(stored.len() <= MAX_OUTPUT_LEN + 3);
    assert!(stored.ends_with("..."));
}

#[test]
fn the_last_representable_second_is_not_looked_up() {
    // chrono's last representable second: the cron query would step past it.
    let last = 8_210_266_876_799i64;
    assert_eq!(is_due_checked("0 0 9 * * *", Some(last), last), None);
    assert_eq!(is_due_checked("0 0 9 * * *", Some(last - 1), last), Some(false));
    // A schedule that does not parse is never due, whatever the times.
    assert_eq!(is_due_checked("not cron", Some(last), last), Some(false));
}

#[test]
fn a_run_is_recorded_only_when_its_host_was_found() {
    assert!(record_run(None, 100).is_none());
    let ok = TaskRunResult { success: true, output: Some("x".repeat(5000)), error: None };
    let rec = record_run(Some(Ok(ok)), 100).unwrap();
    assert_eq!((rec.ran_at, rec.status.as_str()), (100, "success"));
    assert_eq!(rec.output.unwrap(), format!("{}...", "x".repeat(MAX_OUTPUT_LEN)));
    let failed = record_run(Some(Err("no route".to_string())), 7).unwrap();
    assert_eq!((failed.status.as_str(), failed.error.as_deref(), failed.output), ("failure", Some("no route"), None));
}

#[test]
fn chrono_represents_exactly_the_stated_seconds() {
    let first = -8_334_601_228_800i64;
    let last = 8_210_266_876_799i64;
    assert!(chrono::DateTime::from_timestamp(first, 0).is_some());
    assert!(chrono::DateTime::from_timestamp(first - 1, 0).is_none());
    assert!(chrono::DateTime::from_timestamp(last, 0).is_some());
    assert!(chrono::DateTime::from_timestamp(last + 1, 0).is_none());
    // The last second can be looked up from only when the schedule does not parse.
    assert_eq!(is_due_checked("0 0 9 * * *", Some(last), 0), None);
    // From the first second the schedule is looked up normally.
    assert!(is_due_checked("0 0 9 * * *", Some(first), 0).is_some());
}
