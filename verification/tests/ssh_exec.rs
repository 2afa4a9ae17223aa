use quasar::ssh_exec::{parse_metric_counts, parse_pair, split_metric_fields, RunFailure};

const METRIC_FIELD_DELIMITER: &str = "__QUASAR_FIELD__";

/// Builds a probe response the way the remote shell would emit it.
fn joined(fields: &[&str]) -> String {
    fields.join(&format!("\n{}\n", METRIC_FIELD_DELIMITER))
}

#[test]
fn test_only_undelivered_commands_on_a_reused_session_are_retried() {
    let channel_open = RunFailure::ChannelOpen("dead session".to_string());
    let after_delivery = RunFailure::AfterDelivery("exited with status 1".to_string());

    // The one safe case: a cached session died before the command was sent.
    assert!(channel_open.is_retryable(true));

    // A freshly built session failing is a genuine error, not a stale handle.
    assert!(!channel_open.is_retryable(false));

    // Never retry once the command may have reached the server.
    assert!(!after_delivery.is_retryable(true));
    assert!(!after_delivery.is_retryable(false));
    assert_eq!(after_delivery.into_message(), "exited with status 1");
}

#[test]
fn test_split_metric_fields_returns_one_entry_per_probe() {
    let output = joined(&["12.5", "2048 8192", "40 500", "86400", "0.5 0.6 0.7"]);
    let fields = split_metric_fields(&output);

    assert_eq!(fields.len(), 5);
    assert_eq!(fields[0], "12.5");
    assert_eq!(fields[1], "2048 8192");
    assert_eq!(fields[4], "0.5 0.6 0.7");
}

#[test]
fn test_split_metric_fields_keeps_positions_when_a_probe_produces_nothing() {
    // A probe that is unsupported on the remote host emits no output, but the
    // delimiters still land, so later fields must not shift into its slot.
    let output = joined(&["12.5", "", "40 500", "", "0.5 0.6 0.7"]);
    let fields = split_metric_fields(&output);

    assert_eq!(fields.len(), 5);
    assert_eq!(fields[1], "", "missing memory probe must stay empty");
    assert_eq!(fields[2], "40 500", "disk must not shift into memory's slot");
    assert_eq!(fields[3], "");
    assert_eq!(fields[4], "0.5 0.6 0.7");
}

#[test]
fn test_split_metric_fields_trims_surrounding_whitespace() {
    let output = format!("  12.5 \n{}\n  2048 8192  \n", METRIC_FIELD_DELIMITER);
    let fields = split_metric_fields(&output);

    assert_eq!(fields[0], "12.5");
    assert_eq!(fields[1], "2048 8192");
}

/// Verbatim output captured from a real Linux host running the combined probe.
const REAL_HOST_OUTPUT: &str = "3.3\n\
     __QUASAR_FIELD__\n\
     3192 15909\n\
     __QUASAR_FIELD__\n\
     45 119\n\
     __QUASAR_FIELD__\n\
     944918\n\
     __QUASAR_FIELD__\n\
     0.87 0.84 0.76\n";

#[test]
fn test_parses_real_host_output() {
    let fields = split_metric_fields(REAL_HOST_OUTPUT);
    assert_eq!(fields.len(), 5);
    // The fractional fields are read as floats by the application.
    assert_eq!(fields[0].parse::<f32>().ok(), Some(3.3));
    let load: Vec<f32> = fields[4].split_whitespace().filter_map(|p| p.parse().ok()).collect();
    assert_eq!(load, vec![0.87, 0.84, 0.76]);
    let metrics = parse_metric_counts(&fields);
    assert_eq!(metrics.memory_used_mb, Some(3192));
    assert_eq!(metrics.memory_total_mb, Some(15909));
    assert_eq!(metrics.disk_used_gb, Some(45));
    assert_eq!(metrics.disk_total_gb, Some(119));
    assert_eq!(metrics.uptime_seconds, Some(944918));
}

#[test]
fn test_parse_metric_fields_tolerates_unsupported_probes() {
    // A host without /proc still reports cpu, memory and disk.
    let output = "3.3\n__QUASAR_FIELD__\n3192 15909\n__QUASAR_FIELD__\n\
                  45 119\n__QUASAR_FIELD__\n\n__QUASAR_FIELD__\n";
    let fields = split_metric_fields(output);
    assert_eq!(fields[0].parse::<f32>().ok(), Some(3.3));
    assert_eq!(fields.get(4).map(|s| s.as_str()).unwrap_or(""), "");
    let metrics = parse_metric_counts(&fields);

    assert_eq!(metrics.memory_used_mb, Some(3192));
    assert_eq!(metrics.disk_used_gb, Some(45));
    assert_eq!(metrics.uptime_seconds, None);
}

#[test]
fn test_parse_metric_fields_on_no_output_yields_all_none() {
    let fields = split_metric_fields("");
    assert!(fields[0].parse::<f32>().is_err());
    let metrics = parse_metric_counts(&fields);
    assert!(metrics.memory_used_mb.is_none());
    assert!(metrics.disk_total_gb.is_none());
    assert!(metrics.uptime_seconds.is_none());
}

#[test]
fn test_split_metric_fields_on_empty_output() {
    // A host that returned nothing at all yields a single empty field.
    let fields = split_metric_fields("");
    assert_eq!(fields, vec![""]);
}

#[test]
fn pairs_need_two_whole_numbers() {
    assert_eq!(parse_pair(Some("10 20 30")), (Some(10), Some(20)));
    assert_eq!(parse_pair(Some("10")), (None, None));
    assert_eq!(parse_pair(Some("10 x")), (None, None));
    assert_eq!(parse_pair(Some("+7 8")), (Some(7), Some(8)));
    assert_eq!(parse_pair(None), (None, None));
    assert_eq!(parse_pair(Some("18446744073709551616 1")), (None, None));
}
