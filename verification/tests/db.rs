use quasar::db::db_path_in;

#[test]
fn db_path_is_the_one_file_name_in_the_app_dir() {
    let dir = std::path::Path::new("/tmp/quasar-app");
    assert_eq!(
        db_path_in("/tmp/quasar-app", false).unwrap(),
        dir.join("quasar.db").to_str().unwrap()
    );
    assert!(db_path_in("/tmp/quasar-app", false).unwrap().ends_with("quasar.db"));
}

#[test]
fn db_path_joins_with_one_separator() {
    assert_eq!(db_path_in("/tmp/quasar-app/", false).unwrap(), "/tmp/quasar-app/quasar.db");
    assert_eq!(db_path_in("C:\\Users\\me", true).unwrap(), "C:\\Users\\me\\quasar.db");
    assert_eq!(db_path_in("", false).unwrap(), "quasar.db");
}

use quasar::db::{has_required_columns, is_recognized_quasar_database, QUASAR_APPLICATION_ID};

fn table(name: &str, columns: &[&str]) -> (String, Vec<String>) {
    (name.to_string(), columns.iter().map(|c| c.to_string()).collect())
}

#[test]
fn database_recognition_accepts_quasar_application_id() {
    assert!(is_recognized_quasar_database(QUASAR_APPLICATION_ID, &vec![]));
}

#[test]
fn database_recognition_accepts_strict_legacy_schema() {
    let schema = vec![
        table("hosts", &["id", "name", "address", "port"]),
        table("credentials", &["id", "name", "username"]),
        table("vault_settings", &["key", "value"]),
        table("security_audit_log", &["id", "event_type", "action"]),
        table("ssh_known_hosts", &["id", "host", "fingerprint"]),
    ];
    assert!(is_recognized_quasar_database(0, &schema));
    // One marker table is not enough.
    assert!(!is_recognized_quasar_database(0, &schema[..4].to_vec()));
}

#[test]
fn database_recognition_rejects_unrelated_sqlite() {
    let schema = vec![table("random_table", &["id"])];
    assert!(!is_recognized_quasar_database(0, &schema));
    assert!(has_required_columns(&schema, "random_table", &["id"]));
    assert!(!has_required_columns(&schema, "random_table", &["id", "name"]));
    assert!(!has_required_columns(&schema, "missing", &["id"]));
    assert!(has_required_columns(&schema, "missing", &[]));
}

use quasar::db::{
    check_import_source, import_outcome, migration_failure_message, missing_column_statements,
    run_result_columns, sftp_columns, LATEST_SCHEMA_VERSION,
};

#[test]
fn import_rejects_newer_schema_and_unrecognized_files() {
    assert!(check_import_source(true, LATEST_SCHEMA_VERSION).is_ok());
    assert!(check_import_source(true, 3).is_ok());
    assert_eq!(
        check_import_source(true, 15).err(),
        Some("This backup is from a newer version of Quasar (schema 15 > 14). Update Quasar before importing it.".to_string())
    );
    assert_eq!(
        check_import_source(false, 15).err(),
        Some("Source is a valid SQLite file but is not a recognized Quasar backup".to_string())
    );
}

#[test]
fn import_failures_say_what_state_is_left() {
    assert_eq!(migration_failure_message("m".to_string(), None), "m");
    assert_eq!(migration_failure_message("m".to_string(), Some(true)), "m");
    assert!(migration_failure_message("m".to_string(), Some(false)).contains("quasar.db.bak"));
    assert!(import_outcome(Ok(()), None).is_ok());
    assert!(import_outcome(Ok(()), Some(Ok(()))).is_ok());
    assert_eq!(import_outcome(Err("x".to_string()), Some(Err("y".to_string()))).err(), Some("x".to_string()));
    let e = import_outcome(Ok(()), Some(Err("/secret/path".to_string()))).unwrap_err();
    assert!(e.ends_with("Database operation failed. Check logs for details."));
    assert!(!e.contains("/secret/path"));
}

#[test]
fn migration_hooks_add_only_missing_columns() {
    let existing = vec!["id".to_string(), "last_run_error".to_string()];
    let wanted = run_result_columns();
    assert_eq!(
        missing_column_statements(&existing, &wanted),
        vec![
            "ALTER TABLE scheduled_tasks ADD COLUMN last_run_status TEXT",
            "ALTER TABLE scheduled_tasks ADD COLUMN last_run_output TEXT",
        ]
    );
    let all: Vec<String> = sftp_columns().iter().map(|(c, _)| c.to_string()).collect();
    assert!(missing_column_statements(&all, &sftp_columns()).is_empty());
}
