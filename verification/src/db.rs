//! Where the app database lives, and how a database file is recognised as Quasar's.

use vstd::prelude::*;
use crate::tailscale::join_path;
use crate::errors::{sanitize_error, sanitized_message};
use crate::fmt::{decimal, u64_to_string};
use crate::text::{concat, owned, str_eq};

verus! {

/// The app database's file name inside the app data directory: the one definition every
/// path to the database uses.
pub open spec fn db_file_name() -> Seq<char> {
    "quasar.db"@
}

/// The path of the app database inside the directory `app_dir`, joined the way
/// `Path::join` does it (`windows`: with `\` as the separator).
pub fn db_path_in(app_dir: &str, windows: bool) -> (r: Result<String, String>)
    ensures
        r matches Ok(p) && p@ == join_path(app_dir@, db_file_name(), windows),
{
    proof {
        reveal_strlit("quasar.db");
    }
    Ok(crate::tailscale::join_dir_path(app_dir, "quasar.db", windows))
}


/// SQLite `application_id` of a Quasar database ("QSR1").
pub const QUASAR_APPLICATION_ID: i64 = 0x5153_5231;

/// A database's schema: each table's name with the names of its columns.
pub open spec fn columns_of(schema: Seq<(String, Vec<String>)>, table: Seq<char>) -> Set<Seq<char>> {
    Set::new(|c: Seq<char>| exists|i: int, j: int|
        0 <= i < schema.len() && schema[i].0@ == table && 0 <= j < schema[i].1@.len()
            && #[trigger] schema[i].1@[j]@ == c)
}

/// `table` exists in `schema` with every column of `required`.
pub open spec fn has_columns(schema: Seq<(String, Vec<String>)>, table: Seq<char>, required: Seq<Seq<char>>) -> bool {
    forall|k: int| 0 <= k < required.len() ==> columns_of(schema, table).contains(#[trigger] required[k])
}

/// The tables that mark a legacy Quasar database, each with the columns it needs.
pub open spec fn optional_markers() -> Seq<(Seq<char>, Seq<Seq<char>>)> {
    seq![
        ("security_audit_log"@, seq!["id"@, "event_type"@, "action"@]),
        ("ssh_known_hosts"@, seq!["id"@, "host"@, "fingerprint"@]),
        ("metrics_history"@, seq!["id"@, "timestamp"@, "host"@]),
        ("alert_history"@, seq!["id"@, "rule_id"@, "triggered_at"@]),
        ("discovered_hosts"@, seq!["id"@, "ip"@, "last_seen"@]),
        ("host_services"@, seq!["id"@, "host_id"@, "port"@]),
        ("scheduled_tasks"@, seq!["id"@, "name"@, "cron_expression"@]),
    ]
}

/// How many of the first `n` markers `schema` has.
pub open spec fn marker_count(schema: Seq<(String, Vec<String>)>, n: nat) -> nat
    decreases n,
{
    if n == 0 {
        0
    } else {
        marker_count(schema, (n - 1) as nat) + if has_columns(schema, optional_markers()[n - 1].0, optional_markers()[n - 1].1) {
            1nat
        } else {
            0nat
        }
    }
}

/// A database made before the application id was set: the core tables (hosts,
/// credentials, vault settings) with their key columns, and at least two of the other
/// tables Quasar creates.
pub open spec fn legacy_signature(schema: Seq<(String, Vec<String>)>) -> bool {
    &&& has_columns(schema, "hosts"@, seq!["id"@, "name"@, "address"@, "port"@])
    &&& (has_columns(schema, "credentials"@, seq!["id"@, "name"@, "username"@])
        || has_columns(schema, "credentials_new"@, seq!["id"@, "name"@, "username"@]))
    &&& has_columns(schema, "vault_settings"@, seq!["key"@, "value"@])
    &&& marker_count(schema, 7) >= 2
}

pub open spec fn str_views(v: Seq<&str>) -> Seq<Seq<char>> {
    v.map_values(|s: &str| s@)
}

/// Whether `table` has a column named `name`.
fn has_column(schema: &Vec<(String, Vec<String>)>, table: &str, name: &str) -> (r: bool)
    ensures
        r == columns_of(schema@, table@).contains(name@),
{
    let mut i: usize = 0;
    while i < schema.len()
        invariant
            i <= schema@.len(),
            forall|a: int, j: int|
                0 <= a < i && schema@[a].0@ == table@ && 0 <= j < schema@[a].1@.len() ==> #[trigger] schema@[a].1@[j]@ != name@,
        decreases schema@.len() - i,
    {
        if str_eq(schema[i].0.as_str(), table) {
            let cols = &schema[i].1;
            let mut j: usize = 0;
            while j < cols.len()
                invariant
                    i < schema@.len(),
                    *cols == schema@[i as int].1,
                    schema@[i as int].0@ == table@,
                    j <= cols@.len(),
                    forall|t: int| 0 <= t < j ==> #[trigger] cols@[t]@ != name@,
                decreases cols@.len() - j,
            {
                if str_eq(cols[j].as_str(), name) {
                    assert(schema@[i as int].1@[j as int]@ == name@);
                    return true;
                }
                j = j + 1;
            }
        }
        i = i + 1;
    }
    false
}

/// Whether `table` exists in `schema` with every column of `required`.
pub fn has_required_columns(schema: &Vec<(String, Vec<String>)>, table: &str, required: &[&str]) -> (r: bool)
    ensures
        r == has_columns(schema@, table@, str_views(required@)),
{
    let mut k: usize = 0;
    while k < required.len()
        invariant
            k <= required@.len(),
            forall|t: int| 0 <= t < k ==> columns_of(schema@, table@).contains(#[trigger] str_views(required@)[t]),
        decreases required@.len() - k,
    {
        if !has_column(schema, table, required[k]) {
            assert(!columns_of(schema@, table@).contains(str_views(required@)[k as int]));
            return false;
        }
        k = k + 1;
    }
    true
}

/// Whether `schema` has the signature of a Quasar database made before the application
/// id was set.
pub fn has_quasar_legacy_signature(schema: &Vec<(String, Vec<String>)>) -> (r: bool)
    ensures
        r == legacy_signature(schema@),
{
    proof {
        reveal_strlit("hosts");
        reveal_strlit("credentials");
        reveal_strlit("credentials_new");
        reveal_strlit("vault_settings");
    }
    let hosts: [&str; 4] = ["id", "name", "address", "port"];
    let creds: [&str; 3] = ["id", "name", "username"];
    let settings: [&str; 2] = ["key", "value"];
    assert(str_views(hosts@) =~= seq!["id"@, "name"@, "address"@, "port"@]);
    assert(str_views(creds@) =~= seq!["id"@, "name"@, "username"@]);
    assert(str_views(settings@) =~= seq!["key"@, "value"@]);
    let has_hosts = has_required_columns(schema, "hosts", &hosts);
    let has_credentials = has_required_columns(schema, "credentials", &creds)
        || has_required_columns(schema, "credentials_new", &creds);
    let has_settings = has_required_columns(schema, "vault_settings", &settings);
    if !(has_hosts && has_credentials && has_settings) {
        return false;
    }
    let tables: [&str; 7] = [
        "security_audit_log",
        "ssh_known_hosts",
        "metrics_history",
        "alert_history",
        "discovered_hosts",
        "host_services",
        "scheduled_tasks",
    ];
    let m0: [&str; 3] = ["id", "event_type", "action"];
    let m1: [&str; 3] = ["id", "host", "fingerprint"];
    let m2: [&str; 3] = ["id", "timestamp", "host"];
    let m3: [&str; 3] = ["id", "rule_id", "triggered_at"];
    let m4: [&str; 3] = ["id", "ip", "last_seen"];
    let m5: [&str; 3] = ["id", "host_id", "port"];
    let m6: [&str; 3] = ["id", "name", "cron_expression"];
    let mut count: usize = 0;
    let mut n: usize = 0;
    while n < 7
        invariant
            n <= 7,
            count == marker_count(schema@, n as nat),
            count <= n,
            tables@ == seq![
                "security_audit_log",
                "ssh_known_hosts",
                "metrics_history",
                "alert_history",
                "discovered_hosts",
                "host_services",
                "scheduled_tasks",
            ],
            m0@ == seq!["id", "event_type", "action"],
            m1@ == seq!["id", "host", "fingerprint"],
            m2@ == seq!["id", "timestamp", "host"],
            m3@ == seq!["id", "rule_id", "triggered_at"],
            m4@ == seq!["id", "ip", "last_seen"],
            m5@ == seq!["id", "host_id", "port"],
            m6@ == seq!["id", "name", "cron_expression"],
        decreases 7 - n,
    {
        let cols: &[&str] = if n == 0 {
            &m0
        } else if n == 1 {
            &m1
        } else if n == 2 {
            &m2
        } else if n == 3 {
            &m3
        } else if n == 4 {
            &m4
        } else if n == 5 {
            &m5
        } else {
            &m6
        };
        proof {
            assert(str_views(m0@) =~= optional_markers()[0].1);
            assert(str_views(m1@) =~= optional_markers()[1].1);
            assert(str_views(m2@) =~= optional_markers()[2].1);
            assert(str_views(m3@) =~= optional_markers()[3].1);
            assert(str_views(m4@) =~= optional_markers()[4].1);
            assert(str_views(m5@) =~= optional_markers()[5].1);
            assert(str_views(m6@) =~= optional_markers()[6].1);
            assert(str_views(cols@) == optional_markers()[n as int].1);
            assert(tables@[n as int]@ == optional_markers()[n as int].0);
        }
        if has_required_columns(schema, tables[n], cols) {
            count = count + 1;
        }
        n = n + 1;
    }
    count >= 2
}

/// Whether a database is Quasar's: it carries the application id, or (made before the
/// id was set) the legacy signature.
pub fn is_recognized_quasar_database(application_id: i64, schema: &Vec<(String, Vec<String>)>) -> (r: bool)
    ensures
        r == (application_id == QUASAR_APPLICATION_ID || legacy_signature(schema@)),
{
    if application_id == QUASAR_APPLICATION_ID {
        return true;
    }
    has_quasar_legacy_signature(schema)
}


/// The schema version the migrations bring a database to (`user_version`).
pub const LATEST_SCHEMA_VERSION: i64 = 14;

/// Why a backup is refused before anything is replaced, if it is: it isn't Quasar's, or
/// it comes from a newer schema, which the migrations could not handle.
pub open spec fn import_source_error(recognized: bool, source_version: i64) -> Option<Seq<char>> {
    if !recognized {
        Some("Source is a valid SQLite file but is not a recognized Quasar backup"@)
    } else if source_version > LATEST_SCHEMA_VERSION {
        Some("This backup is from a newer version of Quasar (schema "@ + decimal(source_version as nat) + " > 14). Update Quasar before importing it."@)
    } else {
        None
    }
}

/// Checks a backup's recognition and schema version before it is imported.
pub fn check_import_source(recognized: bool, source_version: i64) -> (r: Result<(), String>)
    ensures
        r is Ok <==> import_source_error(recognized, source_version) is None,
        r matches Err(e) ==> import_source_error(recognized, source_version) == Some(e@),
{
    if !recognized {
        return Err(owned("Source is a valid SQLite file but is not a recognized Quasar backup"));
    }
    if source_version > LATEST_SCHEMA_VERSION {
        let head = concat("This backup is from a newer version of Quasar (schema ", u64_to_string(source_version as u64).as_str());
        return Err(concat(head.as_str(), " > 14). Update Quasar before importing it."));
    }
    Ok(())
}

/// The error of an import whose migration failed: the migration's error, unless the
/// previous database could not be put back (`restored` is `None` when there was none
/// to put back).
pub fn migration_failure_message(migrate_err: String, restored: Option<bool>) -> (r: String)
    ensures
        r@ == (if restored == Some(false) {
            "The imported database could not be migrated, and the previous database could not be restored. It is saved as quasar.db.bak in the app data folder: copy that file elsewhere, then import the copy to get it back."@
        } else {
            migrate_err@
        }),
{
    if matches!(restored, Some(false)) {
        owned(
            "The imported database could not be migrated, and the previous database could not be restored. It is saved as quasar.db.bak in the app data folder: copy that file elsewhere, then import the copy to get it back.",
        )
    } else {
        migrate_err
    }
}

/// The result of an import: the replacement's error, else an error when the alert rules
/// of the imported database could not be loaded (`reloaded`), else success.
pub fn import_outcome(replaced: Result<(), String>, reloaded: Option<Result<(), String>>) -> (r: Result<(), String>)
    ensures
        match replaced {
            Err(e) => r matches Err(x) && x@ == e@,
            Ok(()) => match reloaded {
                Some(Err(_)) => r matches Err(x) && x@ == "The database was imported and the vault is locked (unlock it with the imported vault's master password), but its alert rules could not be loaded, so no alert rules are active: "@ + sanitized_message("database"@),
                _ => r is Ok,
            },
        },
{
    replaced?;
    match reloaded {
        Some(Err(e)) => Err(concat(
            "The database was imported and the vault is locked (unlock it with the imported vault's master password), but its alert rules could not be loaded, so no alert rules are active: ",
            sanitize_error(e, "database").as_str(),
        )),
        _ => Ok(()),
    }
}

/// The statements of `wanted` (a column and the statement that adds it) whose column is
/// not among `existing`, in order: what a migration hook runs.
pub open spec fn missing_statements(existing: Seq<String>, wanted: Seq<(&str, &str)>, n: nat) -> Seq<Seq<char>>
    decreases n,
{
    if n == 0 {
        seq![]
    } else {
        let prev = missing_statements(existing, wanted, (n - 1) as nat);
        if exists|i: int| 0 <= i < existing.len() && #[trigger] existing[i]@ == wanted[n - 1].0@ {
            prev
        } else {
            prev.push(wanted[n - 1].1@)
        }
    }
}

/// The statements that add the columns of `wanted` missing from `existing`.
pub fn missing_column_statements<'a>(existing: &Vec<String>, wanted: &Vec<(&'a str, &'a str)>) -> (r: Vec<&'a str>)
    ensures
        str_views(r@) == missing_statements(existing@, wanted@, wanted@.len()),
{
    let mut out: Vec<&'a str> = Vec::new();
    let mut k: usize = 0;
    while k < wanted.len()
        invariant
            k <= wanted@.len(),
            str_views(out@) == missing_statements(existing@, wanted@, k as nat),
        decreases wanted@.len() - k,
    {
        let (col, sql) = wanted[k];
        let mut found = false;
        let mut i: usize = 0;
        while i < existing.len()
            invariant
                i <= existing@.len(),
                col@ == wanted@[k as int].0@,
                found == exists|j: int| 0 <= j < i && #[trigger] existing@[j]@ == col@,
            decreases existing@.len() - i,
        {
            if str_eq(existing[i].as_str(), col) {
                found = true;
            }
            i = i + 1;
        }
        if !found {
            let ghost before = str_views(out@);
            out.push(sql);
            assert(str_views(out@) =~= before.push(wanted@[k as int].1@));
        }
        k = k + 1;
    }
    out
}

pub open spec fn pair_texts(v: Seq<(&str, &str)>) -> Seq<(Seq<char>, Seq<char>)> {
    v.map_values(|p: (&str, &str)| (p.0@, p.1@))
}

/// The run-result columns migration 011 adds when missing.
pub fn run_result_columns() -> (r: Vec<(&'static str, &'static str)>)
    ensures
        pair_texts(r@) == seq![
            ("last_run_status"@, "ALTER TABLE scheduled_tasks ADD COLUMN last_run_status TEXT"@),
            ("last_run_error"@, "ALTER TABLE scheduled_tasks ADD COLUMN last_run_error TEXT"@),
            ("last_run_output"@, "ALTER TABLE scheduled_tasks ADD COLUMN last_run_output TEXT"@),
        ],
{
    let r = vec![
        ("last_run_status", "ALTER TABLE scheduled_tasks ADD COLUMN last_run_status TEXT"),
        ("last_run_error", "ALTER TABLE scheduled_tasks ADD COLUMN last_run_error TEXT"),
        ("last_run_output", "ALTER TABLE scheduled_tasks ADD COLUMN last_run_output TEXT"),
    ];
    assert(pair_texts(r@) =~= seq![
        ("last_run_status"@, "ALTER TABLE scheduled_tasks ADD COLUMN last_run_status TEXT"@),
        ("last_run_error"@, "ALTER TABLE scheduled_tasks ADD COLUMN last_run_error TEXT"@),
        ("last_run_output"@, "ALTER TABLE scheduled_tasks ADD COLUMN last_run_output TEXT"@),
    ]);
    r
}

/// The file-transfer columns migration 012 adds when missing.
pub fn sftp_columns() -> (r: Vec<(&'static str, &'static str)>)
    ensures
        pair_texts(r@) == seq![
            ("task_type"@, "ALTER TABLE scheduled_tasks ADD COLUMN task_type TEXT NOT NULL DEFAULT 'ssh'"@),
            ("local_path"@, "ALTER TABLE scheduled_tasks ADD COLUMN local_path TEXT"@),
            ("remote_path"@, "ALTER TABLE scheduled_tasks ADD COLUMN remote_path TEXT"@),
        ],
{
    let r = vec![
        ("task_type", "ALTER TABLE scheduled_tasks ADD COLUMN task_type TEXT NOT NULL DEFAULT 'ssh'"),
        ("local_path", "ALTER TABLE scheduled_tasks ADD COLUMN local_path TEXT"),
        ("remote_path", "ALTER TABLE scheduled_tasks ADD COLUMN remote_path TEXT"),
    ];
    assert(pair_texts(r@) =~= seq![
        ("task_type"@, "ALTER TABLE scheduled_tasks ADD COLUMN task_type TEXT NOT NULL DEFAULT 'ssh'"@),
        ("local_path"@, "ALTER TABLE scheduled_tasks ADD COLUMN local_path TEXT"@),
        ("remote_path"@, "ALTER TABLE scheduled_tasks ADD COLUMN remote_path TEXT"@),
    ]);
    r
}

} // verus!
