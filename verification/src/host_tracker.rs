//! Hosts found by network scans, as the database keeps them, and the queries that read
//! them back.

use vstd::prelude::*;
use crate::fmt::{decimal, u64_to_string};
use crate::scanner::ServiceInfo;
use crate::sys::new_uuid;
use crate::text::concat;

verus! {

/// A host seen by one or more scans.
pub struct DiscoveredHost {
    pub id: String,
    pub ip: String,
    pub hostname: Option<String>,
    pub mac_address: Option<String>,
    pub device_type: String,
    pub vendor: Option<String>,
    pub first_seen: i64,
    pub last_seen: i64,
    pub scan_count: i32,
    pub services: Vec<ServiceInfo>,
}

/// How a scan result is written: a host already stored keeps its id and first sighting
/// and counts one more scan; a new host gets a fresh id, is first seen now and has been
/// scanned once.
pub enum HostWrite {
    Update { id: String, scan_count: i32 },
    Insert { id: String, first_seen: i64, scan_count: i32 },
}

/// The write for a host seen at `last_seen`, given the id and scan count stored for its
/// address, if any.
pub fn host_write(existing: Option<(String, i32)>, last_seen: i64) -> (r: HostWrite)
    requires
        existing matches Some(e) ==> e.1 < i32::MAX,
    ensures
        match existing {
            Some(e) => r matches HostWrite::Update { id, scan_count } && id == e.0 && scan_count
                == e.1 + 1,
            None => r matches HostWrite::Insert { first_seen, scan_count, .. } && first_seen
                == last_seen && scan_count == 1,
        },
{
    match existing {
        Some((id, count)) => HostWrite::Update { id, scan_count: count + 1 },
        None => HostWrite::Insert { id: new_uuid(), first_seen: last_seen, scan_count: 1 },
    }
}

/// The id a detected service is stored under: the one already stored for the host, port
/// and protocol, else a fresh one. The flag tells whether the row is new.
pub fn service_row_id(existing: Option<String>) -> (r: (String, bool))
    ensures
        match existing {
            Some(id) => r.0 == id && !r.1,
            None => r.1,
        },
{
    match existing {
        Some(id) => (id, false),
        None => (new_uuid(), true),
    }
}

/// The discovered hosts kept in the database at `db_path`.
pub struct HostTracker {
    pub db_path: String,
}

/// The columns a discovered host is read from, in order.
pub open spec fn host_columns() -> Seq<char> {
    "SELECT id, ip, hostname, mac_address, device_type, vendor, first_seen, last_seen, scan_count FROM discovered_hosts"@
}

impl HostTracker {
    pub fn new(db_path: String) -> (r: Self)
        ensures
            r.db_path@ == db_path@,
    {
        HostTracker { db_path }
    }

    /// The query that lists discovered hosts, most recently seen first, at most `limit`
    /// of them when a limit is given.
    pub fn list_hosts_query(limit: Option<u64>) -> (r: String)
        ensures
            r@ == host_columns() + " ORDER BY last_seen DESC"@ + match limit {
                Some(n) => " LIMIT "@ + decimal(n as nat),
                None => seq![],
            },
    {
        let base = concat(
            "SELECT id, ip, hostname, mac_address, device_type, vendor, first_seen, last_seen, scan_count FROM discovered_hosts",
            " ORDER BY last_seen DESC",
        );
        match limit {
            Some(n) => {
                let with_limit = concat(base.as_str(), " LIMIT ");
                concat(with_limit.as_str(), u64_to_string(n).as_str())
            },
            None => {
                assert(base@ + seq![] =~= base@);
                base
            },
        }
    }

    /// The `LIKE` pattern that finds `query` anywhere in a column.
    pub fn search_pattern(query: &str) -> (r: String)
        ensures
            r@ == "%"@ + query@ + "%"@,
    {
        concat(concat("%", query).as_str(), "%")
    }
}

} // verus!
