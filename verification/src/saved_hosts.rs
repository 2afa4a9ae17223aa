//! Saved hosts: their default ports, when editing one moves the scheduled file transfers
//! that use it, and the statements that delete them in batches.

use vstd::prelude::*;
use crate::ssh_exec::MetricCounts;
use crate::text::{chars_eq_ignore_ascii_case, concat, eq_ignore_ascii_case, owned, push_char, str_chars, trim, trim_chars};

verus! {

/// A host the user saved.
pub struct SavedHost {
    pub id: String,
    pub name: String,
    pub address: String,
    pub port: i64,
    pub username: Option<String>,
    pub protocol: String,
    /// The vault credential monitoring uses to read SSH metrics, if any.
    pub credential_id: Option<String>,
}

/// Reachability of a saved host as the Monitoring view shows it. `metrics` holds the
/// counters read over SSH when a monitoring credential is linked.
pub struct RemoteHostMetric {
    pub id: String,
    pub name: String,
    pub address: String,
    pub port: i64,
    pub reachable: bool,
    pub latency_ms: Option<u32>,
    pub error: Option<String>,
    pub metrics: Option<MetricCounts>,
}

/// The result of probing `host`: `ping` is `None` when its name did not resolve, else the
/// ping's round trip in milliseconds or its error; `metrics` is what SSH gave, kept only
/// for a host that answered.
pub fn remote_host_metric(
    host: SavedHost,
    ping: Option<Result<u32, String>>,
    metrics: Option<MetricCounts>,
) -> (r: RemoteHostMetric)
    ensures
        r.id == host.id,
        r.name == host.name,
        r.address == host.address,
        r.port == host.port,
        r.reachable == (ping matches Some(Ok(_))),
        r.latency_ms == (match ping {
            Some(Ok(ms)) => Some(ms),
            _ => None::<u32>,
        }),
        match ping {
            None => r.error matches Some(e) && e@ == "Could not resolve hostname"@,
            Some(Err(e)) => r.error matches Some(x) && x@ == e@,
            Some(Ok(_)) => r.error is None,
        },
        r.metrics == (if ping matches Some(Ok(_)) { metrics } else { None::<MetricCounts> }),
{
    let (reachable, latency_ms, error, kept) = match ping {
        Some(Ok(ms)) => (true, Some(ms), None, metrics),
        Some(Err(e)) => (false, None, Some(e), None),
        None => (false, None, Some(owned("Could not resolve hostname")), None),
    };
    RemoteHostMetric {
        id: host.id,
        name: host.name,
        address: host.address,
        port: host.port,
        reachable,
        latency_ms,
        error,
        metrics: kept,
    }
}

/// The port of a saved host stored without one: 3389 for RDP (in any case), else 22.
pub open spec fn default_port(protocol: Seq<char>) -> u16 {
    if eq_ignore_ascii_case(protocol, "rdp"@) {
        3389
    } else {
        22
    }
}

/// The port to store: the one given, else the protocol's default.
pub fn effective_port(protocol: &str, port: Option<u16>) -> (r: u16)
    ensures
        r == match port {
            Some(p) => p,
            None => default_port(protocol@),
        },
{
    match port {
        Some(p) => p,
        None => {
            let rdp = str_chars("rdp");
            proof {
                reveal_strlit("rdp");
            }
            if chars_eq_ignore_ascii_case(&str_chars(protocol), &rdp) {
                3389
            } else {
                22
            }
        },
    }
}

/// A user name as stored: an empty one is no user name.
pub fn stored_username(username: Option<&str>) -> (r: Option<String>)
    ensures
        match username {
            Some(u) => if u@.len() == 0 {
                r is None
            } else {
                r matches Some(s) && s@ == u@
            },
            None => r is None,
        },
{
    match username {
        Some(u) => {
            if u.is_empty() {
                None
            } else {
                Some(owned(u))
            }
        },
        None => None,
    }
}

/// Whether an edit to `address` and `port` moves a host now at `current_address` and
/// `current_port`: the addresses differ (ignoring surrounding space and ASCII case) or the
/// ports do.
pub open spec fn edit_moves_host(current_address: Seq<char>, current_port: i64, address: Seq<char>, port: u16) -> bool {
    !(eq_ignore_ascii_case(trim(current_address), trim(address)) && current_port == port as i64)
}

/// The saved host an edit would move, with the scheduled file transfers that would follow
/// it: its current address and port (0 if the stored port is out of range) and the number
/// of transfers. `None` when the host isn't stored, the edit keeps its destination, or no
/// transfer uses it. `current` is the stored address and port, `transfers` the number of
/// scheduled SFTP tasks on the host.
pub fn transfers_moved_by_host_edit(
    current: Option<(String, i64)>,
    address: &str,
    protocol: &str,
    port: Option<u16>,
    transfers: u64,
) -> (r: Option<(String, u16, u64)>)
    ensures
        match current {
            None => r is None,
            Some((a, p)) => {
                let new_port = match port {
                    Some(x) => x,
                    None => default_port(protocol@),
                };
                if !edit_moves_host(a@, p, address@, new_port) || transfers == 0 {
                    r is None
                } else {
                    r matches Some((ra, rp, rn)) && ra@ == a@ && rp == (if 0 <= p <= 65535 {
                        p as u16
                    } else {
                        0u16
                    }) && rn == transfers
                }
            },
        },
{
    let new_port = effective_port(protocol, port);
    match current {
        None => None,
        Some((current_address, current_port)) => {
            let same_address = chars_eq_ignore_ascii_case(
                &trim_chars(&str_chars(current_address.as_str())),
                &trim_chars(&str_chars(address)),
            );
            if same_address && current_port == new_port as i64 {
                return None;
            }
            if transfers == 0 {
                return None;
            }
            let p: u16 = if 0 <= current_port && current_port <= 65535 { current_port as u16 } else { 0 };
            Some((current_address, p, transfers))
        },
    }
}

/// How many ids one delete statement takes (SQLite's default bound on parameters).
pub const DELETE_BATCH: usize = 999;

/// `?` placeholders, `n` of them, separated by commas.
pub open spec fn placeholders(n: nat) -> Seq<char>
    decreases n,
{
    if n == 0 {
        seq![]
    } else if n == 1 {
        seq!['?']
    } else {
        placeholders((n - 1) as nat) + seq![',', '?']
    }
}

/// The statement that deletes the saved hosts with `n` ids.
pub open spec fn delete_statement(n: nat) -> Seq<char> {
    "DELETE FROM hosts WHERE id IN ("@ + placeholders(n) + ")"@
}

/// The statement that deletes `n` saved hosts by id.
pub fn delete_hosts_statement(n: usize) -> (r: String)
    ensures
        r@ == delete_statement(n as nat),
{
    let mut p = String::new();
    let mut i: usize = 0;
    while i < n
        invariant
            i <= n,
            p@ == placeholders(i as nat),
        decreases n - i,
    {
        if i > 0 {
            push_char(&mut p, ',');
        }
        push_char(&mut p, '?');
        i = i + 1;
    }
    concat(concat("DELETE FROM hosts WHERE id IN (", p.as_str()).as_str(), ")")
}

/// The sizes of the delete batches for `n` ids: full batches of `DELETE_BATCH`, then the
/// rest.
pub fn delete_batches(n: usize) -> (r: Vec<usize>)
    ensures
        forall|i: int| 0 <= i < r@.len() ==> 0 < #[trigger] r@[i] <= DELETE_BATCH,
        forall|i: int| 0 <= i < r@.len() - 1 ==> #[trigger] r@[i] == DELETE_BATCH,
        r@.len() == (n + DELETE_BATCH - 1) / (DELETE_BATCH as int),
        sum_of(r@) == n,
{
    let mut out: Vec<usize> = Vec::new();
    let mut left = n;
    while left > 0
        invariant
            left <= n,
            forall|i: int| 0 <= i < out@.len() ==> #[trigger] out@[i] == DELETE_BATCH,
            sum_of(out@) + left == n,
            out@.len() * DELETE_BATCH + left == n,
        decreases left,
    {
        let b = if left > DELETE_BATCH { DELETE_BATCH } else { left };
        proof {
            lemma_sum_push(out@, b);
        }
        if left > DELETE_BATCH {
            out.push(b);
        } else {
            out.push(b);
            left = 0;
            assert(out@.len() == (n + DELETE_BATCH - 1) / (DELETE_BATCH as int)) by (nonlinear_arith)
                requires
                    (out@.len() - 1) * 999 + b == n,
                    0 < b <= 999,
            ;
            return out;
        }
        left = left - b;
    }
    assert(out@.len() == (n + DELETE_BATCH - 1) / (DELETE_BATCH as int)) by (nonlinear_arith)
        requires
            out@.len() * 999 == n,
    ;
    out
}

pub open spec fn sum_of(s: Seq<usize>) -> int
    decreases s.len(),
{
    if s.len() == 0 {
        0
    } else {
        sum_of(s.drop_last()) + s.last()
    }
}

proof fn lemma_sum_push(s: Seq<usize>, x: usize)
    ensures
        sum_of(s.push(x)) == sum_of(s) + x,
{
    assert(s.push(x).drop_last() =~= s);
}

} // verus!
