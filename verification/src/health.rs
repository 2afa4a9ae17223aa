//! Health checks of a host: what a ping and an optional SSH probe add up to.

use vstd::prelude::*;
use crate::ssh_exec::MetricCounts;
use crate::text::owned;

verus! {

/// The outcome of a health check. `metrics` holds the counters an SSH probe read.
pub struct HealthCheckResult {
    pub host: String,
    pub reachable: bool,
    pub latency_ms: Option<u32>,
    pub metrics: Option<MetricCounts>,
    pub error: Option<String>,
}

/// Whether there is anything to log in with: a password, a key file or an inline key.
pub fn has_auth(password: Option<&str>, key_path: Option<&str>, private_key: Option<&str>) -> (r: bool)
    ensures
        r == (password is Some || key_path is Some || private_key is Some),
{
    password.is_some() || key_path.is_some() || private_key.is_some()
}

/// The result of an SSH health check of `host`: `ping` is `None` when the caller already
/// knew the host was reachable, else the ping's round trip or its failure; `metrics` is
/// what the SSH probe read (taken only when there was a login to use). A failed ping
/// makes the host unreachable and nothing else is tried.
pub fn ssh_health_result(host: &str, ping: Option<Result<u32, String>>, metrics: Option<MetricCounts>) -> (r: HealthCheckResult)
    ensures
        r.host@ == host@,
        match ping {
            Some(Err(_)) => !r.reachable && r.latency_ms is None && r.metrics is None && (r.error matches Some(e)
                && e@ == "Host unreachable"@),
            Some(Ok(ms)) => r.reachable && r.latency_ms == Some(ms) && r.metrics == metrics && r.error is None,
            None => r.reachable && r.latency_ms is None && r.metrics == metrics && r.error is None,
        },
{
    match ping {
        Some(Err(_)) => HealthCheckResult {
            host: owned(host),
            reachable: false,
            latency_ms: None,
            metrics: None,
            error: Some(owned("Host unreachable")),
        },
        Some(Ok(ms)) => HealthCheckResult { host: owned(host), reachable: true, latency_ms: Some(ms), metrics, error: None },
        None => HealthCheckResult { host: owned(host), reachable: true, latency_ms: None, metrics, error: None },
    }
}

/// A quick check without a login: reachable with its round trip, or the ping's error.
pub fn preflight_result(host: &str, ping: Result<u32, String>) -> (r: HealthCheckResult)
    ensures
        r.host@ == host@,
        r.metrics is None,
        match ping {
            Ok(ms) => r.reachable && r.latency_ms == Some(ms) && r.error is None,
            Err(e) => !r.reachable && r.latency_ms is None && (r.error matches Some(x) && x@ == e@),
        },
{
    match ping {
        Ok(ms) => HealthCheckResult { host: owned(host), reachable: true, latency_ms: Some(ms), metrics: None, error: None },
        Err(e) => HealthCheckResult { host: owned(host), reachable: false, latency_ms: None, metrics: None, error: Some(e) },
    }
}

} // verus!
