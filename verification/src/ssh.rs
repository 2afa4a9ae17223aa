//! Interactive SSH sessions: which host keys are accepted, refused or prompted for, the
//! pending host-key prompts, and the connections that are still being set up (so a
//! disconnect that arrives first cancels them).

use vstd::prelude::*;
use crate::fmt::u64_to_string;
use crate::native_confirm::TrustStatus;
use crate::strmap::StrMap;
use crate::sys::new_uuid;
use crate::text::{concat, owned};
use crate::validation::{is_ipv4, is_username_char, validate_hostname, validate_ip, validate_port, validate_username};
use crate::tailscale::hostname_ok;

verus! {

/// The key a handshake presented, kept with its pending prompt so that trusting it
/// persists these bytes and not whatever the caller supplies.
pub struct PresentedHostKey {
    pub host: String,
    pub port: u16,
    pub fingerprint: String,
    pub key_type: String,
    pub key_bytes: Vec<u8>,
    /// Set when the host already had a different stored key (a possible MITM).
    pub old_fingerprint: Option<String>,
}

/// What an interactive connection does with a host key.
#[derive(Clone, Copy, Debug, PartialEq, Eq, Structural)]
pub enum InteractiveDecision {
    Accept,
    Refuse,
    Prompt,
}

/// An allowed key is accepted; a key the user rejected is refused without a prompt (a
/// prompt in the webview could be answered by a compromised webview); any other key is
/// prompted for.
pub fn interactive_decision(allowed: bool, status: TrustStatus) -> (r: InteractiveDecision)
    ensures
        r == (if allowed {
            InteractiveDecision::Accept
        } else if status == TrustStatus::Rejected {
            InteractiveDecision::Refuse
        } else {
            InteractiveDecision::Prompt
        }),
{
    if allowed {
        InteractiveDecision::Accept
    } else if status == TrustStatus::Rejected {
        InteractiveDecision::Refuse
    } else {
        InteractiveDecision::Prompt
    }
}

/// The native warning shown before accepting a changed key.
pub open spec fn changed_key_text(host: Seq<char>, port: Seq<char>, old: Seq<char>, presented: Seq<char>) -> Seq<char> {
    "The host key for "@ + host + ":"@ + port + "\n\nStored: "@ + old + "\nPresented: "@ + presented
        + "\n\nThis can mean someone is intercepting the connection. Only continue if you have verified the new fingerprint with the server's administrator."@
}

/// Host-key prompts that wait for the user's answer, by request id.
pub struct HostKeyApprovalState {
    pending: StrMap<PresentedHostKey>,
}

impl HostKeyApprovalState {
    pub closed spec fn pending(&self) -> Map<Seq<char>, PresentedHostKey> {
        self.pending@
    }

    pub closed spec fn wf(&self) -> bool {
        self.pending.wf()
    }

    pub fn new() -> (r: Self)
        ensures
            r.wf(),
            r.pending() == Map::<Seq<char>, PresentedHostKey>::empty(),
    {
        HostKeyApprovalState { pending: StrMap::new() }
    }

    /// Registers a prompt for `key` under a fresh random request id, which it returns.
    pub fn register(&mut self, key: PresentedHostKey) -> (r: String)
        requires
            old(self).wf(),
        ensures
            final(self).wf(),
            final(self).pending() == old(self).pending().insert(r@, key),
    {
        let request_id = new_uuid();
        self.pending.insert(request_id.as_str(), key);
        request_id
    }

    /// For a pending changed key, the text of the native confirmation to show before
    /// accepting it; `None` for a first-seen key; an error when nothing is pending
    /// under `request_id`.
    pub fn changed_key_warning(&self, request_id: &str) -> (r: Result<Option<String>, String>)
        requires
            self.wf(),
        ensures
            !self.pending().contains_key(request_id@) <==> r is Err,
            r matches Err(e) ==> e@ == "Host key approval request is no longer pending"@,
            r matches Ok(w) ==> {
                let k = self.pending()[request_id@];
                match k.old_fingerprint {
                    Some(old) => w matches Some(text) && text@ == changed_key_text(k.host@, crate::fmt::decimal(k.port as nat), old@, k.fingerprint@),
                    None => w is None,
                }
            },
    {
        match self.pending.get(request_id) {
            None => Err(owned("Host key approval request is no longer pending")),
            Some(key) => match &key.old_fingerprint {
                None => Ok(None),
                Some(old) => {
                    let mut s = concat("The host key for ", key.host.as_str());
                    s = concat(s.as_str(), ":");
                    let port = u64_to_string(key.port as u64);
                    s = concat(s.as_str(), port.as_str());
                    s = concat(s.as_str(), "\n\nStored: ");
                    s = concat(s.as_str(), old.as_str());
                    s = concat(s.as_str(), "\nPresented: ");
                    s = concat(s.as_str(), key.fingerprint.as_str());
                    s = concat(
                        s.as_str(),
                        "\n\nThis can mean someone is intercepting the connection. Only continue if you have verified the new fingerprint with the server's administrator.",
                    );
                    Ok(Some(s))
                },
            },
        }
    }

    /// Removes and returns the prompt pending under `request_id`: each prompt is answered
    /// once, and answering one never touches another.
    pub fn take(&mut self, request_id: &str) -> (r: Result<PresentedHostKey, String>)
        requires
            old(self).wf(),
        ensures
            final(self).wf(),
            final(self).pending() == old(self).pending().remove(request_id@),
            r is Ok <==> old(self).pending().contains_key(request_id@),
            r matches Ok(k) ==> k == old(self).pending()[request_id@],
            r matches Err(e) ==> e@ == "Host key approval request is no longer pending"@,
    {
        match self.pending.take(request_id) {
            None => Err(owned("Host key approval request is no longer pending")),
            Some(key) => Ok(key),
        }
    }

    /// Drops the prompt pending under `request_id`, if any.
    pub fn cancel(&mut self, request_id: &str)
        requires
            old(self).wf(),
        ensures
            final(self).wf(),
            final(self).pending() == old(self).pending().remove(request_id@),
    {
        self.pending.remove(request_id);
    }
}

/// Why `validate_username` refuses `u`, if it does.
pub open spec fn username_error(u: &str) -> Option<Seq<char>> {
    if u@.len() == 0 {
        Some("Username cannot be empty"@)
    } else if u.len() > 64 {
        Some("Username too long (max 64 characters)"@)
    } else if !(forall|t: int| 0 <= t < u@.len() ==> is_username_char(#[trigger] u@[t])) {
        Some("Username must contain only alphanumeric characters, underscores, hyphens, or dots"@)
    } else {
        None
    }
}

/// Why an interactive connection to `user@host:port` is refused before connecting, if it
/// is: the port, then the user name, then the host (an IPv4 address or a host name).
pub open spec fn connect_target_error(host: &str, user: &str, port: u16) -> Option<Seq<char>> {
    if port == 0 {
        Some("Port must be between 1 and 65535"@)
    } else if username_error(user) is Some {
        username_error(user)
    } else if !is_ipv4(host@) && !hostname_ok(host@) {
        Some("Invalid host format: "@ + host@)
    } else {
        None
    }
}

/// The checks an interactive connection makes before it connects.
pub fn validate_connect_target(host: &str, user: &str, port: u16) -> (r: Result<(), String>)
    ensures
        r is Ok <==> connect_target_error(host, user, port) is None,
        r matches Err(e) ==> connect_target_error(host, user, port) == Some(e@),
{
    validate_port(port)?;
    validate_username(user)?;
    if validate_ip(host).is_err() && validate_hostname(host).is_err() {
        return Err(concat("Invalid host format: ", host));
    }
    Ok(())
}

/// Whether terminal output buffered so far goes to the frontend now: when the buffer
/// reached 4 KiB or the new chunk holds a line break.
pub fn should_flush(buffered: usize, chunk: &[u8]) -> (r: bool)
    ensures
        r == (buffered >= 4096 || exists|i: int| 0 <= i < chunk@.len() && (chunk@[i] == 13 || chunk@[i] == 10)),
{
    if buffered >= 4096 {
        return true;
    }
    let mut i: usize = 0;
    while i < chunk.len()
        invariant
            i <= chunk@.len(),
            forall|j: int| 0 <= j < i ==> chunk@[j] != 13 && chunk@[j] != 10,
        decreases chunk@.len() - i,
    {
        if chunk[i] == 13 || chunk[i] == 10 {
            return true;
        }
        i = i + 1;
    }
    false
}

/// Connections that are still being set up, by session id: `true` once a disconnect
/// asked to cancel one (a tombstone, when it arrived before the connection started).
pub struct SshState {
    pending_connections: StrMap<bool>,
}

impl SshState {
    pub closed spec fn pending(&self) -> Map<Seq<char>, bool> {
        self.pending_connections@
    }

    pub closed spec fn wf(&self) -> bool {
        self.pending_connections.wf()
    }

    pub fn new() -> (r: Self)
        ensures
            r.wf(),
            r.pending() == Map::<Seq<char>, bool>::empty(),
    {
        SshState { pending_connections: StrMap::new() }
    }

    /// Starts setting up connection `id` (`session_exists`: a session with this id is
    /// already open). A cancelled tombstone refuses the start once and is cleared.
    pub fn begin_pending_connection(&mut self, id: &str, session_exists: bool) -> (r: Result<(), String>)
        requires
            old(self).wf(),
        ensures
            final(self).wf(),
            session_exists ==> (r matches Err(e) && e@ == "Session already exists"@ && final(self).pending() == old(self).pending()),
            !session_exists && old(self).pending().contains_key(id@) && old(self).pending()[id@] ==> (r matches Err(e)
                && e@ == "Session connection was cancelled"@ && final(self).pending() == old(self).pending().remove(id@)),
            !session_exists && old(self).pending().contains_key(id@) && !old(self).pending()[id@] ==> (r matches Err(e)
                && e@ == "Session is already connecting"@ && final(self).pending() == old(self).pending()),
            !session_exists && !old(self).pending().contains_key(id@) ==> r is Ok && final(self).pending() == old(self).pending().insert(id@, false),
    {
        if session_exists {
            return Err(owned("Session already exists"));
        }
        match self.pending_connections.get(id) {
            Some(cancelled) => {
                if *cancelled {
                    self.pending_connections.remove(id);
                    Err(owned("Session connection was cancelled"))
                } else {
                    Err(owned("Session is already connecting"))
                }
            },
            None => {
                self.pending_connections.insert(id, false);
                Ok(())
            },
        }
    }

    /// The start of an interactive connection, up to the network: claims `id` as pending
    /// (as `begin_pending_connection` does), then checks the target. A refused target
    /// ends the pending entry again, as every finished attempt does; an accepted one
    /// stays pending until the connection is set up or fails.
    pub fn begin_connect(&mut self, id: &str, session_exists: bool, host: &str, user: &str, port: u16) -> (r: Result<(), String>)
        requires
            old(self).wf(),
        ensures
            final(self).wf(),
            session_exists ==> (r matches Err(e) && e@ == "Session already exists"@ && final(self).pending() == old(self).pending()),
            !session_exists && old(self).pending().contains_key(id@) && old(self).pending()[id@] ==> (r matches Err(e)
                && e@ == "Session connection was cancelled"@ && final(self).pending() == old(self).pending().remove(id@)),
            !session_exists && old(self).pending().contains_key(id@) && !old(self).pending()[id@] ==> (r matches Err(e)
                && e@ == "Session is already connecting"@ && final(self).pending() == old(self).pending()),
            !session_exists && !old(self).pending().contains_key(id@) ==> match connect_target_error(host, user, port) {
                Some(m) => (r matches Err(e) && e@ == m) && final(self).pending() == old(self).pending(),
                None => r is Ok && final(self).pending() == old(self).pending().insert(id@, false),
            },
    {
        self.begin_pending_connection(id, session_exists)?;
        match validate_connect_target(host, user, port) {
            Ok(()) => Ok(()),
            Err(e) => {
                self.finish_pending_connection(id);
                assert(old(self).pending().insert(id@, false).remove(id@) =~= old(self).pending());
                Err(e)
            },
        }
    }

    /// Marks connection `id` cancelled, leaving a tombstone if it hasn't started yet.
    pub fn mark_pending_cancelled(&mut self, id: &str) -> (r: bool)
        requires
            old(self).wf(),
        ensures
            final(self).wf(),
            r,
            final(self).pending() == old(self).pending().insert(id@, true),
    {
        self.pending_connections.insert(id, true);
        true
    }

    /// Whether a disconnect asked to cancel connection `id`.
    pub fn is_pending_cancelled(&self, id: &str) -> (r: bool)
        requires
            self.wf(),
        ensures
            r == (self.pending().contains_key(id@) && self.pending()[id@]),
    {
        match self.pending_connections.get(id) {
            Some(c) => *c,
            None => false,
        }
    }

    /// Connection `id` is set up or failed: it is no longer pending.
    pub fn finish_pending_connection(&mut self, id: &str)
        requires
            old(self).wf(),
        ensures
            final(self).wf(),
            final(self).pending() == old(self).pending().remove(id@),
    {
        self.pending_connections.remove(id);
    }
}

/// A disconnect that arrives before a connection starts cancels that start, once: the
/// start after the refused one goes ahead.
pub proof fn law_tombstone_cancels_one_start(pending: Map<Seq<char>, bool>, id: Seq<char>)
    ensures
        pending.insert(id, true).contains_key(id) && pending.insert(id, true)[id],
        !pending.insert(id, true).remove(id).contains_key(id),
{
}


/// Interactive sessions idle for longer than this (thirty minutes) are disconnected.
pub const SSH_IDLE_TIMEOUT_MS: u64 = 1_800_000;

/// Whether a session last active at `last_ms` has been idle too long at `now_ms` (a
/// monotonic clock; an earlier `now_ms` counts as no time passed).
pub open spec fn timed_out(last_ms: u64, now_ms: u64) -> bool {
    now_ms >= last_ms && now_ms - last_ms > SSH_IDLE_TIMEOUT_MS
}

/// The ids among the first `n` sessions that have timed out, in order.
pub open spec fn idle_ids(activity: Seq<(String, u64)>, now_ms: u64, n: nat) -> Seq<Seq<char>>
    decreases n,
{
    if n == 0 {
        seq![]
    } else {
        let prev = idle_ids(activity, now_ms, (n - 1) as nat);
        if timed_out(activity[n - 1].1, now_ms) {
            prev.push(activity[n - 1].0@)
        } else {
            prev
        }
    }
}

/// The sessions to disconnect for inactivity: `activity` holds each session's id and
/// the time it was last active.
pub fn idle_sessions(activity: &Vec<(String, u64)>, now_ms: u64) -> (r: Vec<String>)
    ensures
        r@.map_values(|s: String| s@) == idle_ids(activity@, now_ms, activity@.len()),
{
    let mut out: Vec<String> = Vec::new();
    let mut i: usize = 0;
    while i < activity.len()
        invariant
            i <= activity@.len(),
            out@.map_values(|s: String| s@) == idle_ids(activity@, now_ms, i as nat),
        decreases activity@.len() - i,
    {
        let (id, last) = &activity[i];
        if now_ms >= *last && now_ms - *last > SSH_IDLE_TIMEOUT_MS {
            let ghost before = out@.map_values(|s: String| s@);
            out.push(id.clone());
            assert(out@.map_values(|s: String| s@) =~= before.push(activity@[i as int].0@));
        }
        i = i + 1;
    }
    out
}

} // verus!
