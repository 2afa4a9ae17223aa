//! SSH local port forwarding: the table of active tunnels and the checks a tunnel
//! request passes before any connection is made.

use vstd::prelude::*;
use crate::ssh::username_error;
use crate::strmap::StrMap;
use crate::tailscale::hostname_ok;
use crate::text::{concat, owned};
use crate::validation::{is_ipv4, validate_hostname, validate_ip, validate_port, validate_username};

verus! {

/// An active tunnel: the local port it listens on and the remote target it forwards to.
pub struct TunnelInfo {
    pub id: String,
    pub ssh_host: String,
    pub ssh_port: u16,
    pub local_port: u16,
    pub remote_host: String,
    pub remote_port: u16,
}

impl TunnelInfo {
    pub fn copy(&self) -> (r: Self)
        ensures
            r == *self,
    {
        TunnelInfo {
            id: self.id.clone(),
            ssh_host: self.ssh_host.clone(),
            ssh_port: self.ssh_port,
            local_port: self.local_port,
            remote_host: self.remote_host.clone(),
            remote_port: self.remote_port,
        }
    }
}

/// `t` is one of the tunnels of `m`.
pub open spec fn is_active(m: Map<Seq<char>, TunnelInfo>, t: TunnelInfo) -> bool {
    exists|k: Seq<char>| #[trigger] m.contains_key(k) && m[k] == t
}

/// The active tunnels, by id. (Each tunnel's stop signal is kept by its caller under the
/// same id.)
pub struct TunnelState {
    tunnels: StrMap<TunnelInfo>,
}

impl TunnelState {
    pub closed spec fn tunnels(&self) -> Map<Seq<char>, TunnelInfo> {
        self.tunnels@
    }

    pub closed spec fn wf(&self) -> bool {
        self.tunnels.wf()
    }

    pub fn new() -> (r: Self)
        ensures
            r.wf(),
            r.tunnels() == Map::<Seq<char>, TunnelInfo>::empty(),
    {
        TunnelState { tunnels: StrMap::new() }
    }

    /// Every active tunnel, once each.
    pub fn list(&self) -> (r: Vec<TunnelInfo>)
        requires
            self.wf(),
        ensures
            r@.len() == self.tunnels().dom().len(),
            forall|i: int| 0 <= i < r@.len() ==> is_active(self.tunnels(), #[trigger] r@[i]),
            forall|k: Seq<char>| #[trigger] self.tunnels().contains_key(k) ==> exists|i: int| 0 <= i < r@.len() && r@[i] == self.tunnels()[k],
    {
        let keys = self.tunnels.keys();
        let mut out: Vec<TunnelInfo> = Vec::new();
        let mut i: usize = 0;
        while i < keys.len()
            invariant
                self.wf(),
                i <= keys@.len(),
                keys@.len() == self.tunnels@.dom().len(),
                forall|j: int| 0 <= j < keys@.len() ==> self.tunnels@.contains_key(#[trigger] keys@[j]@),
                out@.len() == i,
                forall|j: int| 0 <= j < i ==> #[trigger] out@[j] == self.tunnels@[keys@[j]@],
            decreases keys@.len() - i,
        {
            match self.tunnels.get(keys[i].as_str()) {
                Some(info) => {
                    out.push(info.copy());
                },
                None => {
                    assert(false);
                },
            }
            i = i + 1;
        }
        proof {
            assert forall|j: int| 0 <= j < out@.len() implies is_active(self.tunnels@, #[trigger] out@[j]) by {
                assert(self.tunnels@.contains_key(keys@[j]@));
            }
            assert forall|k: Seq<char>| #[trigger] self.tunnels@.contains_key(k) implies exists|j: int| 0 <= j < out@.len() && out@[j] == self.tunnels@[k] by {
                let j = choose|j: int| 0 <= j < keys@.len() && keys@[j]@ == k;
                assert(out@[j] == self.tunnels@[keys@[j]@]);
            }
        }
        out
    }

    /// Whether a tunnel is active under `id`.
    pub fn in_use(&self, id: &str) -> (r: bool)
        requires
            self.wf(),
        ensures
            r == self.tunnels().contains_key(id@),
    {
        self.tunnels.contains_key(id)
    }

    /// Registers a tunnel under `id` unless the id is taken. (Replacing an entry would
    /// end the old tunnel, whose cleanup would then remove the new one.)
    pub fn register(&mut self, id: &str, info: TunnelInfo) -> (r: Result<(), String>)
        requires
            old(self).wf(),
        ensures
            final(self).wf(),
            r is Ok <==> !old(self).tunnels().contains_key(id@),
            r is Ok ==> final(self).tunnels() == old(self).tunnels().insert(id@, info),
            r matches Err(e) ==> e@ == "Tunnel id "@ + id@ + " is already in use"@ && final(self).tunnels() == old(self).tunnels(),
    {
        if self.tunnels.contains_key(id) {
            return Err(concat(concat("Tunnel id ", id).as_str(), " is already in use"));
        }
        self.tunnels.insert(id, info);
        Ok(())
    }

    /// Removes the tunnel under `id`; whether there was one (whose loop the caller then
    /// signals to stop).
    pub fn remove(&mut self, id: &str) -> (r: bool)
        requires
            old(self).wf(),
        ensures
            final(self).wf(),
            r == old(self).tunnels().contains_key(id@),
            final(self).tunnels() == old(self).tunnels().remove(id@),
    {
        self.tunnels.take(id).is_some()
    }
}

/// Why a tunnel request is refused before connecting, if it is: the id in use, then the
/// three ports, the user name, and the SSH host.
pub open spec fn tunnel_request_error(
    in_use: bool,
    id: Seq<char>,
    ssh_host: &str,
    ssh_port: u16,
    ssh_user: &str,
    local_port: u16,
    remote_port: u16,
) -> Option<Seq<char>> {
    if in_use {
        Some("Tunnel id "@ + id + " is already in use"@)
    } else if ssh_port == 0 || local_port == 0 || remote_port == 0 {
        Some("Port must be between 1 and 65535"@)
    } else if username_error(ssh_user) is Some {
        username_error(ssh_user)
    } else if !is_ipv4(ssh_host@) && !hostname_ok(ssh_host@) {
        Some("Invalid SSH host: "@ + ssh_host@)
    } else {
        None
    }
}

/// The checks a tunnel request passes before any connection is made.
pub fn check_tunnel_request(
    state: &TunnelState,
    tunnel_id: &str,
    ssh_host: &str,
    ssh_port: u16,
    ssh_user: &str,
    local_port: u16,
    remote_port: u16,
) -> (r: Result<(), String>)
    requires
        state.wf(),
    ensures
        r is Ok <==> tunnel_request_error(state.tunnels().contains_key(tunnel_id@), tunnel_id@, ssh_host, ssh_port, ssh_user, local_port, remote_port) is None,
        r matches Err(e) ==> tunnel_request_error(state.tunnels().contains_key(tunnel_id@), tunnel_id@, ssh_host, ssh_port, ssh_user, local_port, remote_port) == Some(e@),
{
    if state.in_use(tunnel_id) {
        return Err(concat(concat("Tunnel id ", tunnel_id).as_str(), " is already in use"));
    }
    validate_port(ssh_port)?;
    validate_port(local_port)?;
    validate_port(remote_port)?;
    validate_username(ssh_user)?;
    if validate_ip(ssh_host).is_err() && validate_hostname(ssh_host).is_err() {
        return Err(concat("Invalid SSH host: ", ssh_host));
    }
    Ok(())
}

/// An id stays taken while its tunnel is active: registering it again is refused; once
/// the tunnel is removed the id can be used again, and other tunnels are untouched.
pub proof fn law_an_id_is_free_again_after_removal(
    tunnels: Map<Seq<char>, TunnelInfo>,
    id: Seq<char>,
    info: TunnelInfo,
)
    requires
        !tunnels.contains_key(id),
    ensures
        tunnels.insert(id, info).contains_key(id),
        !tunnels.insert(id, info).remove(id).contains_key(id),
        tunnels.insert(id, info).remove(id) == tunnels,
{
    assert(tunnels.insert(id, info).remove(id) =~= tunnels);
}


/// Why a tunnel command is refused before anything else happens, if it is: the SSH
/// host, the SSH and local ports, the remote host, the remote port, in that order.
pub open spec fn tunnel_command_error(
    ssh_host: Seq<char>,
    ssh_port: u16,
    local_port: u16,
    remote_host: Seq<char>,
    remote_port: u16,
) -> Option<Seq<char>> {
    if !is_ipv4(ssh_host) && !hostname_ok(ssh_host) {
        Some("Invalid SSH host format"@)
    } else if ssh_port == 0 || local_port == 0 {
        Some("Port must be between 1 and 65535"@)
    } else if !is_ipv4(remote_host) && !hostname_ok(remote_host) {
        Some("Invalid remote host format"@)
    } else if remote_port == 0 {
        Some("Port must be between 1 and 65535"@)
    } else {
        None
    }
}

/// The checks a tunnel command makes on its hosts and ports.
pub fn check_tunnel_command(
    ssh_host: &str,
    ssh_port: u16,
    local_port: u16,
    remote_host: &str,
    remote_port: u16,
) -> (r: Result<(), String>)
    ensures
        r is Ok <==> tunnel_command_error(ssh_host@, ssh_port, local_port, remote_host@, remote_port) is None,
        r matches Err(e) ==> tunnel_command_error(ssh_host@, ssh_port, local_port, remote_host@, remote_port) == Some(e@),
{
    if validate_ip(ssh_host).is_err() && validate_hostname(ssh_host).is_err() {
        return Err(owned("Invalid SSH host format"));
    }
    validate_port(ssh_port)?;
    validate_port(local_port)?;
    if validate_ip(remote_host).is_err() && validate_hostname(remote_host).is_err() {
        return Err(owned("Invalid remote host format"));
    }
    validate_port(remote_port)?;
    Ok(())
}

/// Closing a tunnel: whether one was removed, or the error for an unknown id.
pub fn close_result(removed: bool) -> (r: Result<(), String>)
    ensures
        r is Ok <==> removed,
        r matches Err(e) ==> e@ == "Tunnel not found"@,
{
    if removed {
        Ok(())
    } else {
        Err(owned("Tunnel not found"))
    }
}

} // verus!
