//! Launching external clients.

use vstd::prelude::*;
use crate::tailscale::hostname_ok;
use crate::text::owned;
use crate::validation::{is_ipv4, validate_hostname, validate_ip};

verus! {

/// An external program to start, with its arguments.
pub struct LaunchCommand {
    pub program: String,
    pub args: Vec<String>,
}

/// Opening an RDP session to `address`: on Windows (`windows`) the built-in client,
/// `mstsc /v <address>`, which the caller starts (its spawn error is the launch's
/// error); elsewhere there is no client to launch and this is the answer.
pub fn launch_rdp(address: &str, windows: bool) -> (r: Result<LaunchCommand, String>)
    ensures
        windows ==> (r matches Ok(c) && c.program@ == "mstsc"@ && c.args@.len() == 2 && c.args@[0]@ == "/v"@
            && c.args@[1]@ == address@),
        !windows ==> (r matches Err(e) && e@ == "RDP launch only supported on Windows for MVP"@),
{
    if windows {
        let mut args: Vec<String> = Vec::new();
        args.push(owned("/v"));
        args.push(owned(address));
        Ok(LaunchCommand { program: owned("mstsc"), args })
    } else {
        Err(owned("RDP launch only supported on Windows for MVP"))
    }
}

/// The address an RDP session may be opened to: an IPv4 address or a host name.
pub fn check_rdp_address(address: &str) -> (r: Result<(), String>)
    ensures
        r is Ok <==> is_ipv4(address@) || hostname_ok(address@),
        r matches Err(e) ==> e@ == "Invalid host address format"@,
{
    if validate_ip(address).is_err() && validate_hostname(address).is_err() {
        return Err(owned("Invalid host address format"));
    }
    Ok(())
}

} // verus!
