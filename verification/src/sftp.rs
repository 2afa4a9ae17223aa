//! File transfers over SFTP: which logins they accept.

use vstd::prelude::*;
use crate::text::owned;

verus! {

/// SFTP authenticates with a password only: an empty one is refused.
pub fn require_password_auth(password: &str) -> (r: Result<(), String>)
    ensures
        r is Ok <==> password@.len() > 0,
        r matches Err(e) ==> e@ == "SFTP requires password-based authentication. SSH key authentication is not yet supported for SFTP operations."@,
{
    if password.unicode_len() == 0 {
        return Err(owned(
            "SFTP requires password-based authentication. SSH key authentication is not yet supported for SFTP operations.",
        ));
    }
    Ok(())
}

} // verus!
