//! SSH authentication choices: where the private key comes from, how `~/` in a key path
//! is expanded, and what the outcome of the key and password attempts is.

use vstd::prelude::*;
use crate::text::{owned, starts_with, str_chars, string_from_chars};

verus! {

/// Where the private key comes from: a file to read, PEM text given inline, or nowhere.
pub enum KeySource {
    File(String),
    Inline(String),
    Absent,
}

/// The key path wins over inline PEM text; with neither there is no key.
pub fn key_source(key_path: Option<&str>, private_key: Option<&str>) -> (r: KeySource)
    ensures
        match (key_path, private_key) {
            (Some(p), _) => r matches KeySource::File(x) && x@ == p@,
            (None, Some(k)) => r matches KeySource::Inline(x) && x@ == k@,
            (None, None) => r is Absent,
        },
{
    match (key_path, private_key) {
        (Some(p), _) => KeySource::File(owned(p)),
        (None, Some(k)) => KeySource::Inline(owned(k)),
        (None, None) => KeySource::Absent,
    }
}

/// A key path with a leading `~/` taken relative to the home directory, when one is
/// known; any other path as it is.
pub open spec fn expanded_path(path: Seq<char>, home: Option<Seq<char>>) -> Seq<char> {
    if starts_with(path, "~/"@) && home is Some {
        home.unwrap() + path.subrange(1, path.len() as int)
    } else {
        path
    }
}

/// Expands a leading `~/` of `path` with `home`.
pub fn expand_tilde(path: &str, home: Option<&str>) -> (r: String)
    ensures
        r@ == expanded_path(path@, match home {
            Some(h) => Some(h@),
            None => None,
        }),
{
    proof {
        reveal_strlit("~/");
    }
    let v = str_chars(path);
    let tilde = v.len() >= 2 && v[0] == '~' && v[1] == '/';
    assert(tilde == starts_with(path@, "~/"@)) by {
        reveal_strlit("~/");
        assert("~/"@ =~= seq!['~', '/']);
        if v.len() >= 2 {
            assert(path@.subrange(0, 2) =~= seq![v@[0], v@[1]]);
        }
    }
    match home {
        Some(h) if tilde => {
            let mut out = str_chars(h);
            let mut i: usize = 1;
            let ghost start = out@;
            while i < v.len()
                invariant
                    1 <= i <= v@.len(),
                    out@ == start + v@.subrange(1, i as int),
                decreases v@.len() - i,
            {
                out.push(v[i]);
                i = i + 1;
                assert(out@ =~= start + v@.subrange(1, i as int));
            }
            string_from_chars(&out)
        },
        _ => owned(path),
    }
}

/// The outcome of authenticating: the key is tried first when there is one
/// (`key_accepted`), then the password when there is one (`password_accepted`).
pub open spec fn auth_outcome(key_accepted: Option<bool>, password_accepted: Option<bool>) -> Result<(), Seq<char>> {
    if key_accepted == Some(true) {
        Ok(())
    } else {
        match password_accepted {
            Some(true) => Ok(()),
            Some(false) => Err("Authentication failed"@),
            None => Err("No password or SSH key provided"@),
        }
    }
}

/// Whether the password is tried: there is one and the key (if any) was not accepted.
pub fn try_password(key_accepted: Option<bool>, has_password: bool) -> (r: bool)
    ensures
        r == (has_password && key_accepted != Some(true)),
{
    has_password && !matches!(key_accepted, Some(true))
}

/// The result of the attempts made.
pub fn auth_result(key_accepted: Option<bool>, password_accepted: Option<bool>) -> (r: Result<(), String>)
    ensures
        match auth_outcome(key_accepted, password_accepted) {
            Ok(()) => r is Ok,
            Err(m) => r matches Err(e) && e@ == m,
        },
{
    if matches!(key_accepted, Some(true)) {
        return Ok(());
    }
    match password_accepted {
        Some(true) => Ok(()),
        Some(false) => Err(owned("Authentication failed")),
        None => Err(owned("No password or SSH key provided")),
    }
}

} // verus!
