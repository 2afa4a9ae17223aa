//! Confirmations the webview can't answer for the user.
//!
//! Commands that weaken a security decision ask through a native OS dialog opened by the
//! backend. Only one dialog is open at a time, requests right after a decline are refused
//! for a cooldown, and an answer faster than a human could read the dialog counts as a
//! decline. Times are monotonic milliseconds supplied by the caller.

use vstd::prelude::*;
use crate::text::{
    char_is_control, chars_eq, is_control, lower_chars, lower_seq, owned, push_char, str_chars,
    string_from_chars, trim, trim_chars,
};

verus! {

/// Error returned when the user declines the native dialog.
pub const DECLINED: &'static str = "Cancelled";

/// An answer faster than this (milliseconds) can't come from someone who read the dialog.
pub const MIN_HUMAN_RESPONSE_MS: u64 = 800;

/// After a decline, new confirmations are refused for this long (milliseconds).
pub const DECLINE_COOLDOWN_MS: u64 = 3000;

/// Longest text (in characters) shown from webview-supplied values.
pub const MAX_DISPLAY_CHARS: usize = 64;

/// Stored trust status of an SSH host key.
#[derive(Clone, Copy, Debug, PartialEq, Eq, Structural)]
pub enum TrustStatus {
    Trusted,
    Unknown,
    Changed,
    Rejected,
}

/// One dialog at a time; `last_decline` (a monotonic time in milliseconds) drives the
/// cooldown.
pub struct DialogGate {
    pub open: bool,
    pub last_decline: Option<u64>,
}

/// Whether a decline at `t` still blocks new dialogs at `now`.
pub open spec fn in_cooldown(last_decline: Option<u64>, now: u64) -> bool {
    match last_decline {
        Some(t) => (if now >= t { now - t } else { 0 }) < DECLINE_COOLDOWN_MS,
        None => false,
    }
}

impl DialogGate {
    pub fn new() -> (r: Self)
        ensures
            !r.open,
            r.last_decline is None,
    {
        DialogGate { open: false, last_decline: None }
    }

    /// Starts a dialog, unless one is already open or a decline is too recent.
    pub fn begin_dialog(&mut self, now: u64) -> (r: Result<(), String>)
        ensures
            old(self).open ==> (r matches Err(e) && e@ == "Another confirmation is already open"@),
            !old(self).open && in_cooldown(old(self).last_decline, now) ==> (r matches Err(e) && e@
                == DECLINED@),
            r is Ok <==> !old(self).open && !in_cooldown(old(self).last_decline, now),
            final(self).last_decline == old(self).last_decline,
            final(self).open == (old(self).open || r is Ok),
    {
        if self.open {
            return Err(owned("Another confirmation is already open"));
        }
        match self.last_decline {
            Some(t) => {
                let elapsed = if now >= t { now - t } else { 0 };
                if elapsed < DECLINE_COOLDOWN_MS {
                    return Err(owned(DECLINED));
                }
            },
            None => {},
        }
        self.open = true;
        Ok(())
    }

    /// Ends the open dialog; a decline at `now` starts the cooldown.
    pub fn end_dialog(&mut self, confirmed: bool, now: u64)
        ensures
            !final(self).open,
            final(self).last_decline == (if confirmed { old(self).last_decline } else { Some(now) }),
    {
        self.open = false;
        if !confirmed {
            self.last_decline = Some(now);
        }
    }
}

/// Whether a dialog answer counts as a confirmation.
pub fn accepted(clicked_ok: bool, answered_after_ms: u64) -> (r: bool)
    ensures
        r == (clicked_ok && answered_after_ms >= MIN_HUMAN_RESPONSE_MS),
{
    clicked_ok && answered_after_ms >= MIN_HUMAN_RESPONSE_MS
}

/// Control characters replaced by spaces.
pub open spec fn neutralise(s: Seq<char>) -> Seq<char> {
    s.map_values(|c: char| if is_control(c) { ' ' } else { c })
}

/// The text shown for a webview-supplied value: controls neutralised, trimmed, and cut
/// to 64 characters followed by an ellipsis when longer.
pub open spec fn display_text_spec(s: Seq<char>) -> Seq<char> {
    let cleaned = trim(neutralise(s));
    if cleaned.len() > MAX_DISPLAY_CHARS {
        cleaned.subrange(0, MAX_DISPLAY_CHARS as int).push('…')
    } else {
        cleaned
    }
}

/// Makes webview-controlled text (credential names, hosts) safe to show in a dialog: no
/// control characters or line breaks that could fake dialog text, and a bounded length.
pub fn display_text(s: &str) -> (r: String)
    ensures
        r@ == display_text_spec(s@),
{
    let v = str_chars(s);
    let mut cleaned: Vec<char> = Vec::new();
    let mut i: usize = 0;
    while i < v.len()
        invariant
            i <= v.len(),
            v@ == s@,
            cleaned@ == neutralise(s@.subrange(0, i as int)),
        decreases v.len() - i,
    {
        let c = v[i];
        cleaned.push(if char_is_control(c) { ' ' } else { c });
        i = i + 1;
        assert(cleaned@ =~= neutralise(s@.subrange(0, i as int)));
    }
    assert(s@.subrange(0, v.len() as int) =~= s@);
    let t = trim_chars(&cleaned);
    if t.len() > MAX_DISPLAY_CHARS {
        let mut out: Vec<char> = Vec::new();
        let mut j: usize = 0;
        while j < MAX_DISPLAY_CHARS
            invariant
                j <= MAX_DISPLAY_CHARS < t.len(),
                out@ == t@.subrange(0, j as int),
            decreases MAX_DISPLAY_CHARS - j,
        {
            out.push(t[j]);
            j = j + 1;
            assert(out@ =~= t@.subrange(0, j as int));
        }
        let mut r = string_from_chars(&out);
        push_char(&mut r, '…');
        r
    } else {
        string_from_chars(&t)
    }
}

/// A host binding as compared: trimmed, empty meaning unbound, ASCII case folded.
pub open spec fn norm_host(h: Option<Seq<char>>) -> Option<Seq<char>> {
    match h {
        Some(s) => if trim(s).len() > 0 {
            Some(lower_seq(trim(s)))
        } else {
            None
        },
        None => None,
    }
}

fn norm_host_exec(h: Option<&str>) -> (r: Option<Vec<char>>)
    ensures
        match r {
            Some(v) => norm_host(match h {
                Some(s) => Some(s@),
                None => None,
            }) == Some(v@),
            None => norm_host(match h {
                Some(s) => Some(s@),
                None => None,
            }) is None,
        },
{
    match h {
        Some(s) => {
            let v = str_chars(s);
            let t = trim_chars(&v);
            if t.len() > 0 {
                Some(lower_chars(&t))
            } else {
                None
            }
        },
        None => None,
    }
}

/// A credential host update needs confirmation when it loosens or moves an existing
/// binding. Binding an unbound credential only narrows where it can be used.
pub fn host_change_needs_confirm(stored: Option<&str>, requested: Option<&str>) -> (r: bool)
    ensures
        r == (requested is Some && norm_host(
            match stored {
                Some(s) => Some(s@),
                None => None,
            },
        ) is Some && norm_host(
            match requested {
                Some(s) => Some(s@),
                None => None,
            },
        ) != norm_host(
            match stored {
                Some(s) => Some(s@),
                None => None,
            },
        )),
{
    if requested.is_none() {
        return false;
    }
    match norm_host_exec(stored) {
        None => false,
        Some(bound) => match norm_host_exec(requested) {
            None => true,
            Some(req) => !chars_eq(&req, &bound),
        },
    }
}

/// Trusting a key always asks, and so does any change out of `Rejected`. Other changes
/// only make the next handshake prompt again.
pub fn trust_change_needs_confirm(current: Option<&TrustStatus>, requested: &TrustStatus) -> (r:
    bool)
    ensures
        r == (*requested == TrustStatus::Trusted || (current == Some(&TrustStatus::Rejected)
            && *requested != TrustStatus::Rejected)),
{
    let trusting = match requested {
        TrustStatus::Trusted => true,
        _ => false,
    };
    let from_rejected = match current {
        Some(TrustStatus::Rejected) => true,
        _ => false,
    };
    let to_rejected = match requested {
        TrustStatus::Rejected => true,
        _ => false,
    };
    trusting || (from_rejected && !to_rejected)
}

/// A decline blocks new dialogs for `DECLINE_COOLDOWN_MS` from the time it was made,
/// and no longer.
pub proof fn law_a_decline_blocks_dialogs_for_the_cooldown(declined_at: u64, now: u64)
    ensures
        declined_at <= now < declined_at + DECLINE_COOLDOWN_MS ==> in_cooldown(Some(declined_at), now),
        now >= declined_at + DECLINE_COOLDOWN_MS ==> !in_cooldown(Some(declined_at), now),
        !in_cooldown(None, now),
{
}

} // verus!
