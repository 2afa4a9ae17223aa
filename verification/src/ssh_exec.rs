//! Running commands over SSH: when a failed attempt may be retried, and how the output of
//! the combined metrics probe is split into fields and read.
//!
//! The probe runs five shell commands with a delimiter line between their outputs; a
//! probe the remote host can't satisfy leaves its field empty. The CPU load and load
//! averages are decimal fractions and are read by the caller; this module reads the
//! whole-number fields (memory, disk, uptime).

use vstd::prelude::*;
use crate::text::{is_white_space, char_is_white_space, str_chars, string_from_chars, trim, trim_chars, trim_start};

verus! {

/// Why a command attempt failed, so the caller can tell whether retrying is safe.
pub enum RunFailure {
    /// The channel could not be opened, so the command was never delivered.
    ChannelOpen(String),
    /// The command was (or may have been) delivered.
    AfterDelivery(String),
}

impl RunFailure {
    pub fn into_message(self) -> (r: String)
        ensures
            r@ == match self {
                RunFailure::ChannelOpen(m) => m@,
                RunFailure::AfterDelivery(m) => m@,
            },
    {
        match self {
            RunFailure::ChannelOpen(m) => m,
            RunFailure::AfterDelivery(m) => m,
        }
    }

    /// Whether the attempt may be retried: only a reused session failing to open its
    /// channel, when the command provably never reached the server.
    pub fn is_retryable(&self, reused: bool) -> (r: bool)
        ensures
            r == (reused && self is ChannelOpen),
    {
        reused && match self {
            RunFailure::ChannelOpen(_) => true,
            RunFailure::AfterDelivery(_) => false,
        }
    }
}

/// The line the probe prints between two fields.
pub open spec fn field_delimiter() -> Seq<char> {
    "__QUASAR_FIELD__"@
}

/// The fields of `s` from position `start` on, scanning for the delimiter (16
/// characters long) from `i` (`str::split`: leftmost, non-overlapping occurrences).
pub open spec fn split_from(s: Seq<char>, start: int, i: int) -> Seq<Seq<char>>
    recommends
        0 <= start <= i,
    decreases s.len() - i,
{
    if i < 0 || i + 16 > s.len() {
        seq![s.subrange(start, s.len() as int)]
    } else if s.subrange(i, i + 16) == field_delimiter() {
        seq![s.subrange(start, i)] + split_from(s, i + 16, i + 16)
    } else {
        split_from(s, start, i + 1)
    }
}

/// The probe fields of `output`, each without surrounding white space.
pub open spec fn metric_fields(output: Seq<char>) -> Seq<Seq<char>> {
    let parts = split_from(output, 0, 0);
    Seq::new(parts.len(), |k: int| trim(parts[k]))
}

/// Splits the probe output into its fields, each trimmed. A well-formed response has
/// one field per probe; a probe that produced nothing leaves an empty field in place.
pub fn split_metric_fields(output: &str) -> (r: Vec<String>)
    ensures
        r@.len() == metric_fields(output@).len(),
        forall|k: int| 0 <= k < r@.len() ==> (#[trigger] r@[k])@ == metric_fields(output@)[k],
{
    let s = str_chars(output);
    let d = str_chars("__QUASAR_FIELD__");
    proof {
        reveal_strlit("__QUASAR_FIELD__");
    }
    assert(d@ == field_delimiter());
    let n = s.len();
    let dl = d.len();
    let mut fields: Vec<String> = Vec::new();
    let mut start: usize = 0;
    let mut i: usize = 0;
    while dl <= n - i
        invariant
            s@ == output@,
            d@ == field_delimiter(),
            d@.len() == 16,
            dl == 16,
            n == s@.len(),
            start <= i,
            i <= n,
            ({
                let parts = split_from(s@, 0, 0);
                let rest = split_from(s@, start as int, i as int);
                &&& parts.len() == fields@.len() + rest.len()
                &&& forall|k: int| 0 <= k < fields@.len() ==> (#[trigger] fields@[k])@ == trim(parts[k])
                &&& forall|k: int| 0 <= k < rest.len() ==> #[trigger] rest[k] == parts[fields@.len() + k]
            }),
        decreases n - i,
    {
        let mut matched = true;
        let mut j: usize = 0;
        assert(s@.subrange(i as int, i as int) =~= d@.subrange(0, 0));
        while j < dl
            invariant
                dl == d@.len(),
                i + dl <= n,
                n == s@.len(),
                j <= dl,
                matched == (s@.subrange(i as int, i + j) == d@.subrange(0, j as int)),
            decreases dl - j,
        {
            if s[i + j] != d[j] {
                matched = false;
            }
            proof {
                if matched {
                    assert(s@.subrange(i as int, i + j + 1) =~= s@.subrange(i as int, i + j).push(s@[i + j]));
                    assert(d@.subrange(0, j + 1) =~= d@.subrange(0, j as int).push(d@[j as int]));
                } else if s@.subrange(i as int, i + j + 1) == d@.subrange(0, j + 1) {
                    assert(s@.subrange(i as int, i + j + 1)[j as int] == d@.subrange(0, j + 1)[j as int]);
                    if s@[i + j] == d@[j as int] {
                        assert(s@.subrange(i as int, i + j) =~= s@.subrange(i as int, i + j + 1).drop_last());
                        assert(d@.subrange(0, j as int) =~= d@.subrange(0, j + 1).drop_last());
                    }
                }
            }
            j = j + 1;
        }
        assert(d@.subrange(0, dl as int) =~= d@);
        let ghost old_fields = fields@;
        if matched {
            let mut piece: Vec<char> = Vec::new();
            let mut q: usize = start;
            while q < i
                invariant
                    start <= q <= i,
                    i <= n,
                    n == s@.len(),
                    piece@ == s@.subrange(start as int, q as int),
                decreases i - q,
            {
                piece.push(s[q]);
                q = q + 1;
                assert(piece@ =~= s@.subrange(start as int, q as int));
            }
            fields.push(string_from_chars(&trim_chars(&piece)));
            proof {
                let parts = split_from(s@, 0, 0);
                let rest = split_from(s@, start as int, i as int);
                let rest2 = split_from(s@, (i + dl) as int, (i + dl) as int);
                assert(rest == seq![s@.subrange(start as int, i as int)] + rest2);
                assert(rest[0] == s@.subrange(start as int, i as int));
                assert forall|k: int| 0 <= k < rest2.len() implies #[trigger] rest2[k] == parts[fields@.len() + k] by {
                    assert(rest2[k] == rest[k + 1]);
                }
                assert forall|k: int| 0 <= k < fields@.len() implies (#[trigger] fields@[k])@ == trim(parts[k]) by {
                    if k < old_fields.len() {
                        assert(fields@[k] == old_fields[k]);
                    }
                }
            }
            start = i + dl;
            i = i + dl;
        } else {
            assert(split_from(s@, start as int, i as int) == split_from(s@, start as int, i + 1));
            i = i + 1;
        }
    }
    let mut piece: Vec<char> = Vec::new();
    let mut q: usize = start;
    while q < n
        invariant
            start <= q <= n,
            n == s@.len(),
            piece@ == s@.subrange(start as int, q as int),
        decreases n - q,
    {
        piece.push(s[q]);
        q = q + 1;
        assert(piece@ =~= s@.subrange(start as int, q as int));
    }
    let ghost old_fields = fields@;
    fields.push(string_from_chars(&trim_chars(&piece)));
    proof {
        let parts = split_from(s@, 0, 0);
        let rest = split_from(s@, start as int, i as int);
        assert(rest == seq![s@.subrange(start as int, n as int)]);
        assert forall|k: int| 0 <= k < fields@.len() implies (#[trigger] fields@[k])@ == metric_fields(output@)[k] by {
            if k < old_fields.len() {
                assert(fields@[k] == old_fields[k]);
            } else {
                assert(rest[0] == parts[k]);
            }
        }
    }
    fields
}

/// The value of a string of ASCII digits.
pub open spec fn digits_value(s: Seq<char>) -> nat
    decreases s.len(),
{
    if s.len() == 0 {
        0
    } else {
        digits_value(s.drop_last()) * 10 + ((s.last() as u32) - ('0' as u32)) as nat
    }
}

pub open spec fn all_digits(s: Seq<char>) -> bool {
    forall|k: int| 0 <= k < s.len() ==> '0' <= #[trigger] s[k] && s[k] <= '9'
}

/// `u64::from_str`: an optional `+`, then one or more ASCII digits, no larger than
/// `u64::MAX`.
pub open spec fn parse_u64(s: Seq<char>) -> Option<u64> {
    let body = if s.len() > 0 && s[0] == '+' {
        s.drop_first()
    } else {
        s
    };
    if body.len() == 0 || !all_digits(body) || digits_value(body) > u64::MAX {
        None
    } else {
        Some(digits_value(body) as u64)
    }
}

proof fn lemma_digits_value_push(s: Seq<char>, c: char)
    ensures
        digits_value(s.push(c)) == digits_value(s) * 10 + ((c as u32) - ('0' as u32)) as nat,
{
    assert(s.push(c).drop_last() =~= s);
}

/// Reads a whole number the way `str::parse::<u64>` does.
pub fn read_u64(s: &Vec<char>) -> (r: Option<u64>)
    ensures
        r == parse_u64(s@),
{
    let start: usize = if s.len() > 0 && s[0] == '+' { 1 } else { 0 };
    let ghost body = if s@.len() > 0 && s@[0] == '+' { s@.drop_first() } else { s@ };
    assert(body =~= s@.subrange(start as int, s@.len() as int));
    if start == s.len() {
        return None;
    }
    let mut value: u64 = 0;
    let mut i: usize = start;
    while i < s.len()
        invariant
            start <= i <= s@.len(),
            body == s@.subrange(start as int, s@.len() as int),
            body == (if s@.len() > 0 && s@[0] == '+' { s@.drop_first() } else { s@ }),
            body.len() > 0,
            all_digits(s@.subrange(start as int, i as int)),
            value as nat == digits_value(s@.subrange(start as int, i as int)),
        decreases s@.len() - i,
    {
        let c = s[i];
        let prefix = Ghost(s@.subrange(start as int, i as int));
        assert(s@.subrange(start as int, i + 1) =~= prefix@.push(c));
        if c < '0' || c > '9' {
            assert(body[i - start] == c);
            assert(!('0' <= body[i - start] && body[i - start] <= '9'));
            assert(!all_digits(body));
            return None;
        }
        proof {
            lemma_digits_value_push(prefix@, c);
        }
        let digit: u64 = (c as u32 - '0' as u32) as u64;
        match value.checked_mul(10) {
            Some(m) => match m.checked_add(digit) {
                Some(v) => {
                    value = v;
                },
                None => {
                    proof {
                        lemma_digits_value_grows(s@.subrange(start as int, s@.len() as int), (i + 1 - start) as int);
                        assert(s@.subrange(start as int, s@.len() as int).subrange(0, i + 1 - start) =~= s@.subrange(start as int, i + 1));
                    }
                    return None;
                },
            },
            None => {
                proof {
                    lemma_digits_value_grows(s@.subrange(start as int, s@.len() as int), (i + 1 - start) as int);
                    assert(s@.subrange(start as int, s@.len() as int).subrange(0, i + 1 - start) =~= s@.subrange(start as int, i + 1));
                }
                return None;
            },
        }
        i = i + 1;
    }
    Some(value)
}

/// The value of a digit string is at least that of any prefix.
proof fn lemma_digits_value_grows(s: Seq<char>, k: int)
    requires
        0 <= k <= s.len(),
    ensures
        digits_value(s.subrange(0, k)) <= digits_value(s),
    decreases s.len() - k,
{
    if k < s.len() {
        lemma_digits_value_grows(s, k + 1);
        assert(s.subrange(0, k + 1).drop_last() =~= s.subrange(0, k));
    } else {
        assert(s.subrange(0, k) =~= s);
    }
}

/// Where the run of non-white-space characters that starts at `i` ends.
pub open spec fn word_end(s: Seq<char>, i: int) -> int
    decreases s.len() - i,
{
    if i < 0 || i >= s.len() || is_white_space(s[i]) {
        i
    } else {
        word_end(s, i + 1)
    }
}

/// `str::split_whitespace`: the maximal runs of characters that are not white space.
pub open spec fn words(s: Seq<char>) -> Seq<Seq<char>>
    decreases s.len(),
{
    let t = trim_start(s);
    if t.len() == 0 {
        seq![]
    } else {
        let e = word_end(t, 0);
        if 0 < e <= t.len() && t.len() <= s.len() {
            seq![t.subrange(0, e)] + words(t.subrange(e, t.len() as int))
        } else {
            seq![]
        }
    }
}

/// A "used total" pair as the memory and disk probes print it: both numbers when the
/// field has at least two words and both of the first two read as whole numbers.
pub open spec fn pair_of(field: Option<Seq<char>>) -> (Option<u64>, Option<u64>) {
    match field {
        None => (None, None),
        Some(f) => {
            let w = words(f);
            if w.len() >= 2 && parse_u64(w[0]) is Some && parse_u64(w[1]) is Some {
                (parse_u64(w[0]), parse_u64(w[1]))
            } else {
                (None, None)
            }
        },
    }
}

/// The first two words of `s`, if it has two.
fn first_two_words(s: &Vec<char>) -> (r: Option<(Vec<char>, Vec<char>)>)
    ensures
        match r {
            Some((a, b)) => words(s@).len() >= 2 && a@ == words(s@)[0] && b@ == words(s@)[1],
            None => words(s@).len() < 2,
        },
{
    let (a, rest) = match next_word(s) {
        Some(x) => x,
        None => {
            return None;
        },
    };
    match next_word(&rest) {
        Some((b, _)) => {
            Some((a, b))
        },
        None => None,
    }
}

/// The first word of `s` and what follows it, if `s` has a word.
fn next_word(s: &Vec<char>) -> (r: Option<(Vec<char>, Vec<char>)>)
    ensures
        match r {
            Some((w, rest)) => words(s@).len() >= 1 && w@ == words(s@)[0] && words(s@) == seq![w@] + words(rest@),
            None => words(s@).len() == 0,
        },
{
    let k = crate::text::first_non_ws(s);
    if k == s.len() {
        return None;
    }
    let mut e = k;
    let ghost t = trim_start(s@);
    assert(t == s@.subrange(k as int, s@.len() as int));
    while e < s.len() && !char_is_white_space(s[e])
        invariant
            k <= e <= s@.len(),
            t == s@.subrange(k as int, s@.len() as int),
            word_end(t, 0) == word_end(t, e - k),
            forall|q: int| k <= q < e ==> !is_white_space(#[trigger] s@[q]),
        decreases s@.len() - e,
    {
        assert(t[e - k] == s@[e as int]);
        e = e + 1;
    }
    assert(word_end(t, e - k) == e - k) by {
        if e < s.len() {
            assert(t[e - k] == s@[e as int]);
        }
    }
    let mut w: Vec<char> = Vec::new();
    let mut q: usize = k;
    while q < e
        invariant
            k <= q <= e,
            e <= s@.len(),
            w@ == s@.subrange(k as int, q as int),
        decreases e - q,
    {
        w.push(s[q]);
        q = q + 1;
        assert(w@ =~= s@.subrange(k as int, q as int));
    }
    let mut rest: Vec<char> = Vec::new();
    let mut q2: usize = e;
    while q2 < s.len()
        invariant
            e <= q2 <= s@.len(),
            rest@ == s@.subrange(e as int, q2 as int),
        decreases s@.len() - q2,
    {
        rest.push(s[q2]);
        q2 = q2 + 1;
        assert(rest@ =~= s@.subrange(e as int, q2 as int));
    }
    proof {
        assert(t.subrange(0, e - k) =~= w@);
        assert(t.subrange(e - k, t.len() as int) =~= rest@);
        lemma_trim_start_len(s@);
    }
    Some((w, rest))
}

proof fn lemma_trim_start_len(s: Seq<char>)
    ensures
        trim_start(s).len() <= s.len(),
    decreases s.len(),
{
    crate::text::lemma_trim_start_props(s);
}

/// Reads a "used total" pair.
pub fn parse_pair(field: Option<&str>) -> (r: (Option<u64>, Option<u64>))
    ensures
        r == pair_of(match field {
            Some(f) => Some(f@),
            None => None,
        }),
{
    match field {
        None => (None, None),
        Some(f) => {
            let v = str_chars(f);
            match first_two_words(&v) {
                Some((a, b)) => match (read_u64(&a), read_u64(&b)) {
                    (Some(x), Some(y)) => (Some(x), Some(y)),
                    _ => (None, None),
                },
                None => (None, None),
            }
        },
    }
}

/// The whole-number readings of the metrics probe.
pub struct MetricCounts {
    pub memory_used_mb: Option<u64>,
    pub memory_total_mb: Option<u64>,
    pub disk_used_gb: Option<u64>,
    pub disk_total_gb: Option<u64>,
    pub uptime_seconds: Option<u64>,
}

pub open spec fn field_at(fields: Seq<String>, k: int) -> Option<Seq<char>> {
    if 0 <= k < fields.len() {
        Some(fields[k]@)
    } else {
        None
    }
}

/// Reads memory (second field), disk (third) and uptime (fourth) from the probe fields.
/// Each is `None` when its field is missing or doesn't read.
pub fn parse_metric_counts(fields: &Vec<String>) -> (r: MetricCounts)
    ensures
        (r.memory_used_mb, r.memory_total_mb) == pair_of(field_at(fields@, 1)),
        (r.disk_used_gb, r.disk_total_gb) == pair_of(field_at(fields@, 2)),
        r.uptime_seconds == match field_at(fields@, 3) {
            Some(f) => parse_u64(trim(f)),
            None => None,
        },
{
    let memory = if fields.len() > 1 { parse_pair(Some(fields[1].as_str())) } else { parse_pair(None) };
    let disk = if fields.len() > 2 { parse_pair(Some(fields[2].as_str())) } else { parse_pair(None) };
    let uptime_seconds = if fields.len() > 3 {
        read_u64(&trim_chars(&str_chars(fields[3].as_str())))
    } else {
        None
    };
    MetricCounts {
        memory_used_mb: memory.0,
        memory_total_mb: memory.1,
        disk_used_gb: disk.0,
        disk_total_gb: disk.1,
        uptime_seconds,
    }
}

} // verus!
