//! Input validation for user-supplied values (OWASP ASVS v4.0 5.1.3).
//!
//! Every validator returns `Ok(())` for valid input and `Err` with a user-facing message
//! otherwise. The grammars for addresses, host names and user names are written out here
//! as spec functions and checked character by character. Byte lengths are those of the
//! UTF-8 encoding (`str::len`); path rules follow Unix path components.

use vstd::prelude::*;
use crate::text::{char_is_ascii_alnum, is_ascii_alnum, is_ascii_digit, owned, str_chars, utf8_len, utf8_len_exceeds};

verus! {

/// Unicode decimal digits (general category `Nd`), which `\d` matches.
pub open spec fn is_unicode_digit(c: char) -> bool {
    let u = c as u32;
    ||| 0x30 <= u <= 0x39
    ||| 0x660 <= u <= 0x669
    ||| 0x6F0 <= u <= 0x6F9
    ||| 0x7C0 <= u <= 0x7C9
    ||| 0x966 <= u <= 0x96F
    ||| 0x9E6 <= u <= 0x9EF
    ||| 0xA66 <= u <= 0xA6F
    ||| 0xAE6 <= u <= 0xAEF
    ||| 0xB66 <= u <= 0xB6F
    ||| 0xBE6 <= u <= 0xBEF
    ||| 0xC66 <= u <= 0xC6F
    ||| 0xCE6 <= u <= 0xCEF
    ||| 0xD66 <= u <= 0xD6F
    ||| 0xDE6 <= u <= 0xDEF
    ||| 0xE50 <= u <= 0xE59
    ||| 0xED0 <= u <= 0xED9
    ||| 0xF20 <= u <= 0xF29
    ||| 0x1040 <= u <= 0x1049
    ||| 0x1090 <= u <= 0x1099
    ||| 0x17E0 <= u <= 0x17E9
    ||| 0x1810 <= u <= 0x1819
    ||| 0x1946 <= u <= 0x194F
    ||| 0x19D0 <= u <= 0x19D9
    ||| 0x1A80 <= u <= 0x1A89
    ||| 0x1A90 <= u <= 0x1A99
    ||| 0x1B50 <= u <= 0x1B59
    ||| 0x1BB0 <= u <= 0x1BB9
    ||| 0x1C40 <= u <= 0x1C49
    ||| 0x1C50 <= u <= 0x1C59
    ||| 0xA620 <= u <= 0xA629
    ||| 0xA8D0 <= u <= 0xA8D9
    ||| 0xA900 <= u <= 0xA909
    ||| 0xA9D0 <= u <= 0xA9D9
    ||| 0xA9F0 <= u <= 0xA9F9
    ||| 0xAA50 <= u <= 0xAA59
    ||| 0xABF0 <= u <= 0xABF9
    ||| 0xFF10 <= u <= 0xFF19
    ||| 0x104A0 <= u <= 0x104A9
    ||| 0x10D30 <= u <= 0x10D39
    ||| 0x10D40 <= u <= 0x10D49
    ||| 0x11066 <= u <= 0x1106F
    ||| 0x110F0 <= u <= 0x110F9
    ||| 0x11136 <= u <= 0x1113F
    ||| 0x111D0 <= u <= 0x111D9
    ||| 0x112F0 <= u <= 0x112F9
    ||| 0x11450 <= u <= 0x11459
    ||| 0x114D0 <= u <= 0x114D9
    ||| 0x11650 <= u <= 0x11659
    ||| 0x116C0 <= u <= 0x116C9
    ||| 0x116D0 <= u <= 0x116E3
    ||| 0x11730 <= u <= 0x11739
    ||| 0x118E0 <= u <= 0x118E9
    ||| 0x11950 <= u <= 0x11959
    ||| 0x11BF0 <= u <= 0x11BF9
    ||| 0x11C50 <= u <= 0x11C59
    ||| 0x11D50 <= u <= 0x11D59
    ||| 0x11DA0 <= u <= 0x11DA9
    ||| 0x11F50 <= u <= 0x11F59
    ||| 0x16130 <= u <= 0x16139
    ||| 0x16A60 <= u <= 0x16A69
    ||| 0x16AC0 <= u <= 0x16AC9
    ||| 0x16B50 <= u <= 0x16B59
    ||| 0x16D70 <= u <= 0x16D79
    ||| 0x1CCF0 <= u <= 0x1CCF9
    ||| 0x1D7CE <= u <= 0x1D7FF
    ||| 0x1E140 <= u <= 0x1E149
    ||| 0x1E2F0 <= u <= 0x1E2F9
    ||| 0x1E4F0 <= u <= 0x1E4F9
    ||| 0x1E5F1 <= u <= 0x1E5FA
    ||| 0x1E950 <= u <= 0x1E959
    ||| 0x1FBF0 <= u <= 0x1FBF9
}

/// One dotted-decimal octet: `25[0-5]|2[0-4]\d|1\d{2}|[1-9]\d|\d`.
pub open spec fn is_octet(s: Seq<char>) -> bool {
    ||| (s.len() == 3 && s[0] == '2' && s[1] == '5' && '0' <= s[2] && s[2] <= '5')
    ||| (s.len() == 3 && s[0] == '2' && '0' <= s[1] && s[1] <= '4' && is_unicode_digit(s[2]))
    ||| (s.len() == 3 && s[0] == '1' && is_unicode_digit(s[1]) && is_unicode_digit(s[2]))
    ||| (s.len() == 2 && '1' <= s[0] && s[0] <= '9' && is_unicode_digit(s[1]))
    ||| (s.len() == 1 && is_unicode_digit(s[0]))
}

/// Four octets separated by dots, nothing else.
pub open spec fn is_ipv4(s: Seq<char>) -> bool {
    exists|i: int, j: int, k: int|
        #![trigger s[i], s[j], s[k]]
        0 <= i < j < k < s.len() && s[i] == '.' && s[j] == '.' && s[k] == '.' && is_octet(
            s.subrange(0, i),
        ) && is_octet(s.subrange(i + 1, j)) && is_octet(s.subrange(j + 1, k)) && is_octet(
            s.subrange(k + 1, s.len() as int),
        )
}

/// A CIDR prefix length `[0-9]|[1-2][0-9]|3[0-2]`.
pub open spec fn is_prefix_len(s: Seq<char>) -> bool {
    ||| (s.len() == 1 && is_ascii_digit(s[0]))
    ||| (s.len() == 2 && '1' <= s[0] && s[0] <= '2' && is_ascii_digit(s[1]))
    ||| (s.len() == 2 && s[0] == '3' && '0' <= s[1] && s[1] <= '2')
}

/// An IPv4 address, a slash, and a prefix length.
pub open spec fn is_cidr(s: Seq<char>) -> bool {
    exists|p: int|
        0 <= p < s.len() && s[p] == '/' && is_ipv4(#[trigger] s.subrange(0, p)) && is_prefix_len(
            s.subrange(p + 1, s.len() as int),
        )
}

pub open spec fn is_label_char(c: char) -> bool {
    is_ascii_alnum(c) || c == '-'
}

/// A host name label: `[a-zA-Z0-9]([a-zA-Z0-9\-]{0,61}[a-zA-Z0-9])?`.
pub open spec fn is_label(s: Seq<char>) -> bool {
    &&& 1 <= s.len() <= 63
    &&& is_ascii_alnum(s[0])
    &&& is_ascii_alnum(s.last())
    &&& forall|t: int| 0 <= t < s.len() ==> is_label_char(#[trigger] s[t])
}

/// Labels separated by single dots (RFC 1123 host name syntax).
pub open spec fn is_hostname_syntax(s: Seq<char>) -> bool
    decreases s.len(),
{
    ||| is_label(s)
    ||| exists|i: int|
        0 <= i < s.len() && s[i] == '.' && is_label(#[trigger] s.subrange(0, i))
            && is_hostname_syntax(s.subrange(i + 1, s.len() as int))
}

pub open spec fn is_username_char(c: char) -> bool {
    is_ascii_alnum(c) || c == '_' || c == '-' || c == '.'
}

/// `..` is one whole component of the Unix path `s`.
pub open spec fn has_parent_dir_component(s: Seq<char>) -> bool {
    exists|i: int|
        0 <= i && i + 2 <= s.len() && s[i] == '.' && #[trigger] s[i + 1] == '.' && (i == 0 || s[i
            - 1] == '/') && (i + 2 == s.len() || s[i + 2] == '/')
}

pub fn char_is_unicode_digit(c: char) -> (b: bool)
    ensures
        b == is_unicode_digit(c),
{
    let u = c as u32;
    (0x30 <= u && u <= 0x39) ||
        (0x660 <= u && u <= 0x669) ||
        (0x6F0 <= u && u <= 0x6F9) ||
        (0x7C0 <= u && u <= 0x7C9) ||
        (0x966 <= u && u <= 0x96F) ||
        (0x9E6 <= u && u <= 0x9EF) ||
        (0xA66 <= u && u <= 0xA6F) ||
        (0xAE6 <= u && u <= 0xAEF) ||
        (0xB66 <= u && u <= 0xB6F) ||
        (0xBE6 <= u && u <= 0xBEF) ||
        (0xC66 <= u && u <= 0xC6F) ||
        (0xCE6 <= u && u <= 0xCEF) ||
        (0xD66 <= u && u <= 0xD6F) ||
        (0xDE6 <= u && u <= 0xDEF) ||
        (0xE50 <= u && u <= 0xE59) ||
        (0xED0 <= u && u <= 0xED9) ||
        (0xF20 <= u && u <= 0xF29) ||
        (0x1040 <= u && u <= 0x1049) ||
        (0x1090 <= u && u <= 0x1099) ||
        (0x17E0 <= u && u <= 0x17E9) ||
        (0x1810 <= u && u <= 0x1819) ||
        (0x1946 <= u && u <= 0x194F) ||
        (0x19D0 <= u && u <= 0x19D9) ||
        (0x1A80 <= u && u <= 0x1A89) ||
        (0x1A90 <= u && u <= 0x1A99) ||
        (0x1B50 <= u && u <= 0x1B59) ||
        (0x1BB0 <= u && u <= 0x1BB9) ||
        (0x1C40 <= u && u <= 0x1C49) ||
        (0x1C50 <= u && u <= 0x1C59) ||
        (0xA620 <= u && u <= 0xA629) ||
        (0xA8D0 <= u && u <= 0xA8D9) ||
        (0xA900 <= u && u <= 0xA909) ||
        (0xA9D0 <= u && u <= 0xA9D9) ||
        (0xA9F0 <= u && u <= 0xA9F9) ||
        (0xAA50 <= u && u <= 0xAA59) ||
        (0xABF0 <= u && u <= 0xABF9) ||
        (0xFF10 <= u && u <= 0xFF19) ||
        (0x104A0 <= u && u <= 0x104A9) ||
        (0x10D30 <= u && u <= 0x10D39) ||
        (0x10D40 <= u && u <= 0x10D49) ||
        (0x11066 <= u && u <= 0x1106F) ||
        (0x110F0 <= u && u <= 0x110F9) ||
        (0x11136 <= u && u <= 0x1113F) ||
        (0x111D0 <= u && u <= 0x111D9) ||
        (0x112F0 <= u && u <= 0x112F9) ||
        (0x11450 <= u && u <= 0x11459) ||
        (0x114D0 <= u && u <= 0x114D9) ||
        (0x11650 <= u && u <= 0x11659) ||
        (0x116C0 <= u && u <= 0x116C9) ||
        (0x116D0 <= u && u <= 0x116E3) ||
        (0x11730 <= u && u <= 0x11739) ||
        (0x118E0 <= u && u <= 0x118E9) ||
        (0x11950 <= u && u <= 0x11959) ||
        (0x11BF0 <= u && u <= 0x11BF9) ||
        (0x11C50 <= u && u <= 0x11C59) ||
        (0x11D50 <= u && u <= 0x11D59) ||
        (0x11DA0 <= u && u <= 0x11DA9) ||
        (0x11F50 <= u && u <= 0x11F59) ||
        (0x16130 <= u && u <= 0x16139) ||
        (0x16A60 <= u && u <= 0x16A69) ||
        (0x16AC0 <= u && u <= 0x16AC9) ||
        (0x16B50 <= u && u <= 0x16B59) ||
        (0x16D70 <= u && u <= 0x16D79) ||
        (0x1CCF0 <= u && u <= 0x1CCF9) ||
        (0x1D7CE <= u && u <= 0x1D7FF) ||
        (0x1E140 <= u && u <= 0x1E149) ||
        (0x1E2F0 <= u && u <= 0x1E2F9) ||
        (0x1E4F0 <= u && u <= 0x1E4F9) ||
        (0x1E5F1 <= u && u <= 0x1E5FA) ||
        (0x1E950 <= u && u <= 0x1E959) ||
        (0x1FBF0 <= u && u <= 0x1FBF9)
}

fn chars_is_octet(s: &Vec<char>, from: usize, to: usize) -> (b: bool)
    requires
        from <= to <= s.len(),
    ensures
        b == is_octet(s@.subrange(from as int, to as int)),
{
    let n = to - from;
    let ghost t = s@.subrange(from as int, to as int);
    if n == 3 {
        let a = s[from];
        let b = s[from + 1];
        let c = s[from + 2];
        assert(t[0] == a && t[1] == b && t[2] == c);
        (a == '2' && b == '5' && '0' <= c && c <= '5') || (a == '2' && '0' <= b && b <= '4'
            && char_is_unicode_digit(c)) || (a == '1' && char_is_unicode_digit(b)
            && char_is_unicode_digit(c))
    } else if n == 2 {
        let a = s[from];
        let b = s[from + 1];
        assert(t[0] == a && t[1] == b);
        '1' <= a && a <= '9' && char_is_unicode_digit(b)
    } else if n == 1 {
        assert(t[0] == s[from as int]);
        char_is_unicode_digit(s[from])
    } else {
        false
    }
}

proof fn lemma_octet_no_sep(s: Seq<char>, t: int)
    requires
        is_octet(s),
        0 <= t < s.len(),
    ensures
        s[t] != '.',
        s[t] != '/',
{
}

proof fn lemma_label_no_dot(s: Seq<char>, t: int)
    requires
        is_label(s),
        0 <= t < s.len(),
    ensures
        s[t] != '.',
{
    assert(is_label_char(s[t]));
}

/// The first index at or after `from` holding `c`.
pub fn find_char(s: &Vec<char>, c: char, from: usize) -> (r: Option<usize>)
    requires
        from <= s.len(),
    ensures
        r matches Some(p) ==> from <= p < s.len() && s@[p as int] == c && forall|q: int|
            from <= q < p ==> s@[q] != c,
        r is None ==> forall|q: int| from <= q < s.len() ==> s@[q] != c,
{
    let mut i = from;
    while i < s.len()
        invariant
            from <= i <= s.len(),
            forall|q: int| from <= q < i ==> s@[q] != c,
        decreases s.len() - i,
    {
        if s[i] == c {
            return Some(i);
        }
        i = i + 1;
    }
    None
}

/// `is_ipv4` of `s[from..to]`.
fn chars_is_ipv4(s: &Vec<char>, from: usize, to: usize) -> (b: bool)
    requires
        from <= to <= s.len(),
    ensures
        b == is_ipv4(s@.subrange(from as int, to as int)),
{
    let ghost t = s@.subrange(from as int, to as int);
    let sub = copy_range(s, from, to);
    assert(sub@ == t);
    let i = match find_char(&sub, '.', 0) {
        Some(i) => i,
        None => {
            assert(!is_ipv4(t));
            return false;
        },
    };
    let j = match find_char(&sub, '.', i + 1) {
        Some(j) => j,
        None => {
            assert(!is_ipv4(t)) by {
                if is_ipv4(t) {
                    let (i2, j2, k2) = choose|i2: int, j2: int, k2: int|
                        #![trigger t[i2], t[j2], t[k2]]
                        0 <= i2 < j2 < k2 < t.len() && t[i2] == '.' && t[j2] == '.' && t[k2] == '.'
                            && is_octet(t.subrange(0, i2)) && is_octet(t.subrange(i2 + 1, j2))
                            && is_octet(t.subrange(j2 + 1, k2)) && is_octet(
                            t.subrange(k2 + 1, t.len() as int),
                        );
                    if i2 > i {
                        lemma_octet_no_sep(t.subrange(0, i2), i as int);
                    }
                }
            }
            return false;
        },
    };
    let k = match find_char(&sub, '.', j + 1) {
        Some(k) => k,
        None => {
            assert(!is_ipv4(t)) by {
                if is_ipv4(t) {
                    let (i2, j2, k2) = choose|i2: int, j2: int, k2: int|
                        #![trigger t[i2], t[j2], t[k2]]
                        0 <= i2 < j2 < k2 < t.len() && t[i2] == '.' && t[j2] == '.' && t[k2] == '.'
                            && is_octet(t.subrange(0, i2)) && is_octet(t.subrange(i2 + 1, j2))
                            && is_octet(t.subrange(j2 + 1, k2)) && is_octet(
                            t.subrange(k2 + 1, t.len() as int),
                        );
                    if i2 > i {
                        lemma_octet_no_sep(t.subrange(0, i2), i as int);
                    }
                    if i2 < i {
                        assert(false);
                    }
                    if j2 > j {
                        lemma_octet_no_sep(t.subrange(i2 + 1, j2), j - i2 - 1);
                    }
                }
            }
            return false;
        },
    };
    let rest = find_char(&sub, '.', k + 1);
    let n = sub.len();
    let ok = rest.is_none() && chars_is_octet(&sub, 0, i) && chars_is_octet(&sub, i + 1, j)
        && chars_is_octet(&sub, j + 1, k) && chars_is_octet(&sub, k + 1, n);
    proof {
        if ok {
            assert(t[i as int] == '.' && t[j as int] == '.' && t[k as int] == '.');
        }
        if is_ipv4(t) {
            let (i2, j2, k2) = choose|i2: int, j2: int, k2: int|
                #![trigger t[i2], t[j2], t[k2]]
                0 <= i2 < j2 < k2 < t.len() && t[i2] == '.' && t[j2] == '.' && t[k2] == '.'
                    && is_octet(t.subrange(0, i2)) && is_octet(t.subrange(i2 + 1, j2)) && is_octet(
                    t.subrange(j2 + 1, k2),
                ) && is_octet(t.subrange(k2 + 1, t.len() as int));
            if i2 > i {
                lemma_octet_no_sep(t.subrange(0, i2), i as int);
            }
            assert(i2 == i);
            if j2 > j {
                lemma_octet_no_sep(t.subrange(i2 + 1, j2), j - i2 - 1);
            }
            assert(j2 == j);
            if k2 > k {
                lemma_octet_no_sep(t.subrange(j2 + 1, k2), k - j2 - 1);
            }
            assert(k2 == k);
            if let Some(q) = rest {
                lemma_octet_no_sep(t.subrange(k2 + 1, t.len() as int), q - k2 - 1);
            }
        }
    }
    ok
}

/// A copy of `s[from..to]`.
pub fn copy_range(s: &Vec<char>, from: usize, to: usize) -> (r: Vec<char>)
    requires
        from <= to <= s.len(),
    ensures
        r@ == s@.subrange(from as int, to as int),
{
    let mut r: Vec<char> = Vec::new();
    let mut i = from;
    while i < to
        invariant
            from <= i <= to <= s.len(),
            r@ == s@.subrange(from as int, i as int),
        decreases to - i,
    {
        r.push(s[i]);
        i = i + 1;
        assert(r@ =~= s@.subrange(from as int, i as int));
    }
    r
}

/// Validates IPv4 dotted-decimal notation: exactly four octets, each 0-255, no leading
/// zeros (RFC 3986 §3.2.2).
pub fn validate_ip(ip: &str) -> (r: Result<(), String>)
    ensures
        r is Ok <==> is_ipv4(ip@),
        r matches Err(e) ==> e@ == "Invalid IP address format"@,
{
    let v = str_chars(ip);
    let n = v.len();
    if chars_is_ipv4(&v, 0, n) {
        assert(v@.subrange(0, n as int) =~= v@);
        Ok(())
    } else {
        assert(v@.subrange(0, n as int) =~= v@);
        Err(owned("Invalid IP address format"))
    }
}

/// Validates a port number (1-65535).
pub fn validate_port(port: u16) -> (r: Result<(), String>)
    ensures
        r is Ok <==> port != 0,
        r matches Err(e) ==> e@ == "Port must be between 1 and 65535"@,
{
    if port == 0 {
        Err(owned("Port must be between 1 and 65535"))
    } else {
        Ok(())
    }
}

fn chars_is_label(s: &Vec<char>, from: usize, to: usize) -> (b: bool)
    requires
        from <= to <= s.len(),
    ensures
        b == is_label(s@.subrange(from as int, to as int)),
{
    let ghost t = s@.subrange(from as int, to as int);
    let n = to - from;
    if n < 1 || n > 63 {
        return false;
    }
    if !char_is_ascii_alnum(s[from]) || !char_is_ascii_alnum(s[to - 1]) {
        assert(t[0] == s@[from as int] && t.last() == s@[to - 1]);
        return false;
    }
    assert(t[0] == s@[from as int] && t.last() == s@[to - 1]);
    let mut i = from;
    while i < to
        invariant
            from <= i <= to <= s.len(),
            t == s@.subrange(from as int, to as int),
            forall|q: int| 0 <= q < i - from ==> is_label_char(#[trigger] t[q]),
        decreases to - i,
    {
        if !(char_is_ascii_alnum(s[i]) || s[i] == '-') {
            assert(!is_label_char(t[i - from]));
            return false;
        }
        assert(t[i - from] == s@[i as int]);
        i = i + 1;
    }
    true
}

proof fn lemma_hostname_step(t: Seq<char>, d: int)
    requires
        0 <= d < t.len(),
        t[d] == '.',
        forall|q: int| 0 <= q < d ==> t[q] != '.',
    ensures
        is_hostname_syntax(t) <==> (is_label(t.subrange(0, d)) && is_hostname_syntax(
            t.subrange(d + 1, t.len() as int),
        )),
{
    if is_label(t) {
        lemma_label_no_dot(t, d);
    }
    if is_hostname_syntax(t) && !is_label(t) {
        let i = choose|i: int|
            0 <= i < t.len() && t[i] == '.' && is_label(#[trigger] t.subrange(0, i))
                && is_hostname_syntax(t.subrange(i + 1, t.len() as int));
        if i > d {
            lemma_label_no_dot(t.subrange(0, i), d);
        }
        assert(i == d);
    }
    if is_label(t.subrange(0, d)) && is_hostname_syntax(t.subrange(d + 1, t.len() as int)) {
        assert(is_label(t.subrange(0, d)));
    }
}

proof fn lemma_hostname_no_dot(t: Seq<char>)
    requires
        forall|q: int| 0 <= q < t.len() ==> t[q] != '.',
    ensures
        is_hostname_syntax(t) <==> is_label(t),
{
}

fn chars_is_hostname(s: &Vec<char>) -> (b: bool)
    ensures
        b == is_hostname_syntax(s@),
{
    let n = s.len();
    let mut start: usize = 0;
    assert(s@.subrange(0, n as int) =~= s@);
    loop
        invariant
            start <= n == s.len(),
            is_hostname_syntax(s@) == is_hostname_syntax(s@.subrange(start as int, n as int)),
        decreases n - start,
    {
        let ghost t = s@.subrange(start as int, n as int);
        match find_char(s, '.', start) {
            None => {
                proof {
                    lemma_hostname_no_dot(t);
                }
                return chars_is_label(s, start, n);
            },
            Some(d) => {
                proof {
                    lemma_hostname_step(t, d - start);
                    assert(t.subrange(0, d - start) =~= s@.subrange(start as int, d as int));
                    assert(t.subrange(d - start + 1, t.len() as int) =~= s@.subrange(
                        d + 1,
                        n as int,
                    ));
                }
                if !chars_is_label(s, start, d) {
                    return false;
                }
                start = d + 1;
            },
        }
    }
}

/// Validates a host name (RFC 1123): dot-separated labels of 1-63 letters, digits or
/// hyphens, not starting or ending with a hyphen, at most 253 bytes in all.
pub fn validate_hostname(hostname: &str) -> (r: Result<(), String>)
    ensures
        r is Ok <==> hostname@.len() > 0 && utf8_len(hostname@) <= 253 && is_hostname_syntax(hostname@),
        r matches Err(e) ==> e@ == (if hostname@.len() == 0 {
            "Hostname cannot be empty"@
        } else if utf8_len(hostname@) > 253 {
            "Hostname too long (max 253 characters)"@
        } else {
            "Invalid hostname format"@
        }),
{
    let v = str_chars(hostname);
    if v.len() == 0 {
        return Err(owned("Hostname cannot be empty"));
    }
    if utf8_len_exceeds(&v, 253) {
        return Err(owned("Hostname too long (max 253 characters)"));
    }
    if chars_is_hostname(&v) {
        Ok(())
    } else {
        Err(owned("Invalid hostname format"))
    }
}

/// Validates a user name: 1-64 bytes of letters, digits, `_`, `-` or `.`.
pub fn validate_username(username: &str) -> (r: Result<(), String>)
    ensures
        r is Ok <==> username@.len() > 0 && username.len() <= 64 && forall|t: int|
            0 <= t < username@.len() ==> is_username_char(#[trigger] username@[t]),
        r matches Err(e) ==> e@ == (if username@.len() == 0 {
            "Username cannot be empty"@
        } else if username.len() > 64 {
            "Username too long (max 64 characters)"@
        } else {
            "Username must contain only alphanumeric characters, underscores, hyphens, or dots"@
        }),
{
    if username.is_empty() {
        return Err(owned("Username cannot be empty"));
    }
    if username.len() > 64 {
        return Err(owned("Username too long (max 64 characters)"));
    }
    let v = str_chars(username);
    let mut i: usize = 0;
    while i < v.len()
        invariant
            i <= v.len(),
            v@ == username@,
            username@.len() > 0,
            username.len() <= 64,
            forall|t: int| 0 <= t < i ==> is_username_char(#[trigger] v@[t]),
        decreases v.len() - i,
    {
        let c = v[i];
        if !(char_is_ascii_alnum(c) || c == '_' || c == '-' || c == '.') {
            return Err(
                owned(
                    "Username must contain only alphanumeric characters, underscores, hyphens, or dots",
                ),
            );
        }
        i = i + 1;
    }
    Ok(())
}

fn chars_is_prefix_len(s: &Vec<char>, from: usize, to: usize) -> (b: bool)
    requires
        from <= to <= s.len(),
    ensures
        b == is_prefix_len(s@.subrange(from as int, to as int)),
{
    let ghost t = s@.subrange(from as int, to as int);
    let n = to - from;
    if n == 1 {
        assert(t[0] == s@[from as int]);
        '0' <= s[from] && s[from] <= '9'
    } else if n == 2 {
        let a = s[from];
        let b = s[from + 1];
        assert(t[0] == a && t[1] == b);
        ('1' <= a && a <= '2' && '0' <= b && b <= '9') || (a == '3' && '0' <= b && b <= '2')
    } else {
        false
    }
}

proof fn lemma_ipv4_no_slash(t: Seq<char>, q: int)
    requires
        is_ipv4(t),
        0 <= q < t.len(),
    ensures
        t[q] != '/',
{
    let (i2, j2, k2) = choose|i2: int, j2: int, k2: int|
        #![trigger t[i2], t[j2], t[k2]]
        0 <= i2 < j2 < k2 < t.len() && t[i2] == '.' && t[j2] == '.' && t[k2] == '.' && is_octet(
            t.subrange(0, i2),
        ) && is_octet(t.subrange(i2 + 1, j2)) && is_octet(t.subrange(j2 + 1, k2)) && is_octet(
            t.subrange(k2 + 1, t.len() as int),
        );
    if q < i2 {
        lemma_octet_no_sep(t.subrange(0, i2), q);
    } else if q > i2 && q < j2 {
        lemma_octet_no_sep(t.subrange(i2 + 1, j2), q - i2 - 1);
    } else if q > j2 && q < k2 {
        lemma_octet_no_sep(t.subrange(j2 + 1, k2), q - j2 - 1);
    } else if q > k2 {
        lemma_octet_no_sep(t.subrange(k2 + 1, t.len() as int), q - k2 - 1);
    }
}

proof fn lemma_cidr_first_slash(s: Seq<char>, p: int)
    requires
        0 <= p < s.len(),
        s[p] == '/',
        forall|q: int| 0 <= q < p ==> s[q] != '/',
    ensures
        is_cidr(s) <==> is_ipv4(s.subrange(0, p)) && is_prefix_len(s.subrange(p + 1, s.len() as int)),
{
    if is_cidr(s) {
        let p2 = choose|p2: int|
            0 <= p2 < s.len() && s[p2] == '/' && is_ipv4(#[trigger] s.subrange(0, p2))
                && is_prefix_len(s.subrange(p2 + 1, s.len() as int));
        if p2 > p {
            lemma_ipv4_no_slash(s.subrange(0, p2), p);
        }
        assert(p2 == p);
    }
}

/// Validates CIDR notation: an IPv4 address, `/`, and a prefix length 0-32.
pub fn validate_cidr(cidr: &str) -> (r: Result<(), String>)
    ensures
        r is Ok <==> is_cidr(cidr@),
        r matches Err(e) ==> e@ == "Invalid CIDR notation"@,
{
    let v = str_chars(cidr);
    let n = v.len();
    let ok = match find_char(&v, '/', 0) {
        None => {
            assert(!is_cidr(cidr@));
            false
        },
        Some(p) => {
            proof {
                lemma_cidr_first_slash(cidr@, p as int);
            }
            chars_is_ipv4(&v, 0, p) && chars_is_prefix_len(&v, p + 1, n)
        },
    };
    if ok {
        Ok(())
    } else {
        Err(owned("Invalid CIDR notation"))
    }
}

/// Validates a credential name: non-empty, at most 100 characters.
pub fn validate_credential_name(name: &str) -> (r: Result<(), String>)
    ensures
        r is Ok <==> name@.len() > 0 && name@.len() <= 100,
        r matches Err(e) ==> e@ == (if name@.len() == 0 {
            "Credential name cannot be empty"@
        } else {
            "Credential name too long (max 100 characters)"@
        }),
{
    if name.is_empty() {
        return Err(owned("Credential name cannot be empty"));
    }
    if name.unicode_len() > 100 {
        return Err(owned("Credential name too long (max 100 characters)"));
    }
    Ok(())
}

/// Validates a regular password: at least 8 characters.
pub fn validate_password(password: &str) -> (r: Result<(), String>)
    ensures
        r is Ok <==> password@.len() >= 8,
        r matches Err(e) ==> e@ == "Password must be at least 8 characters"@,
{
    if password.unicode_len() < 8 {
        return Err(owned("Password must be at least 8 characters"));
    }
    Ok(())
}

/// Validates a master password: at least 12 characters.
pub fn validate_master_password(password: &str) -> (r: Result<(), String>)
    ensures
        r is Ok <==> password@.len() >= 12,
        r matches Err(e) ==> e@ == "Master password must be at least 12 characters"@,
{
    if password.unicode_len() < 12 {
        return Err(owned("Master password must be at least 12 characters"));
    }
    Ok(())
}

/// The error `validate_path` reports for `s`, if any.
pub open spec fn path_error(s: Seq<char>) -> Option<Seq<char>> {
    if s.len() == 0 {
        Some("Path cannot be empty"@)
    } else if s.contains('\0') {
        Some("Path contains invalid characters"@)
    } else if has_parent_dir_component(s) {
        Some("Path must not contain '..' components"@)
    } else {
        None
    }
}

/// Whether a `..` component starts at `i`.
fn parent_dir_at(s: &Vec<char>, i: usize) -> (b: bool)
    requires
        i < s.len(),
    ensures
        b == (i + 2 <= s.len() && s@[i as int] == '.' && s@[i + 1] == '.' && (i == 0 || s@[i - 1]
            == '/') && (i + 2 == s.len() || s@[i + 2] == '/')),
{
    if s.len() - i < 2 {
        return false;
    }
    s[i] == '.' && s[i + 1] == '.' && (i == 0 || s[i - 1] == '/') && (i + 2 == s.len() || s[i
        + 2] == '/')
}

/// Validates a user-supplied file-system path: non-empty, no NUL byte, and no `..`
/// component (directory traversal). Existence is not checked.
pub fn validate_path(path: &str) -> (r: Result<(), String>)
    ensures
        r is Ok <==> path@.len() > 0 && !path@.contains('\0') && !has_parent_dir_component(path@),
        r matches Err(e) ==> e@ == (if path@.len() == 0 {
            "Path cannot be empty"@
        } else if path@.contains('\0') {
            "Path contains invalid characters"@
        } else {
            "Path must not contain '..' components"@
        }),
        r is Ok <==> path_error(path@) is None,
        r matches Err(e) ==> path_error(path@) == Some(e@),
{
    if path.is_empty() {
        return Err(owned("Path cannot be empty"));
    }
    let v = str_chars(path);
    match find_char(&v, '\0', 0) {
        Some(p) => {
            assert(path@[p as int] == '\0');
            return Err(owned("Path contains invalid characters"));
        },
        None => {},
    }
    let mut i: usize = 0;
    while i < v.len()
        invariant
            i <= v.len(),
            v@ == path@,
            path@.len() > 0,
            !path@.contains('\0'),
            forall|q: int|
                0 <= q < i ==> !(q + 2 <= v@.len() && v@[q] == '.' && #[trigger] v@[q + 1] == '.'
                    && (q == 0 || v@[q - 1] == '/') && (q + 2 == v@.len() || v@[q + 2] == '/')),
        decreases v.len() - i,
    {
        if parent_dir_at(&v, i) {
            assert(v@[i + 1] == '.');
            return Err(owned("Path must not contain '..' components"));
        }
        i = i + 1;
    }
    Ok(())
}

} // verus!
