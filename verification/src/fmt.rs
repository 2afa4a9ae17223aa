//! Decimal and dotted-quad text for integers, as `Display` writes them.

use vstd::prelude::*;
use crate::text::{push_char, string_from_chars};

verus! {

pub open spec fn digit_char(d: nat) -> char
    recommends
        d < 10,
{
    ((d + 48) as u32) as char
}

/// Decimal digits of `n`, most significant first, without leading zeros.
pub open spec fn decimal(n: nat) -> Seq<char>
    decreases n,
{
    if n < 10 {
        seq![digit_char(n)]
    } else {
        decimal(n / 10).push(digit_char(n % 10))
    }
}

/// The IPv4 address `a` in dotted-decimal notation (`Ipv4Addr`'s `Display`).
pub open spec fn ipv4_text(a: u32) -> Seq<char> {
    decimal((a / 0x100_0000) as nat) + seq!['.'] + decimal(((a / 0x1_0000) % 256) as nat) + seq![
        '.',
    ] + decimal(((a / 0x100) % 256) as nat) + seq!['.'] + decimal((a % 256) as nat)
}

fn digit(d: u64) -> (c: char)
    requires
        d < 10,
    ensures
        c == digit_char(d as nat),
{
    let b = (d as u8) + 48;
    let c = b as char;
    assert(b as u32 == (d + 48) as u32);
    c
}

/// Decimal digits of `n`.
pub fn decimal_chars(n: u64) -> (v: Vec<char>)
    ensures
        v@ == decimal(n as nat),
    decreases n,
{
    if n < 10 {
        let mut v = Vec::new();
        v.push(digit(n));
        assert(v@ =~= seq![digit_char(n as nat)]);
        v
    } else {
        let mut v = decimal_chars(n / 10);
        v.push(digit(n % 10));
        v
    }
}

/// `n.to_string()`.
pub fn u64_to_string(n: u64) -> (s: String)
    ensures
        s@ == decimal(n as nat),
{
    let v = decimal_chars(n);
    string_from_chars(&v)
}

/// Appends the characters of `v`.
pub fn push_chars(s: &mut String, v: &Vec<char>)
    ensures
        final(s)@ == old(s)@ + v@,
{
    let mut i: usize = 0;
    while i < v.len()
        invariant
            i <= v.len(),
            s@ == old(s)@ + v@.subrange(0, i as int),
        decreases v.len() - i,
    {
        push_char(s, v[i]);
        i = i + 1;
        assert(s@ =~= old(s)@ + v@.subrange(0, i as int));
    }
    assert(v@.subrange(0, v.len() as int) =~= v@);
}

/// `Ipv4Addr::to_string` of the address `a`.
pub fn ipv4_to_string(a: u32) -> (s: String)
    ensures
        s@ == ipv4_text(a),
{
    let mut s = String::new();
    push_chars(&mut s, &decimal_chars((a / 0x100_0000) as u64));
    push_char(&mut s, '.');
    push_chars(&mut s, &decimal_chars(((a / 0x1_0000) % 256) as u64));
    push_char(&mut s, '.');
    push_chars(&mut s, &decimal_chars(((a / 0x100) % 256) as u64));
    push_char(&mut s, '.');
    push_chars(&mut s, &decimal_chars((a % 256) as u64));
    assert(s@ =~= ipv4_text(a));
    s
}

} // verus!
