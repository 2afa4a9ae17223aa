//! Scanning the text of workflow expressions: `${...}` placeholders, splitting a path
//! at dots, and reading a comparison such as `a == b` or `x >= 3`.

use vstd::prelude::*;
use crate::text::{string_from_chars, trim, trim_chars};

verus! {

/// Index of the first `}` in `s` at or after `j`, or `s.len()` when there is none.
pub open spec fn close_after(s: Seq<char>, j: int) -> int
    decreases s.len() - j,
{
    if j < 0 || j >= s.len() {
        s.len() as int
    } else if s[j] == '}' {
        j
    } else {
        close_after(s, j + 1)
    }
}

/// The matches of the pattern `\$\{([^}]+)\}` in `s` from `i` on, scanning left to right
/// without overlaps: each is the whole match and the text between the braces (at least
/// one character, no `}`).
pub open spec fn captures_from(s: Seq<char>, i: int) -> Seq<(Seq<char>, Seq<char>)>
    decreases s.len() - i,
{
    if i < 0 || i + 1 >= s.len() {
        seq![]
    } else if s[i] == '$' && s[i + 1] == '{' && i + 2 < close_after(s, i + 2) < s.len() {
        let c = close_after(s, i + 2);
        seq![(s.subrange(i, c + 1), s.subrange(i + 2, c))] + captures_from(s, c + 1)
    } else {
        captures_from(s, i + 1)
    }
}

pub open spec fn pair_views(v: Seq<(Vec<char>, Vec<char>)>) -> Seq<(Seq<char>, Seq<char>)> {
    v.map_values(|p: (Vec<char>, Vec<char>)| (p.0@, p.1@))
}

proof fn lemma_close_after_bounds(s: Seq<char>, j: int)
    requires
        0 <= j,
    ensures
        j <= close_after(s, j) <= s.len() || (j > s.len() && close_after(s, j) == s.len()),
        close_after(s, j) < s.len() ==> s[close_after(s, j)] == '}',
        forall|k: int| j <= k < close_after(s, j) ==> s[k] != '}',
    decreases s.len() - j,
{
    if j < s.len() && s[j] != '}' {
        lemma_close_after_bounds(s, j + 1);
    }
}

fn sub_chars(s: &Vec<char>, from: usize, to: usize) -> (r: Vec<char>)
    requires
        from <= to <= s@.len(),
    ensures
        r@ == s@.subrange(from as int, to as int),
{
    let mut r: Vec<char> = Vec::new();
    let mut k: usize = from;
    while k < to
        invariant
            from <= k <= to,
            to <= s@.len(),
            r@ == s@.subrange(from as int, k as int),
        decreases to - k,
    {
        r.push(s[k]);
        k = k + 1;
        assert(r@ =~= s@.subrange(from as int, k as int));
    }
    r
}

/// Every `${...}` placeholder of `s`, left to right: the whole placeholder and the text
/// between its braces.
pub fn find_placeholders(s: &Vec<char>) -> (r: Vec<(Vec<char>, Vec<char>)>)
    ensures
        pair_views(r@) == captures_from(s@, 0),
{
    let n = s.len();
    let mut out: Vec<(Vec<char>, Vec<char>)> = Vec::new();
    let mut i: usize = 0;
    assert(pair_views(out@) =~= seq![]);
    while i < n
        invariant
            n == s@.len(),
            i <= n,
            pair_views(out@) + captures_from(s@, i as int) == captures_from(s@, 0),
        decreases n - i,
    {
        if i + 1 < n && s[i] == '$' && s[i + 1] == '{' {
            let mut c: usize = i + 2;
            while c < n && s[c] != '}'
                invariant
                    n == s@.len(),
                    i + 2 <= c <= n,
                    close_after(s@, (i + 2) as int) == close_after(s@, c as int),
                decreases n - c,
            {
                c = c + 1;
            }
            if c < n && c > i + 2 {
                assert(close_after(s@, (i + 2) as int) == c);
                let whole = sub_chars(s, i, c + 1);
                let inner = sub_chars(s, i + 2, c);
                let ghost before = pair_views(out@);
                out.push((whole, inner));
                proof {
                    let x = (s@.subrange(i as int, c + 1), s@.subrange(i + 2, c as int));
                    assert(pair_views(out@) =~= before.push(x));
                    assert(captures_from(s@, i as int) == seq![x] + captures_from(s@, c + 1));
                    assert(before.push(x) + captures_from(s@, c + 1) =~= before + (seq![x] + captures_from(
                        s@,
                        c + 1,
                    )));
                }
                i = c + 1;
            } else {
                assert(close_after(s@, (i + 2) as int) == c);
                i = i + 1;
            }
        } else {
            i = i + 1;
        }
    }
    assert(captures_from(s@, i as int) =~= seq![]);
    assert(pair_views(out@) + seq![] =~= pair_views(out@));
    out
}

/// The pieces of `s[i..]` between the `c`s, the first piece starting at `start`.
pub open spec fn split_from(s: Seq<char>, c: char, i: int, start: int) -> Seq<Seq<char>>
    decreases s.len() - i,
{
    if i < 0 || i >= s.len() {
        seq![s.subrange(start, s.len() as int)]
    } else if s[i] == c {
        seq![s.subrange(start, i)] + split_from(s, c, i + 1, i + 1)
    } else {
        split_from(s, c, i + 1, start)
    }
}

/// `str::split` at a character: the pieces between the `c`s, empty ones included.
pub open spec fn split_on(s: Seq<char>, c: char) -> Seq<Seq<char>> {
    split_from(s, c, 0, 0)
}

pub open spec fn seq_views(v: Seq<Vec<char>>) -> Seq<Seq<char>> {
    v.map_values(|x: Vec<char>| x@)
}

/// `s` split at every `c`.
pub fn split_char(s: &Vec<char>, c: char) -> (r: Vec<Vec<char>>)
    ensures
        seq_views(r@) == split_on(s@, c),
        r@.len() >= 1,
{
    let n = s.len();
    let mut out: Vec<Vec<char>> = Vec::new();
    let mut start: usize = 0;
    let mut i: usize = 0;
    assert(seq_views(out@) =~= seq![]);
    while i < n
        invariant
            n == s@.len(),
            start <= i <= n,
            seq_views(out@) + split_from(s@, c, i as int, start as int) == split_on(s@, c),
        decreases n - i,
    {
        if s[i] == c {
            let piece = sub_chars(s, start, i);
            let ghost before = seq_views(out@);
            out.push(piece);
            proof {
                let x = s@.subrange(start as int, i as int);
                assert(seq_views(out@) =~= before.push(x));
                assert(before.push(x) + split_from(s@, c, i + 1, i + 1) =~= before + (seq![x] + split_from(
                    s@,
                    c,
                    i + 1,
                    i + 1,
                )));
            }
            start = i + 1;
        }
        i = i + 1;
    }
    let last = sub_chars(s, start, n);
    let ghost before = seq_views(out@);
    out.push(last);
    assert(seq_views(out@) =~= before + seq![s@.subrange(start as int, n as int)]);
    out
}

/// Index of the first occurrence of `pat` in `s` at or after `i`, or `s.len()`.
pub open spec fn find_from(s: Seq<char>, pat: Seq<char>, i: int) -> int
    decreases s.len() - i,
{
    if i < 0 || i >= s.len() || i + pat.len() > s.len() {
        s.len() as int
    } else if s.subrange(i, i + pat.len()) == pat {
        i
    } else {
        find_from(s, pat, i + 1)
    }
}

/// `str::split_once`: the text before and after the first occurrence of `pat`.
pub open spec fn split_once(s: Seq<char>, pat: Seq<char>) -> Option<(Seq<char>, Seq<char>)> {
    let k = find_from(s, pat, 0);
    if k < s.len() {
        Some((s.subrange(0, k), s.subrange(k + pat.len(), s.len() as int)))
    } else {
        None
    }
}

proof fn lemma_find_from_bounds(s: Seq<char>, pat: Seq<char>, i: int)
    requires
        0 <= i,
        pat.len() > 0,
    ensures
        find_from(s, pat, i) < s.len() ==> i <= find_from(s, pat, i) && find_from(s, pat, i) + pat.len()
            <= s.len() && s.subrange(find_from(s, pat, i), find_from(s, pat, i) + pat.len()) == pat,
        find_from(s, pat, i) <= s.len(),
    decreases s.len() - i,
{
    if i + pat.len() <= s.len() && s.subrange(i, i + pat.len()) != pat {
        lemma_find_from_bounds(s, pat, i + 1);
    }
}

/// Whether `pat` occurs in `s` at `i`.
fn matches_at(s: &Vec<char>, pat: &Vec<char>, i: usize) -> (r: bool)
    requires
        i + pat@.len() <= s.len(),
    ensures
        r == (s@.subrange(i as int, i + pat@.len()) == pat@),
{
    let mut j: usize = 0;
    while j < pat.len()
        invariant
            i + pat@.len() <= s.len(),
            j <= pat@.len(),
            s@.subrange(i as int, i + j) == pat@.subrange(0, j as int),
        decreases pat@.len() - j,
    {
        if s[i + j] != pat[j] {
            assert(s@.subrange(i as int, i + pat@.len())[j as int] != pat@[j as int]);
            return false;
        }
        j = j + 1;
        assert(s@.subrange(i as int, i + j) =~= pat@.subrange(0, j as int));
    }
    assert(pat@.subrange(0, pat@.len() as int) =~= pat@);
    true
}

/// The text before and after the first `pat` in `s`, trimmed, if `pat` occurs.
pub fn split_once_trimmed(s: &Vec<char>, pat: &Vec<char>) -> (r: Option<(String, String)>)
    requires
        pat@.len() > 0,
    ensures
        match split_once(s@, pat@) {
            Some((a, b)) => r matches Some((x, y)) && x@ == trim(a) && y@ == trim(b),
            None => r is None,
        },
{
    let n = s.len();
    let m = pat.len();
    let mut i: usize = 0;
    while i <= n && m <= n - i
        invariant
            n == s@.len(),
            m == pat@.len(),
            m > 0,
            find_from(s@, pat@, 0) == find_from(s@, pat@, i as int),
        decreases n - i,
    {
        if matches_at(s, pat, i) {
            proof {
                lemma_find_from_bounds(s@, pat@, 0);
            }
            let a = sub_chars(s, 0, i);
            let b = sub_chars(s, i + m, n);
            return Some((string_from_chars(&trim_chars(&a)), string_from_chars(&trim_chars(&b))));
        }
        i = i + 1;
    }
    None
}

/// How a numeric comparison compares its two sides.
#[derive(Clone, Copy, Debug, PartialEq, Eq, Structural)]
pub enum NumericOp {
    AtLeast,
    AtMost,
    Above,
    Below,
}

/// A numeric comparison still to be made: it holds or fails when both sides read as
/// numbers, and is passed over otherwise.
pub struct NumericCheck {
    pub op: NumericOp,
    pub left: String,
    pub right: String,
}

/// What a comparison comes to: decided on its text, or the numeric checks to try in
/// order (the first whose sides both read as numbers gives the answer; none: false).
pub enum Comparison {
    Decided(bool),
    Numeric(Vec<NumericCheck>),
}

pub open spec fn op_text(op: NumericOp) -> Seq<char> {
    match op {
        NumericOp::AtLeast => ">="@,
        NumericOp::AtMost => "<="@,
        NumericOp::Above => ">"@,
        NumericOp::Below => "<"@,
    }
}

/// The operators tried, in order.
pub open spec fn numeric_ops() -> Seq<NumericOp> {
    seq![NumericOp::AtLeast, NumericOp::AtMost, NumericOp::Above, NumericOp::Below]
}

/// The numeric checks among the first `n` operators that occur in `e`, each with the
/// trimmed text before and after the operator's first occurrence.
pub open spec fn numeric_checks(e: Seq<char>, n: nat) -> Seq<(NumericOp, Seq<char>, Seq<char>)>
    decreases n,
{
    if n == 0 {
        seq![]
    } else {
        let prev = numeric_checks(e, (n - 1) as nat);
        let op = numeric_ops()[n - 1];
        match split_once(e, op_text(op)) {
            Some((a, b)) => prev.push((op, trim(a), trim(b))),
            None => prev,
        }
    }
}

pub open spec fn check_views(v: Seq<NumericCheck>) -> Seq<(NumericOp, Seq<char>, Seq<char>)> {
    v.map_values(|c: NumericCheck| (c.op, c.left@, c.right@))
}

/// A comparison's meaning: `==` and `!=` compare the trimmed texts (the first that
/// occurs decides); otherwise the numeric operators that occur, in order.
pub open spec fn comparison_meaning(e: Seq<char>) -> Result<bool, Seq<(NumericOp, Seq<char>, Seq<char>)>> {
    match split_once(e, "=="@) {
        Some((a, b)) => Ok(trim(a) == trim(b)),
        None => match split_once(e, "!="@) {
            Some((a, b)) => Ok(trim(a) != trim(b)),
            None => Err(numeric_checks(e, 4)),
        },
    }
}

fn op_chars(op: NumericOp) -> (r: Vec<char>)
    ensures
        r@ == op_text(op),
        r@.len() > 0,
{
    let mut v: Vec<char> = Vec::new();
    match op {
        NumericOp::AtLeast => {
            v.push('>');
            v.push('=');
        },
        NumericOp::AtMost => {
            v.push('<');
            v.push('=');
        },
        NumericOp::Above => {
            v.push('>');
        },
        NumericOp::Below => {
            v.push('<');
        },
    }
    proof {
        reveal_strlit(">=");
        reveal_strlit("<=");
        reveal_strlit(">");
        reveal_strlit("<");
    }
    assert(v@ =~= op_text(op));
    v
}

/// Reads the comparison `e`.
pub fn comparison_of(e: &Vec<char>) -> (r: Comparison)
    ensures
        match comparison_meaning(e@) {
            Ok(b) => r matches Comparison::Decided(x) && x == b,
            Err(checks) => r matches Comparison::Numeric(v) && check_views(v@) == checks,
        },
{
    let mut eq: Vec<char> = Vec::new();
    eq.push('=');
    eq.push('=');
    let mut ne: Vec<char> = Vec::new();
    ne.push('!');
    ne.push('=');
    proof {
        reveal_strlit("==");
        reveal_strlit("!=");
    }
    assert(eq@ =~= "=="@);
    assert(ne@ =~= "!="@);
    match split_once_trimmed(e, &eq) {
        Some((a, b)) => {
            return Comparison::Decided(crate::text::str_eq(a.as_str(), b.as_str()));
        },
        None => {},
    }
    match split_once_trimmed(e, &ne) {
        Some((a, b)) => {
            return Comparison::Decided(!crate::text::str_eq(a.as_str(), b.as_str()));
        },
        None => {},
    }
    let ops: [NumericOp; 4] = [NumericOp::AtLeast, NumericOp::AtMost, NumericOp::Above, NumericOp::Below];
    assert(ops@ =~= numeric_ops());
    let mut out: Vec<NumericCheck> = Vec::new();
    let mut k: usize = 0;
    assert(check_views(out@) =~= numeric_checks(e@, 0));
    while k < 4
        invariant
            k <= 4,
            ops@ == numeric_ops(),
            check_views(out@) == numeric_checks(e@, k as nat),
        decreases 4 - k,
    {
        let op = ops[k];
        let pat = op_chars(op);
        let ghost before = check_views(out@);
        match split_once_trimmed(e, &pat) {
            Some((a, b)) => {
                out.push(NumericCheck { op, left: a, right: b });
                assert(check_views(out@) =~= before.push((op, out@.last().left@, out@.last().right@)));
            },
            None => {},
        }
        k = k + 1;
    }
    Comparison::Numeric(out)
}

proof fn lemma_find_first(s: Seq<char>, pat: Seq<char>, i: int, k: int)
    requires
        0 <= i <= k,
        k + pat.len() <= s.len(),
        s.subrange(k, k + pat.len()) == pat,
        forall|p: int| i <= p < k ==> #[trigger] s.subrange(p, p + pat.len()) != pat,
    ensures
        find_from(s, pat, i) == k,
    decreases k - i,
{
    if i < k {
        assert(s.subrange(i, i + pat.len()) != pat);
        lemma_find_first(s, pat, i + 1, k);
    }
}

proof fn lemma_find_none(s: Seq<char>, pat: Seq<char>, i: int)
    requires
        0 <= i,
        forall|p: int| i <= p && p + pat.len() <= s.len() ==> #[trigger] s.subrange(p, p + pat.len()) != pat,
    ensures
        find_from(s, pat, i) == s.len(),
    decreases s.len() - i,
{
    if i < s.len() && i + pat.len() <= s.len() {
        lemma_find_none(s, pat, i + 1);
    }
}

/// `a == b` and `a != b`, with no `=` on either side, compare the two sides' trimmed
/// texts: equal texts make `==` hold and `!=` fail, different ones the other way round.
pub proof fn law_equality_compares_trimmed_sides(a: Seq<char>, b: Seq<char>)
    requires
        !a.contains('='),
        !b.contains('='),
    ensures
        comparison_meaning(a + "=="@ + b) == Ok::<bool, Seq<(NumericOp, Seq<char>, Seq<char>)>>(trim(a) == trim(b)),
        comparison_meaning(a + "!="@ + b) == Ok::<bool, Seq<(NumericOp, Seq<char>, Seq<char>)>>(trim(a) != trim(b)),
{
    reveal_strlit("==");
    reveal_strlit("!=");
    let eq = "=="@;
    let ne = "!="@;
    let s1 = a + eq + b;
    let k = a.len() as int;
    assert(s1.subrange(k, k + 2) =~= eq);
    assert forall|p: int| 0 <= p < k implies #[trigger] s1.subrange(p, p + eq.len()) != eq by {
        assert(s1[p] == a[p]);
        if s1.subrange(p, p + 2) == eq {
            assert(s1.subrange(p, p + 2)[0] == '=');
            assert(a.contains('='));
        }
    }
    lemma_find_first(s1, eq, 0, k);
    assert(s1.subrange(0, k) =~= a);
    assert(s1.subrange(k + 2, s1.len() as int) =~= b);
    let s2 = a + ne + b;
    assert forall|p: int| 0 <= p && p + eq.len() <= s2.len() implies #[trigger] s2.subrange(p, p + eq.len()) != eq by {
        if s2.subrange(p, p + 2) == eq {
            assert(s2.subrange(p, p + 2)[0] == '=' && s2.subrange(p, p + 2)[1] == '=');
            assert(s2[p] == '=' && s2[p + 1] == '=');
            if p < k {
                assert(a[p] == '=');
                assert(a.contains('='));
            } else if p == k {
                assert(s2[p] == '!');
            } else if p == k + 1 {
                assert(s2[p + 1] == b[0]);
                assert(b.contains('='));
            } else {
                assert(s2[p] == b[p - k - 2]);
                assert(b.contains('='));
            }
        }
    }
    lemma_find_none(s2, eq, 0);
    assert(s2.subrange(k, k + 2) =~= ne);
    assert forall|p: int| 0 <= p < k implies #[trigger] s2.subrange(p, p + ne.len()) != ne by {
        if s2.subrange(p, p + 2) == ne {
            assert(s2.subrange(p, p + 2)[1] == '=');
            assert(s2[p + 1] == '=');
            if p + 1 < k {
                assert(a[p + 1] == '=');
                assert(a.contains('='));
            } else {
                assert(s2[p + 1] == '!');
            }
        }
    }
    lemma_find_first(s2, ne, 0, k);
    assert(s2.subrange(0, k) =~= a);
    assert(s2.subrange(k + 2, s2.len() as int) =~= b);
}

/// `a > b` and `a < b`, with no `<`, `>`, `=` or `!` on either side, leave exactly one
/// numeric check: above for `>`, below for `<`, between the trimmed sides.
pub proof fn law_single_comparison_is_one_check(a: Seq<char>, b: Seq<char>)
    requires
        !a.contains('=') && !a.contains('<') && !a.contains('>') && !a.contains('!'),
        !b.contains('=') && !b.contains('<') && !b.contains('>') && !b.contains('!'),
    ensures
        comparison_meaning(a + ">"@ + b) == Err::<bool, Seq<(NumericOp, Seq<char>, Seq<char>)>>(seq![(NumericOp::Above, trim(a), trim(b))]),
        comparison_meaning(a + "<"@ + b) == Err::<bool, Seq<(NumericOp, Seq<char>, Seq<char>)>>(seq![(NumericOp::Below, trim(a), trim(b))]),
{
    reveal_strlit(">");
    reveal_strlit("<");
    reveal_strlit("==");
    reveal_strlit("!=");
    reveal_strlit(">=");
    reveal_strlit("<=");
    let k = a.len() as int;
    lemma_one_op(a, b, '>');
    lemma_one_op(a, b, '<');
    assert(">"@ =~= seq!['>']);
    assert("<"@ =~= seq!['<']);
    assert(numeric_ops()[0] == NumericOp::AtLeast && numeric_ops()[1] == NumericOp::AtMost);
    assert(numeric_ops()[2] == NumericOp::Above && numeric_ops()[3] == NumericOp::Below);
    assert(op_text(NumericOp::AtLeast) =~= seq!['>', '=']);
    assert(op_text(NumericOp::AtMost) =~= seq!['<', '=']);
    assert(op_text(NumericOp::Above) =~= seq!['>']);
    assert(op_text(NumericOp::Below) =~= seq!['<']);
    assert("=="@ =~= seq!['=', '=']);
    assert("!="@ =~= seq!['!', '=']);
    reveal_with_fuel(numeric_checks, 5);
}

/// In `a`, `c`, `b` (sides free of the operator characters), each two-character
/// operator and `==`/`!=` is absent, and `c` alone occurs only between the sides.
proof fn lemma_one_op(a: Seq<char>, b: Seq<char>, c: char)
    requires
        c == '<' || c == '>',
        !a.contains('=') && !a.contains('<') && !a.contains('>') && !a.contains('!'),
        !b.contains('=') && !b.contains('<') && !b.contains('>') && !b.contains('!'),
    ensures
        ({
            let s = a + seq![c] + b;
            &&& split_once(s, seq!['=', '=']) is None
            &&& split_once(s, seq!['!', '=']) is None
            &&& split_once(s, seq!['>', '=']) is None
            &&& split_once(s, seq!['<', '=']) is None
            &&& split_once(s, seq![c]) == Some((a, b))
            &&& split_once(s, seq![if c == '<' { '>' } else { '<' }]) is None
        }),
{
    let s = a + seq![c] + b;
    let k = a.len() as int;
    assert forall|p: int| 0 <= p < s.len() && #[trigger] s[p] == '=' implies false by {
        if p < k { assert(a[p] == '='); assert(a.contains('=')); } else if p > k { assert(b[p - k - 1] == '='); assert(b.contains('=')); }
    }
    let other = if c == '<' { '>' } else { '<' };
    assert forall|p: int| 0 <= p < s.len() && #[trigger] s[p] == other implies false by {
        if p < k { assert(a[p] == other); assert(a.contains(other)); } else if p > k { assert(b[p - k - 1] == other); assert(b.contains(other)); }
    }
    assert forall|p: int| 0 <= p < s.len() && #[trigger] s[p] == c implies p == k by {
        if p < k { assert(a[p] == c); assert(a.contains(c)); } else if p > k { assert(b[p - k - 1] == c); assert(b.contains(c)); }
    }
    let pats = seq![seq!['=', '='], seq!['!', '='], seq!['>', '='], seq!['<', '=']];
    assert forall|p: int| 0 <= p && p + 2 <= s.len() implies #[trigger] s.subrange(p, p + 2) != seq!['=', '='] && s.subrange(p, p + 2)
        != seq!['!', '='] && s.subrange(p, p + 2) != seq!['>', '='] && s.subrange(p, p + 2) != seq!['<', '='] by {
        assert(s.subrange(p, p + 2)[1] == s[p + 1]);
        assert(s[p + 1] != '=');
    }
    lemma_find_none(s, seq!['=', '='], 0);
    lemma_find_none(s, seq!['!', '='], 0);
    lemma_find_none(s, seq!['>', '='], 0);
    lemma_find_none(s, seq!['<', '='], 0);
    assert forall|p: int| 0 <= p && p + 1 <= s.len() implies #[trigger] s.subrange(p, p + 1) != seq![other] by {
        if s.subrange(p, p + 1) == seq![other] {
            assert(s.subrange(p, p + 1)[0] == s[p]);
        }
    }
    lemma_find_none(s, seq![other], 0);
    assert(s.subrange(k, k + 1) =~= seq![c]);
    assert forall|p: int| 0 <= p < k implies #[trigger] s.subrange(p, p + 1) != seq![c] by {
        if s.subrange(p, p + 1) == seq![c] {
            assert(s.subrange(p, p + 1)[0] == s[p]);
        }
    }
    lemma_find_first(s, seq![c], 0, k);
    assert(s.subrange(0, k) =~= a);
    assert(s.subrange(k + 1, s.len() as int) =~= b);
}

} // verus!
