//! Tailscale status, normalised for the frontend.
//!
//! The status comes from `tailscale status --json` on the local machine, run and parsed
//! by the caller; this module turns the parsed document into what the frontend shows.
//! Every address it emits passed the same `validate_hostname` / `validate_ip` checks the
//! rest of the app applies to user input.

use vstd::prelude::*;
use crate::text::{concat, owned, str_chars, string_from_chars, trim, trim_chars, utf8_len};
use crate::validation::{is_hostname_syntax, is_ipv4, validate_hostname, validate_ip};

verus! {

/// One peer (or the local node) on the tailnet, as shown to the frontend.
pub struct TailscalePeer {
    /// Stable node identifier (the `ID` field).
    pub id: String,
    pub hostname: String,
    /// MagicDNS name without its trailing dot; empty when not available.
    pub dns_name: String,
    /// The node's tailnet IPv4 address, if it has one.
    pub ipv4: Option<String>,
    pub os: String,
    pub online: bool,
    /// The node advertises SSH host keys: Tailscale SSH is enabled on it.
    pub tailscale_ssh: bool,
    pub exit_node: bool,
    /// The address to store for this peer: the MagicDNS name when MagicDNS is enabled
    /// for the tailnet, otherwise the IPv4 address.
    pub preferred_address: String,
}

/// A peer as plain values.
pub ghost struct PeerModel {
    pub id: Seq<char>,
    pub hostname: Seq<char>,
    pub dns_name: Seq<char>,
    pub ipv4: Option<Seq<char>>,
    pub os: Seq<char>,
    pub online: bool,
    pub tailscale_ssh: bool,
    pub exit_node: bool,
    pub preferred_address: Seq<char>,
}

pub open spec fn opt_seq(o: Option<String>) -> Option<Seq<char>> {
    match o {
        Some(s) => Some(s@),
        None => None,
    }
}

impl View for TailscalePeer {
    type V = PeerModel;

    open spec fn view(&self) -> PeerModel {
        PeerModel {
            id: self.id@,
            hostname: self.hostname@,
            dns_name: self.dns_name@,
            ipv4: opt_seq(self.ipv4),
            os: self.os@,
            online: self.online,
            tailscale_ssh: self.tailscale_ssh,
            exit_node: self.exit_node,
            preferred_address: self.preferred_address@,
        }
    }
}

impl TailscalePeer {
    pub fn copy(&self) -> (r: Self)
        ensures
            r@ == self@,
    {
        TailscalePeer {
            id: self.id.clone(),
            hostname: self.hostname.clone(),
            dns_name: self.dns_name.clone(),
            ipv4: match &self.ipv4 {
                Some(s) => Some(s.clone()),
                None => None,
            },
            os: self.os.clone(),
            online: self.online,
            tailscale_ssh: self.tailscale_ssh,
            exit_node: self.exit_node,
            preferred_address: self.preferred_address.clone(),
        }
    }
}

/// The normalised status.
pub struct TailscaleStatus {
    /// False when no `tailscale` binary was found; every other field is then empty.
    pub installed: bool,
    /// `BackendState` as reported, e.g. `Running`, `NeedsLogin`, `Stopped`.
    pub backend_state: String,
    pub magic_dns_enabled: bool,
    pub magic_dns_suffix: Option<String>,
    pub self_node: Option<TailscalePeer>,
    /// Peers (without the local node), online first, then by hostname.
    pub peers: Vec<TailscalePeer>,
}

impl TailscaleStatus {
    /// The status when no `tailscale` binary is installed.
    pub fn not_installed() -> (r: Self)
        ensures
            !r.installed,
            r.backend_state@.len() == 0,
            !r.magic_dns_enabled,
            r.magic_dns_suffix is None,
            r.self_node is None,
            r.peers@.len() == 0,
    {
        TailscaleStatus {
            installed: false,
            backend_state: String::new(),
            magic_dns_enabled: false,
            magic_dns_suffix: None,
            self_node: None,
            peers: Vec::new(),
        }
    }
}

/// The tailnet part of the status document.
pub struct RawTailnet {
    pub magic_dns_enabled: bool,
}

/// A peer as the status document gives it.
pub struct RawPeer {
    pub id: String,
    pub host_name: String,
    pub dns_name: String,
    pub tailscale_ips: Vec<String>,
    pub os: String,
    pub online: bool,
    pub exit_node: bool,
    /// Present (and non-empty) only when Tailscale SSH is enabled on the node.
    pub ssh_host_keys: Option<Vec<String>>,
}

/// The status document, with the fields that are used.
pub struct RawStatus {
    pub backend_state: String,
    pub magic_dns_suffix: String,
    pub current_tailnet: Option<RawTailnet>,
    pub self_node: Option<RawPeer>,
    /// The peers of the `Peer` map, in any order.
    pub peer: Option<Vec<RawPeer>>,
}

/// `s` without its trailing dots.
pub open spec fn trim_dots(s: Seq<char>) -> Seq<char>
    decreases s.len(),
{
    if s.len() > 0 && s.last() == '.' {
        trim_dots(s.drop_last())
    } else {
        s
    }
}

/// `validate_hostname` accepts `s`.
pub open spec fn hostname_ok(s: Seq<char>) -> bool {
    s.len() > 0 && utf8_len(s) <= 253 && is_hostname_syntax(s)
}

/// The peer's MagicDNS name: trimmed, without trailing dots, and empty unless it is a
/// valid host name.
pub open spec fn peer_dns_name(raw: Seq<char>) -> Seq<char> {
    let d = trim_dots(trim(raw));
    if d.len() == 0 || !hostname_ok(d) {
        seq![]
    } else {
        d
    }
}

/// The first address that is a valid IPv4 address once trimmed, trimmed.
pub open spec fn first_ipv4(ips: Seq<Seq<char>>) -> Option<Seq<char>>
    decreases ips.len(),
{
    if ips.len() == 0 {
        None
    } else if is_ipv4(trim(ips[0])) {
        Some(trim(ips[0]))
    } else {
        first_ipv4(ips.drop_first())
    }
}

pub open spec fn seq_views(v: Seq<String>) -> Seq<Seq<char>> {
    Seq::new(v.len(), |i: int| v[i]@)
}

/// The peer as shown, or `None` when it has no usable address.
pub open spec fn normalised(raw: RawPeer, magic_dns_enabled: bool) -> Option<PeerModel> {
    let dns = peer_dns_name(raw.dns_name@);
    let ipv4 = first_ipv4(seq_views(raw.tailscale_ips@));
    let preferred = if magic_dns_enabled && dns.len() > 0 {
        Some(dns)
    } else {
        ipv4
    };
    match preferred {
        None => None,
        Some(p) => Some(
            PeerModel {
                id: raw.id@,
                hostname: if trim(raw.host_name@).len() == 0 {
                    p
                } else {
                    trim(raw.host_name@)
                },
                dns_name: dns,
                ipv4,
                os: raw.os@,
                online: raw.online,
                tailscale_ssh: match raw.ssh_host_keys {
                    Some(keys) => keys@.len() > 0,
                    None => false,
                },
                exit_node: raw.exit_node,
                preferred_address: p,
            },
        ),
    }
}

/// `s` without its trailing dots.
fn trim_dots_chars(s: &Vec<char>) -> (r: Vec<char>)
    ensures
        r@ == trim_dots(s@),
{
    let mut n = s.len();
    assert(s@.subrange(0, n as int) =~= s@);
    while n > 0 && s[n - 1] == '.'
        invariant
            n <= s@.len(),
            trim_dots(s@) == trim_dots(s@.subrange(0, n as int)),
        decreases n,
    {
        assert(s@.subrange(0, n - 1) =~= s@.subrange(0, n as int).drop_last());
        n = n - 1;
    }
    let mut r: Vec<char> = Vec::new();
    let mut i: usize = 0;
    while i < n
        invariant
            i <= n,
            n <= s@.len(),
            r@ == s@.subrange(0, i as int),
        decreases n - i,
    {
        r.push(s[i]);
        i = i + 1;
        assert(r@ =~= s@.subrange(0, i as int));
    }
    r
}

/// The first address that is a valid IPv4 address once trimmed.
fn first_valid_ipv4(ips: &Vec<String>) -> (r: Option<String>)
    ensures
        opt_seq(r) == first_ipv4(seq_views(ips@)),
{
    let mut i: usize = 0;
    assert(seq_views(ips@).subrange(0, ips@.len() as int) =~= seq_views(ips@));
    while i < ips.len()
        invariant
            i <= ips@.len(),
            first_ipv4(seq_views(ips@)) == first_ipv4(seq_views(ips@).subrange(i as int, ips@.len() as int)),
        decreases ips@.len() - i,
    {
        let t = string_from_chars(&trim_chars(&str_chars(ips[i].as_str())));
        let ghost rest = seq_views(ips@).subrange(i as int, ips@.len() as int);
        assert(rest[0] == ips@[i as int]@);
        if validate_ip(t.as_str()).is_ok() {
            return Some(t);
        }
        assert(rest.drop_first() =~= seq_views(ips@).subrange(i + 1, ips@.len() as int));
        i = i + 1;
    }
    None
}

/// Converts a peer of the status document into what the frontend shows, or `None` if
/// it has no usable address (IPv6 only, or addresses that fail validation).
pub fn normalise_peer(raw: RawPeer, magic_dns_enabled: bool) -> (r: Option<TailscalePeer>)
    ensures
        match r {
            Some(p) => normalised(raw, magic_dns_enabled) == Some(p@),
            None => normalised(raw, magic_dns_enabled) is None,
        },
{
    let d = trim_dots_chars(&trim_chars(&str_chars(raw.dns_name.as_str())));
    let mut has_dns = false;
    let dns_name = if d.len() == 0 {
        String::new()
    } else {
        let ds = string_from_chars(&d);
        if validate_hostname(ds.as_str()).is_err() {
            String::new()
        } else {
            has_dns = true;
            ds
        }
    };
    assert(dns_name@ == peer_dns_name(raw.dns_name@));
    assert(has_dns == (dns_name@.len() > 0));
    let ipv4 = first_valid_ipv4(&raw.tailscale_ips);
    let preferred_address = if magic_dns_enabled && has_dns {
        dns_name.clone()
    } else {
        match &ipv4 {
            Some(a) => a.clone(),
            None => {
                return None;
            },
        }
    };
    let h = trim_chars(&str_chars(raw.host_name.as_str()));
    let hostname = if h.len() == 0 {
        preferred_address.clone()
    } else {
        string_from_chars(&h)
    };
    let tailscale_ssh = match &raw.ssh_host_keys {
        Some(keys) => keys.len() > 0,
        None => false,
    };
    Some(
        TailscalePeer {
            id: raw.id,
            hostname,
            dns_name,
            ipv4,
            os: raw.os,
            online: raw.online,
            tailscale_ssh,
            exit_node: raw.exit_node,
            preferred_address,
        },
    )
}

/// `a` comes before `b` in code point order (the order of `String`'s `cmp`).
pub open spec fn lex_lt(a: Seq<char>, b: Seq<char>) -> bool
    decreases a.len(),
{
    if a.len() == 0 {
        b.len() > 0
    } else if b.len() == 0 {
        false
    } else if a[0] != b[0] {
        (a[0] as u32) < (b[0] as u32)
    } else {
        lex_lt(a.drop_first(), b.drop_first())
    }
}

proof fn lemma_lex_lt_irreflexive(a: Seq<char>)
    ensures
        !lex_lt(a, a),
    decreases a.len(),
{
    if a.len() > 0 {
        lemma_lex_lt_irreflexive(a.drop_first());
    }
}

proof fn lemma_lex_lt_transitive(a: Seq<char>, b: Seq<char>, c: Seq<char>)
    requires
        lex_lt(a, b),
        lex_lt(b, c),
    ensures
        lex_lt(a, c),
    decreases a.len(),
{
    if a.len() > 0 && b.len() > 0 && c.len() > 0 {
        if a[0] == b[0] && b[0] == c[0] {
            lemma_lex_lt_transitive(a.drop_first(), b.drop_first(), c.drop_first());
        }
    }
}

/// The Unicode lowercase mapping of `s` (`str::to_lowercase`).
pub uninterp spec fn lowercase(s: Seq<char>) -> Seq<char>;

/// `str::to_lowercase`, whose result is `lowercase` of its argument.
#[verifier::external_body]
pub(crate) fn to_lowercase(s: &str) -> (r: String)
    ensures
        r@ == lowercase(s@),
{
    s.to_lowercase()
}

/// `a` sorts before `b`: online first, then by lowercase hostname, then by id.
pub open spec fn peer_lt(a: PeerModel, b: PeerModel) -> bool {
    if a.online != b.online {
        a.online
    } else if lowercase(a.hostname) != lowercase(b.hostname) {
        lex_lt(lowercase(a.hostname), lowercase(b.hostname))
    } else {
        lex_lt(a.id, b.id)
    }
}

proof fn lemma_peer_lt_irreflexive(a: PeerModel)
    ensures
        !peer_lt(a, a),
{
    lemma_lex_lt_irreflexive(a.id);
}

proof fn lemma_peer_lt_transitive(a: PeerModel, b: PeerModel, c: PeerModel)
    requires
        peer_lt(a, b),
        peer_lt(b, c),
    ensures
        peer_lt(a, c),
{
    let (la, lb, lc) = (lowercase(a.hostname), lowercase(b.hostname), lowercase(c.hostname));
    if a.online == b.online && b.online == c.online {
        if la != lb && lb != lc {
            lemma_lex_lt_transitive(la, lb, lc);
            if la == lc {
                lemma_lex_lt_irreflexive(la);
            }
        } else if la == lb && lb == lc {
            lemma_lex_lt_transitive(a.id, b.id, c.id);
        }
    }
}

/// `out` is `inp` reordered.
pub open spec fn permutes<T>(out: Seq<T>, inp: Seq<T>) -> bool {
    exists|p: Seq<int>|
        #![trigger p.len()]
        p.len() == inp.len() && out.len() == inp.len() && (forall|i: int| 0 <= i < p.len() ==> 0 <= #[trigger] p[i] < inp.len())
            && (forall|i: int, j: int| 0 <= i < j < p.len() ==> #[trigger] p[i] != #[trigger] p[j]) && (forall|i: int|
            0 <= i < out.len() ==> #[trigger] out[i] == inp[p[i]])
}

/// No entry sorts before an earlier one.
pub open spec fn peers_sorted(s: Seq<PeerModel>) -> bool {
    forall|a: int, b: int| 0 <= a < b < s.len() ==> !peer_lt(#[trigger] s[b], #[trigger] s[a])
}

pub open spec fn peer_views(v: Seq<TailscalePeer>) -> Seq<PeerModel> {
    Seq::new(v.len(), |i: int| v[i]@)
}

/// `a` before `b` in code point order.
fn chars_lt(a: &Vec<char>, b: &Vec<char>) -> (r: bool)
    ensures
        r == lex_lt(a@, b@),
{
    let mut i: usize = 0;
    assert(a@.subrange(0, a@.len() as int) =~= a@);
    assert(b@.subrange(0, b@.len() as int) =~= b@);
    while i < a.len() && i < b.len() && a[i] == b[i]
        invariant
            i <= a@.len(),
            i <= b@.len(),
            lex_lt(a@, b@) == lex_lt(a@.subrange(i as int, a@.len() as int), b@.subrange(i as int, b@.len() as int)),
        decreases a@.len() - i,
    {
        let ghost sa = a@.subrange(i as int, a@.len() as int);
        let ghost sb = b@.subrange(i as int, b@.len() as int);
        assert(sa.drop_first() =~= a@.subrange(i + 1, a@.len() as int));
        assert(sb.drop_first() =~= b@.subrange(i + 1, b@.len() as int));
        i = i + 1;
    }
    let ghost sa = a@.subrange(i as int, a@.len() as int);
    let ghost sb = b@.subrange(i as int, b@.len() as int);
    if i == a.len() {
        i < b.len()
    } else if i == b.len() {
        false
    } else {
        assert(sa[0] == a@[i as int] && sb[0] == b@[i as int]);
        (a[i] as u32) < (b[i] as u32)
    }
}

fn bools_false(n: usize) -> (r: Vec<bool>)
    ensures
        r@.len() == n,
        forall|k: int| 0 <= k < n ==> !(#[trigger] r@[k]),
{
    let mut r: Vec<bool> = Vec::new();
    let mut i: usize = 0;
    while i < n
        invariant
            i <= n,
            r@.len() == i,
            forall|k: int| 0 <= k < i ==> !(#[trigger] r@[k]),
        decreases n - i,
    {
        r.push(false);
        i = i + 1;
    }
    r
}

/// The lowercase hostname and the id of each peer.
#[verifier::spinoff_prover]
fn sort_keys(peers: &Vec<TailscalePeer>) -> (r: (Vec<Vec<char>>, Vec<Vec<char>>))
    ensures
        r.0@.len() == peers@.len(),
        r.1@.len() == peers@.len(),
        forall|j: int| 0 <= j < peers@.len() ==> (#[trigger] r.0@[j])@ == lowercase(peers@[j].hostname@) && r.1@[j]@ == peers@[j].id@,
{
    let n = peers.len();
    let mut lower: Vec<Vec<char>> = Vec::new();
    let mut ids: Vec<Vec<char>> = Vec::new();
    let mut k: usize = 0;
    while k < n
        invariant
            n == peers@.len(),
            k <= n,
            lower@.len() == k,
            ids@.len() == k,
            forall|j: int| 0 <= j < k ==> (#[trigger] lower@[j])@ == lowercase(peers@[j].hostname@) && ids@[j]@ == peers@[j].id@,
        decreases n - k,
    {
        let low = to_lowercase(peers[k].hostname.as_str());
        lower.push(str_chars(low.as_str()));
        ids.push(str_chars(peers[k].id.as_str()));
        k = k + 1;
    }
    (lower, ids)
}

/// Sorts peers online first, then by lowercase hostname, then by id.
#[verifier::spinoff_prover]
fn sort_peers(peers: &Vec<TailscalePeer>) -> (r: Vec<TailscalePeer>)
    ensures
        permutes(peer_views(r@), peer_views(peers@)),
        peers_sorted(peer_views(r@)),
{
    let n = peers.len();
    let (lower, ids) = sort_keys(peers);
    let mut used = bools_false(n);
    let mut out: Vec<TailscalePeer> = Vec::new();
    let ghost mut perm: Seq<int> = seq![];
    let ghost inp = peer_views(peers@);
    let mut round: usize = 0;
    while round < n
        invariant
            n == peers@.len(),
            inp == peer_views(peers@),
            lower@.len() == n,
            ids@.len() == n,
            forall|j: int| 0 <= j < n ==> (#[trigger] lower@[j])@ == lowercase(peers@[j].hostname@) && ids@[j]@ == peers@[j].id@,
            used@.len() == n,
            round <= n,
            out@.len() == round,
            perm.len() == round,
            forall|i: int| 0 <= i < round ==> 0 <= #[trigger] perm[i] < n && used@[perm[i]] && out@[i]@ == inp[perm[i]],
            forall|i: int, j: int| 0 <= i < j < round ==> #[trigger] perm[i] != #[trigger] perm[j],
            forall|j: int| 0 <= j < n && #[trigger] used@[j] ==> exists|i: int| 0 <= i < round && perm[i] == j,
            forall|a: int, b: int| 0 <= a < b < round ==> !peer_lt(#[trigger] out@[b]@, #[trigger] out@[a]@),
            forall|a: int, j: int| 0 <= a < round && 0 <= j < n && !used@[j] ==> !peer_lt(#[trigger] inp[j], #[trigger] out@[a]@),
        decreases n - round,
    {
        // The remaining peer that sorts first.
        let mut cur: usize = n;
        let mut j: usize = 0;
        while j < n
            invariant
                n == peers@.len(),
                inp == peer_views(peers@),
                lower@.len() == n,
                ids@.len() == n,
                forall|q: int| 0 <= q < n ==> (#[trigger] lower@[q])@ == lowercase(peers@[q].hostname@) && ids@[q]@ == peers@[q].id@,
                used@.len() == n,
                j <= n,
                cur <= n,
                cur == n ==> forall|q: int| 0 <= q < j ==> #[trigger] used@[q],
                cur < n ==> !used@[cur as int] && forall|q: int| 0 <= q < j && !used@[q] ==> !peer_lt(#[trigger] inp[q], inp[cur as int]),
            decreases n - j,
        {
            if !used[j] {
                let better = if cur == n {
                    true
                } else {
                    let a = &peers[j];
                    let b = &peers[cur];
                    if a.online != b.online {
                        a.online
                    } else if !crate::text::chars_eq(&lower[j], &lower[cur]) {
                        chars_lt(&lower[j], &lower[cur])
                    } else {
                        chars_lt(&ids[j], &ids[cur])
                    }
                };
                proof {
                    if cur < n {
                        assert(inp[j as int] == peers@[j as int]@);
                        assert(inp[cur as int] == peers@[cur as int]@);
                        assert(better == peer_lt(inp[j as int], inp[cur as int]));
                    }
                }
                if better {
                    proof {
                        assert forall|q: int| 0 <= q < j && !used@[q] implies !peer_lt(#[trigger] inp[q], inp[j as int]) by {
                            if cur < n && peer_lt(inp[q], inp[j as int]) {
                                lemma_peer_lt_transitive(inp[q], inp[j as int], inp[cur as int]);
                            }
                        }
                        lemma_peer_lt_irreflexive(inp[j as int]);
                    }
                    cur = j;
                }
            }
            j = j + 1;
        }
        if cur == n {
            proof {
                lemma_room_left(used@, perm, round as int, n as int);
            }
            assert(false);
        }
        let ghost old_used = used@;
        let ghost old_perm = perm;
        let ghost old_out = out@;
        used.set(cur, true);
        out.push(peers[cur].copy());
        proof {
            assert(out@[round as int]@ == inp[cur as int]);
            assert forall|a: int, b: int| 0 <= a < b < round + 1 implies !peer_lt(#[trigger] out@[b]@, #[trigger] out@[a]@) by {
                assert(out@[a] == old_out[a]);
                if b < round {
                    assert(out@[b] == old_out[b]);
                } else {
                    assert(!peer_lt(inp[cur as int], old_out[a]@));
                }
            }
            assert forall|a: int, j2: int| 0 <= a < round + 1 && 0 <= j2 < n && !used@[j2] implies !peer_lt(#[trigger] inp[j2], #[trigger] out@[a]@) by {
                if a < round {
                    assert(out@[a] == old_out[a]);
                    assert(!old_used[j2]);
                }
            }
            perm = perm.push(cur as int);
            assert forall|j2: int| 0 <= j2 < n && #[trigger] used@[j2] implies exists|i: int| 0 <= i < round + 1 && perm[i] == j2 by {
                if j2 != cur as int {
                    let i = choose|i: int| 0 <= i < round && old_perm[i] == j2;
                    assert(perm[i] == j2);
                } else {
                    assert(perm[round as int] == j2);
                }
            }
            assert forall|i: int, j2: int| 0 <= i < j2 < round + 1 implies #[trigger] perm[i] != #[trigger] perm[j2] by {
                if j2 == round as int {
                    assert(old_used[perm[i]]);
                }
            }
        }
        round = round + 1;
    }
    proof {
        let ov = peer_views(out@);
        assert(perm.len() == inp.len() && ov.len() == inp.len());
        assert(forall|i: int| 0 <= i < ov.len() ==> #[trigger] ov[i] == inp[perm[i]]);
        assert(permutes(ov, inp));
        assert forall|a: int, b: int| 0 <= a < b < ov.len() implies !peer_lt(#[trigger] ov[b], #[trigger] ov[a]) by {
            assert(ov[a] == out@[a]@ && ov[b] == out@[b]@);
        }
    }
    out
}

/// While fewer than `n` indices are used, one is free.
proof fn lemma_room_left(used: Seq<bool>, perm: Seq<int>, round: int, n: int)
    requires
        used.len() == n,
        0 <= round < n,
        perm.len() == round,
        forall|i: int| 0 <= i < round ==> 0 <= #[trigger] perm[i] < n,
        forall|i: int, j: int| 0 <= i < j < round ==> #[trigger] perm[i] != #[trigger] perm[j],
        forall|j: int| 0 <= j < n && #[trigger] used[j] ==> exists|i: int| 0 <= i < round && perm[i] == j,
    ensures
        exists|j: int| 0 <= j < n && !used[j],
{
    if forall|j: int| 0 <= j < n ==> #[trigger] used[j] {
        // Every index below n occurs in perm, which has fewer than n distinct entries.
        let full = vstd::set_lib::set_int_range(0, n);
        vstd::set_lib::lemma_int_range(0, n);
        assert(full.subset_of(perm.to_set())) by {
            assert forall|j: int| full.contains(j) implies perm.to_set().contains(j) by {
                assert(used[j]);
                let i = choose|i: int| 0 <= i < round && perm[i] == j;
                assert(perm.contains(j));
            }
        }
        assert(perm.no_duplicates()) by {
            assert forall|i: int, j: int| 0 <= i < perm.len() && 0 <= j < perm.len() && i != j implies perm[i] != perm[j] by {
                if i < j {
                    assert(perm[i] != perm[j]);
                } else {
                    assert(perm[j] != perm[i]);
                }
            }
        }
        perm.unique_seq_to_set();
        vstd::set_lib::lemma_len_subset(full, perm.to_set());
    }
}

/// The peers of `raws` that have a usable address, normalised, in order.
pub open spec fn kept_peers(raws: Seq<RawPeer>, magic_dns_enabled: bool) -> Seq<PeerModel>
    decreases raws.len(),
{
    if raws.len() == 0 {
        seq![]
    } else {
        let rest = kept_peers(raws.drop_last(), magic_dns_enabled);
        match normalised(raws.last(), magic_dns_enabled) {
            Some(p) => rest.push(p),
            None => rest,
        }
    }
}

/// The MagicDNS suffix without surrounding space and trailing dots, if any is left.
pub open spec fn dns_suffix(raw: Seq<char>) -> Option<Seq<char>> {
    let s = trim_dots(trim(raw));
    if s.len() == 0 {
        None
    } else {
        Some(s)
    }
}

pub open spec fn magic_dns_of(raw: RawStatus) -> bool {
    match raw.current_tailnet {
        Some(t) => t.magic_dns_enabled,
        None => false,
    }
}

pub open spec fn peer_model(p: Option<TailscalePeer>) -> Option<PeerModel> {
    match p {
        Some(x) => Some(x@),
        None => None,
    }
}

/// The status shown for a parsed `tailscale status --json` document: MagicDNS on when
/// the current tailnet says so, the suffix without its trailing dot, the local node and
/// the peers normalised (peers without a usable address dropped), the peers online
/// first, then by lowercase hostname, then by id.
pub fn status_from_raw(raw: RawStatus) -> (r: TailscaleStatus)
    ensures
        r.installed,
        r.backend_state@ == raw.backend_state@,
        r.magic_dns_enabled == magic_dns_of(raw),
        opt_seq(r.magic_dns_suffix) == dns_suffix(raw.magic_dns_suffix@),
        peer_model(r.self_node) == match raw.self_node {
            Some(p) => normalised(p, magic_dns_of(raw)),
            None => None,
        },
        permutes(
            peer_views(r.peers@),
            kept_peers(
                match raw.peer {
                    Some(v) => v@,
                    None => seq![],
                },
                magic_dns_of(raw),
            ),
        ),
        peers_sorted(peer_views(r.peers@)),
{
    let ghost raw_view = raw;
    let magic = match &raw.current_tailnet {
        Some(t) => t.magic_dns_enabled,
        None => false,
    };
    let sfx = trim_dots_chars(&trim_chars(&str_chars(raw.magic_dns_suffix.as_str())));
    let magic_dns_suffix = if sfx.len() == 0 {
        None
    } else {
        Some(string_from_chars(&sfx))
    };
    let self_node = match raw.self_node {
        Some(p) => normalise_peer(p, magic),
        None => None,
    };
    let mut rest: Vec<RawPeer> = match raw.peer {
        Some(v) => v,
        None => Vec::new(),
    };
    let ghost all = rest@;
    let mut kept: Vec<TailscalePeer> = Vec::new();
    let ghost mut i: int = 0;
    while rest.len() > 0
        invariant
            0 <= i <= all.len(),
            rest@ == all.subrange(i as int, all.len() as int),
            peer_views(kept@) == kept_peers(all.subrange(0, i as int), magic),
        decreases rest@.len(),
    {
        let p = rest.remove(0);
        let ghost before = kept@;
        assert(p == all[i]);
        match normalise_peer(p, magic) {
            Some(q) => {
                kept.push(q);
            },
            None => {},
        }
        proof {
            let t = all.subrange(0, i + 1);
            assert(t.drop_last() =~= all.subrange(0, i as int));
            assert(t.last() == all[i as int]);
            assert(peer_views(kept@) =~= kept_peers(t, magic));
        }
        proof {
            i = i + 1;
        }
        assert(rest@ =~= all.subrange(i as int, all.len() as int));
    }
    assert(all.subrange(0, i as int) =~= all);
    let peers = sort_peers(&kept);
    TailscaleStatus {
        installed: true,
        backend_state: raw.backend_state,
        magic_dns_enabled: magic,
        magic_dns_suffix,
        self_node,
        peers,
    }
}

/// The platform the `tailscale` binary is looked for on.
#[derive(Clone, Copy, Debug, PartialEq, Eq, Structural)]
pub enum HostOs {
    MacOs,
    Windows,
    Other,
}

/// `dir` joined with the relative name `name` the way `Path::join` does it: nothing
/// added after an empty directory, a separator added unless `dir` ends with one (or,
/// on Windows, is a bare drive such as `C:`).
pub open spec fn join_path(dir: Seq<char>, name: Seq<char>, windows: bool) -> Seq<char> {
    if dir.len() == 0 {
        name
    } else if dir.last() == '/' || (windows && dir.last() == '\\') {
        dir + name
    } else if windows && dir.len() == 2 && dir[1] == ':' && is_ascii_alpha(dir[0]) {
        dir + name
    } else {
        dir + seq![if windows { '\\' } else { '/' }] + name
    }
}

pub open spec fn is_ascii_alpha(c: char) -> bool {
    ('a' <= c && c <= 'z') || ('A' <= c && c <= 'Z')
}

/// The names the binary may have in a `PATH` directory.
pub open spec fn binary_names(os: HostOs) -> Seq<Seq<char>> {
    if os == HostOs::Windows {
        seq!["tailscale.exe"@, "tailscale"@]
    } else {
        seq!["tailscale"@]
    }
}

/// Where the installers put the binary.
pub open spec fn install_locations(os: HostOs) -> Seq<Seq<char>> {
    match os {
        HostOs::MacOs => seq!["/Applications/Tailscale.app/Contents/MacOS/Tailscale"@],
        HostOs::Windows => seq!["C:\\Program Files\\Tailscale\\tailscale.exe"@],
        HostOs::Other => seq!["/usr/bin/tailscale"@],
    }
}

/// Every binary name in every `PATH` directory, directory by directory.
pub open spec fn path_candidates(dirs: Seq<Seq<char>>, os: HostOs) -> Seq<Seq<char>>
    decreases dirs.len(),
{
    if dirs.len() == 0 {
        seq![]
    } else {
        path_candidates(dirs.drop_last(), os) + Seq::new(
            binary_names(os).len(),
            |k: int| join_path(dirs.last(), binary_names(os)[k], os == HostOs::Windows),
        )
    }
}

/// How a `PATH` directory and a name join, as `Path::join` does: an empty directory
/// gives the name alone; a directory ending in `/` (or, on Windows, `\`) takes the name
/// directly, as does a bare Windows drive like `C:`; any other directory gets `/` (on
/// Windows `\`) between itself and the name.
pub proof fn law_join_path(dir: Seq<char>, name: Seq<char>, windows: bool)
    ensures
        dir.len() == 0 ==> join_path(dir, name, windows) == name,
        dir.len() > 0 && dir.last() == '/' ==> join_path(dir, name, windows) == dir + name,
        !windows && dir.len() > 0 && dir.last() != '/' ==> join_path(dir, name, windows) == dir + seq!['/'] + name,
        windows && dir.len() > 0 && dir.last() == '\\' ==> join_path(dir, name, windows) == dir + name,
        windows && dir.len() == 2 && dir[1] == ':' && ('a' <= dir[0] <= 'z' || 'A' <= dir[0] <= 'Z') ==> join_path(dir, name, windows) == dir + name,
        windows && dir.len() > 0 && dir.last() != '/' && dir.last() != '\\' && !(dir.len() == 2 && dir[1] == ':'
            && ('a' <= dir[0] <= 'z' || 'A' <= dir[0] <= 'Z')) ==> join_path(dir, name, windows) == dir + seq!['\\'] + name,
{
}

/// The `PATH` candidates: outside Windows, each directory joined with `tailscale`, in
/// order; on Windows, each directory joined first with `tailscale.exe`, then with
/// `tailscale`.
pub proof fn law_path_candidates(dirs: Seq<Seq<char>>, os: HostOs)
    ensures
        os != HostOs::Windows ==> path_candidates(dirs, os).len() == dirs.len() && forall|i: int| 0 <= i < dirs.len()
            ==> path_candidates(dirs, os)[i] == join_path(#[trigger] dirs[i], "tailscale"@, false),
        os == HostOs::Windows ==> path_candidates(dirs, os).len() == 2 * dirs.len() && forall|i: int| 0 <= i < dirs.len()
            ==> path_candidates(dirs, os)[2 * i] == join_path(#[trigger] dirs[i], "tailscale.exe"@, true)
            && path_candidates(dirs, os)[2 * i + 1] == join_path(dirs[i], "tailscale"@, true),
    decreases dirs.len(),
{
    if dirs.len() > 0 {
        let init = dirs.drop_last();
        law_path_candidates(init, os);
        let prev = path_candidates(init, os);
        let c = path_candidates(dirs, os);
        assert forall|i: int| 0 <= i < init.len() implies #[trigger] dirs[i] == init[i] by {}
        if os == HostOs::Windows {
            assert forall|i: int| 0 <= i < dirs.len() implies c[2 * i] == join_path(#[trigger] dirs[i], "tailscale.exe"@, true)
                && c[2 * i + 1] == join_path(dirs[i], "tailscale"@, true) by {
                if i < init.len() {
                    assert(c[2 * i] == prev[2 * i] && c[2 * i + 1] == prev[2 * i + 1]);
                    assert(dirs[i] == init[i]);
                }
            }
        } else {
            assert forall|i: int| 0 <= i < dirs.len() implies c[i] == join_path(#[trigger] dirs[i], "tailscale"@, false) by {
                if i < init.len() {
                    assert(c[i] == prev[i]);
                    assert(dirs[i] == init[i]);
                }
            }
        }
    }
}

/// The CLI is looked for on `PATH` first and at the platform's install location last:
/// the app bundle's `/Applications/Tailscale.app/Contents/MacOS/Tailscale` on macOS,
/// `C:\Program Files\Tailscale\tailscale.exe` on Windows, `/usr/bin/tailscale`
/// elsewhere; with nothing on `PATH` that location is the only candidate.
pub proof fn law_install_location_is_tried_last(dirs: Seq<Seq<char>>, os: HostOs)
    ensures
        ({
            let c = path_candidates(dirs, os) + install_locations(os);
            let fixed = match os {
                HostOs::MacOs => "/Applications/Tailscale.app/Contents/MacOS/Tailscale"@,
                HostOs::Windows => "C:\\Program Files\\Tailscale\\tailscale.exe"@,
                HostOs::Other => "/usr/bin/tailscale"@,
            };
            &&& c.len() >= 1
            &&& c.last() == fixed
            &&& c.subrange(0, c.len() - 1) == path_candidates(dirs, os)
            &&& dirs.len() == 0 ==> c == seq![fixed]
        }),
{
    let c = path_candidates(dirs, os) + install_locations(os);
    assert(c.subrange(0, c.len() - 1) =~= path_candidates(dirs, os));
    if dirs.len() == 0 {
        assert(path_candidates(dirs, os) == Seq::<Seq<char>>::empty());
        assert(c =~= install_locations(os));
    }
}

/// `dir` joined with the relative name `name` (see `join_path`).
pub fn join_dir_path(dir: &str, name: &str, windows: bool) -> (r: String)
    ensures
        r@ == join_path(dir@, name@, windows),
{
    let d = str_chars(dir);
    let n = d.len();
    if n == 0 {
        owned(name)
    } else if d[n - 1] == '/' || (windows && d[n - 1] == '\\') {
        concat(dir, name)
    } else if windows && n == 2 && d[1] == ':' && (('a' <= d[0] && d[0] <= 'z') || ('A' <= d[0] && d[0] <= 'Z')) {
        concat(dir, name)
    } else {
        let sep = if windows { "\\" } else { "/" };
        proof {
            reveal_strlit("\\");
            reveal_strlit("/");
        }
        let with_sep = concat(dir, sep);
        concat(with_sep.as_str(), name)
    }
}

/// The places to look for the `tailscale` binary, in order: each name in each `PATH`
/// directory, then the platform's install locations.
pub fn tailscale_candidates(path_dirs: &Vec<String>, os: HostOs) -> (r: Vec<String>)
    ensures
        seq_views(r@) == path_candidates(seq_views(path_dirs@), os) + install_locations(os),
{
    let mut out: Vec<String> = Vec::new();
    let windows = os == HostOs::Windows;
    let mut i: usize = 0;
    while i < path_dirs.len()
        invariant
            i <= path_dirs@.len(),
            windows == (os == HostOs::Windows),
            seq_views(out@) == path_candidates(seq_views(path_dirs@).subrange(0, i as int), os),
        decreases path_dirs@.len() - i,
    {
        let ghost before = seq_views(out@);
        let ghost dirs = seq_views(path_dirs@).subrange(0, i + 1);
        assert(dirs.drop_last() =~= seq_views(path_dirs@).subrange(0, i as int));
        assert(dirs.last() == path_dirs@[i as int]@);
        if windows {
            out.push(join_dir_path(path_dirs[i].as_str(), "tailscale.exe", true));
            out.push(join_dir_path(path_dirs[i].as_str(), "tailscale", true));
        } else {
            out.push(join_dir_path(path_dirs[i].as_str(), "tailscale", false));
        }
        assert(seq_views(out@) =~= path_candidates(dirs, os));
        i = i + 1;
    }
    assert(seq_views(path_dirs@).subrange(0, path_dirs@.len() as int) =~= seq_views(path_dirs@));
    let ghost on_path = seq_views(out@);
    match os {
        HostOs::MacOs => out.push(owned("/Applications/Tailscale.app/Contents/MacOS/Tailscale")),
        HostOs::Windows => out.push(owned("C:\\Program Files\\Tailscale\\tailscale.exe")),
        HostOs::Other => out.push(owned("/usr/bin/tailscale")),
    }
    assert(seq_views(out@) =~= on_path + install_locations(os));
    out
}

/// The first candidate that is a file (`is_file[i]` tells whether `candidates[i]` is).
pub fn find_tailscale_binary(candidates: &Vec<String>, is_file: &Vec<bool>) -> (r: Option<String>)
    requires
        is_file@.len() == candidates@.len(),
    ensures
        match r {
            Some(p) => exists|i: int|
                0 <= i < candidates@.len() && is_file@[i] && p@ == candidates@[i]@ && forall|j: int| 0 <= j < i ==> !#[trigger] is_file@[j],
            None => forall|i: int| 0 <= i < candidates@.len() ==> !#[trigger] is_file@[i],
        },
{
    let mut i: usize = 0;
    while i < candidates.len()
        invariant
            is_file@.len() == candidates@.len(),
            i <= candidates@.len(),
            forall|j: int| 0 <= j < i ==> !#[trigger] is_file@[j],
        decreases candidates@.len() - i,
    {
        if is_file[i] {
            return Some(candidates[i].clone());
        }
        i = i + 1;
    }
    None
}

proof fn lemma_first_ipv4_valid(ips: Seq<Seq<char>>)
    ensures
        first_ipv4(ips) matches Some(a) ==> is_ipv4(a),
    decreases ips.len(),
{
    if ips.len() > 0 && !is_ipv4(trim(ips[0])) {
        lemma_first_ipv4_valid(ips.drop_first());
    }
}

/// Every address shown for a peer passed the address checks applied to user input: the
/// MagicDNS name is empty or a valid host name, the IPv4 address is a valid IPv4
/// address, and the preferred address is one of the two.
pub proof fn law_shown_addresses_are_valid(raw: RawPeer, magic_dns_enabled: bool)
    ensures
        normalised(raw, magic_dns_enabled) matches Some(p) ==> {
            &&& p.dns_name.len() == 0 || hostname_ok(p.dns_name)
            &&& p.ipv4 matches Some(a) ==> is_ipv4(a)
            &&& hostname_ok(p.preferred_address) || is_ipv4(p.preferred_address)
        },
{
    lemma_first_ipv4_valid(seq_views(raw.tailscale_ips@));
}

/// In a sorted peer list the online peers come first, and among peers alike in that
/// the host names (compared without case) never go backwards.
pub proof fn law_sorted_peers_online_first(s: Seq<PeerModel>, a: int, b: int)
    requires
        peers_sorted(s),
        0 <= a < b < s.len(),
    ensures
        s[a].online || !s[b].online,
        s[a].online == s[b].online ==> !lex_lt(lowercase(s[b].hostname), lowercase(s[a].hostname)),
{
    assert(!peer_lt(s[b], s[a]));
    lemma_lex_lt_irreflexive(lowercase(s[a].hostname));
}

} // verus!
