//! Which SSH sessions may be shared. A session is cached per host, port, user and
//! authentication material; the cache key holds a SHA-256 digest of the material, never
//! the secrets themselves. Each piece of material is length-prefixed before hashing, so
//! different pieces can't run together into the same bytes. A cached session is handed
//! out while it is connected, recently used and within its lifetime.

use vstd::prelude::*;
use crate::crypto::{sha256, sha256_digest};
use crate::text::owned;
use vstd::string::StringSliceAdditionalSpecFns;

verus! {

/// Sessions unused for longer than this are closed (five minutes): above the monitoring
/// cycle, below the idle timeout SSH servers usually enforce.
pub const IDLE_TIMEOUT_MS: u64 = 300_000;

/// Longest a session is kept (thirty minutes), so the host key is checked again.
pub const MAX_LIFETIME_MS: u64 = 1_800_000;

/// Time from `from` to `now`, zero when `now` is earlier (as `Instant::elapsed` saturates).
pub open spec fn elapsed_ms(from: u64, now: u64) -> int {
    if now >= from {
        now - from
    } else {
        0
    }
}

/// Whether a cached session may be handed out: still connected, used within the idle
/// timeout, and not past its lifetime. Times are milliseconds of a monotonic clock.
pub fn session_usable(closed: bool, last_used_ms: u64, expires_at_ms: u64, now_ms: u64) -> (r: bool)
    ensures
        r == (!closed && elapsed_ms(last_used_ms, now_ms) < IDLE_TIMEOUT_MS && now_ms < expires_at_ms),
{
    let idle = if now_ms >= last_used_ms { now_ms - last_used_ms } else { 0 };
    !closed && idle < IDLE_TIMEOUT_MS && now_ms < expires_at_ms
}

/// When a session established at `now_ms` expires.
pub fn session_expiry(now_ms: u64) -> (r: u64)
    requires
        now_ms <= u64::MAX - MAX_LIFETIME_MS,
    ensures
        r == now_ms + MAX_LIFETIME_MS,
{
    now_ms + MAX_LIFETIME_MS
}

/// What a request for a session does with its slot.
#[derive(Clone, Copy, Debug, PartialEq, Eq, Structural)]
pub enum SlotAction {
    /// Hand out the cached session.
    Reuse,
    /// Retire the cached session, then connect a new one.
    Replace,
    /// Nothing is cached: connect.
    Connect,
}

/// The action for a slot holding a session (`Some(usable)`) or nothing.
pub fn acquire_action(cached: Option<bool>) -> (r: SlotAction)
    ensures
        r == match cached {
            Some(true) => SlotAction::Reuse,
            Some(false) => SlotAction::Replace,
            None => SlotAction::Connect,
        },
{
    match cached {
        Some(true) => SlotAction::Reuse,
        Some(false) => SlotAction::Replace,
        None => SlotAction::Connect,
    }
}

/// What a sweep does with a slot it could lock.
#[derive(Clone, Copy, Debug, PartialEq, Eq, Structural)]
pub enum SweepAction {
    /// The session stays cached.
    Keep,
    /// The session is retired and the slot forgotten.
    Retire,
    /// The slot holds nothing and is forgotten.
    Forget,
}

/// The sweep's action for a slot holding a session (`Some((usable, leased))`) or nothing.
/// A session still leased keeps running its command even past its lifetime; a later
/// sweep retires it.
pub fn sweep_action(cached: Option<(bool, bool)>) -> (r: SweepAction)
    ensures
        r == match cached {
            None => SweepAction::Forget,
            Some((usable, leased)) => if !usable && !leased {
                SweepAction::Retire
            } else {
                SweepAction::Keep
            },
        },
{
    match cached {
        None => SweepAction::Forget,
        Some((usable, leased)) => {
            if !usable && !leased {
                SweepAction::Retire
            } else {
                SweepAction::Keep
            }
        },
    }
}


/// Identifies a reusable session: the same endpoint and the same authentication
/// material.
#[derive(Clone, PartialEq, Eq, Hash, Debug)]
pub struct PoolKey {
    host: String,
    port: u16,
    username: String,
    /// SHA-256 over the authentication material.
    auth_fingerprint: [u8; 32],
}

impl PoolKey {
    pub closed spec fn host(&self) -> Seq<char> {
        self.host@
    }

    pub closed spec fn port(&self) -> u16 {
        self.port
    }

    pub closed spec fn username(&self) -> Seq<char> {
        self.username@
    }

    pub closed spec fn fingerprint(&self) -> Seq<u8> {
        self.auth_fingerprint@
    }
}

/// Everything needed to establish a session, and to decide whether an existing one may
/// be reused.
pub struct ConnectParams<'a> {
    pub host: &'a str,
    pub port: u16,
    pub username: &'a str,
    pub password: Option<&'a str>,
    pub key_path: Option<&'a str>,
    pub private_key: Option<&'a str>,
    pub key_passphrase: Option<&'a str>,
    pub timeout_secs: u64,
}

/// The first `k` little-endian bytes of `n`.
pub open spec fn le_bytes(n: nat, k: nat) -> Seq<u8>
    decreases k,
{
    if k == 0 {
        seq![]
    } else {
        seq![(n % 256) as u8] + le_bytes(n / 256, (k - 1) as nat)
    }
}

/// One piece of material: its length as eight little-endian bytes, then its bytes; an
/// absent piece is eight `0xff` bytes.
#[verifier::opaque]
pub open spec fn piece(p: Option<Seq<u8>>) -> Seq<u8> {
    match p {
        Some(v) => le_bytes(v.len(), 8) + v,
        None => le_bytes(0xffff_ffff_ffff_ffff, 8),
    }
}

pub open spec fn opt_bytes(p: Option<&str>) -> Option<Seq<u8>> {
    match p {
        Some(s) => Some(s.spec_bytes()),
        None => None,
    }
}

/// The authentication material of a request: password, key path, private key and key
/// passphrase, each as a piece.
pub open spec fn auth_material(p: ConnectParams) -> Seq<u8> {
    piece(opt_bytes(p.password)) + (piece(opt_bytes(p.key_path)) + (piece(opt_bytes(p.private_key)) + piece(
        opt_bytes(p.key_passphrase),
    )))
}

fn push_le_u64(out: &mut Vec<u8>, n: u64)
    ensures
        final(out)@ == old(out)@ + le_bytes(n as nat, 8),
{
    let ghost start = out@;
    let mut v: u64 = n;
    let mut i: usize = 0;
    while i < 8
        invariant
            i <= 8,
            out@ + le_bytes(v as nat, (8 - i) as nat) == start + le_bytes(n as nat, 8),
        decreases 8 - i,
    {
        let ghost before = out@;
        out.push((v % 256) as u8);
        proof {
            assert(le_bytes(v as nat, (8 - i) as nat) == seq![(v % 256) as u8] + le_bytes((v / 256) as nat, (8 - i - 1) as nat));
            assert(out@ + le_bytes((v / 256) as nat, (8 - i - 1) as nat) =~= before + le_bytes(v as nat, (8 - i) as nat));
        }
        v = v / 256;
        i = i + 1;
    }
    assert(le_bytes(v as nat, 0) =~= seq![]);
    assert(out@ =~= start + le_bytes(n as nat, 8));
}

fn push_piece(out: &mut Vec<u8>, p: Option<&str>)
    ensures
        final(out)@ == old(out)@ + piece(opt_bytes(p)),
{
    reveal(piece);
    match p {
        Some(value) => {
            let bytes = value.as_bytes();
            push_le_u64(out, value.len() as u64);
            let ghost mid = out@;
            let mut i: usize = 0;
            while i < bytes.len()
                invariant
                    i <= bytes@.len(),
                    out@ == mid + bytes@.subrange(0, i as int),
                decreases bytes@.len() - i,
            {
                out.push(bytes[i]);
                i = i + 1;
                assert(out@ =~= mid + bytes@.subrange(0, i as int));
            }
            assert(bytes@.subrange(0, bytes@.len() as int) =~= bytes@);
            assert(value.len() as nat == value.spec_bytes().len());
            assert(out@ =~= old(out)@ + piece(opt_bytes(p)));
        },
        None => {
            push_le_u64(out, 0xffff_ffff_ffff_ffff);
        },
    }
}

impl<'a> ConnectParams<'a> {
    /// The cache key of this request: its endpoint, and the SHA-256 of its
    /// authentication material.
    pub fn pool_key(&self) -> (r: PoolKey)
        ensures
            r.host() == self.host@,
            r.port() == self.port,
            r.username() == self.username@,
            r.fingerprint() == sha256(auth_material(*self)),
    {
        let mut material: Vec<u8> = Vec::new();
        push_piece(&mut material, self.password);
        push_piece(&mut material, self.key_path);
        push_piece(&mut material, self.private_key);
        push_piece(&mut material, self.key_passphrase);
        assert(material@ =~= auth_material(*self));
        PoolKey {
            host: owned(self.host),
            port: self.port,
            username: owned(self.username),
            auth_fingerprint: sha256_digest(material.as_slice()),
        }
    }
}

proof fn lemma_le_bytes_len(n: nat, k: nat)
    ensures
        le_bytes(n, k).len() == k,
    decreases k,
{
    if k > 0 {
        lemma_le_bytes_len(n / 256, (k - 1) as nat);
    }
}

/// Eight little-endian bytes tell apart every number below 2^64.
proof fn lemma_le_bytes_injective(a: nat, b: nat, k: nat)
    requires
        le_bytes(a, k) == le_bytes(b, k),
        a < pow256(k),
        b < pow256(k),
    ensures
        a == b,
    decreases k,
{
    if k > 0 {
        let la = le_bytes(a, k);
        let lb = le_bytes(b, k);
        assert(la[0] == lb[0]);
        assert(le_bytes(a / 256, (k - 1) as nat) =~= la.drop_first());
        assert(le_bytes(b / 256, (k - 1) as nat) =~= lb.drop_first());
        assert(a / 256 < pow256((k - 1) as nat)) by {
            assert(pow256(k) == 256 * pow256((k - 1) as nat));
        }
        assert(b / 256 < pow256((k - 1) as nat)) by {
            assert(pow256(k) == 256 * pow256((k - 1) as nat));
        }
        lemma_le_bytes_injective(a / 256, b / 256, (k - 1) as nat);
    } else {
        assert(pow256(0) == 1);
    }
}

pub open spec fn pow256(k: nat) -> nat
    decreases k,
{
    if k == 0 {
        1
    } else {
        256 * pow256((k - 1) as nat)
    }
}

/// A piece is told apart from anything that may follow it: two runs of pieces that
/// agree agree piece by piece.
proof fn lemma_piece_prefix(p: Option<Seq<u8>>, q: Option<Seq<u8>>, rest_p: Seq<u8>, rest_q: Seq<u8>)
    requires
        piece(p) + rest_p == piece(q) + rest_q,
        p matches Some(v) ==> v.len() < 0xffff_ffff_ffff_ffff,
        q matches Some(v) ==> v.len() < 0xffff_ffff_ffff_ffff,
    ensures
        p == q,
        rest_p == rest_q,
{
    reveal(piece);
    let a = piece(p) + rest_p;
    let lp: nat = match p {
        Some(v) => v.len(),
        None => 0xffff_ffff_ffff_ffff,
    };
    let lq: nat = match q {
        Some(v) => v.len(),
        None => 0xffff_ffff_ffff_ffff,
    };
    lemma_le_bytes_len(lp, 8);
    lemma_le_bytes_len(lq, 8);
    assert(pow256(8) == 0x1_0000_0000_0000_0000) by {
        reveal_with_fuel(pow256, 9);
    }
    assert(a.subrange(0, 8) =~= le_bytes(lp, 8));
    assert((piece(q) + rest_q).subrange(0, 8) =~= le_bytes(lq, 8));
    lemma_le_bytes_injective(lp, lq, 8);
    match (p, q) {
        (Some(v), Some(w)) => {
            assert(a.subrange(8, 8 + v.len() as int) =~= v);
            assert((piece(q) + rest_q).subrange(8, 8 + w.len() as int) =~= w);
            assert(a.subrange(8 + v.len() as int, a.len() as int) =~= rest_p);
            assert((piece(q) + rest_q).subrange(8 + w.len() as int, a.len() as int) =~= rest_q);
        },
        (None, None) => {
            assert(a.subrange(8, a.len() as int) =~= rest_p);
            assert((piece(q) + rest_q).subrange(8, a.len() as int) =~= rest_q);
        },
        _ => {},
    }
}

/// Requests whose authentication material hashes over the same bytes present the same
/// password, key path, private key and passphrase, each absent or present alike: no two
/// different sets of credentials run together into one material.
pub proof fn law_auth_material_is_unambiguous(a: ConnectParams, b: ConnectParams)
    requires
        auth_material(a) == auth_material(b),
        opt_bytes(a.password) matches Some(v) ==> v.len() < 0xffff_ffff_ffff_ffff,
        opt_bytes(a.key_path) matches Some(v) ==> v.len() < 0xffff_ffff_ffff_ffff,
        opt_bytes(a.private_key) matches Some(v) ==> v.len() < 0xffff_ffff_ffff_ffff,
        opt_bytes(a.key_passphrase) matches Some(v) ==> v.len() < 0xffff_ffff_ffff_ffff,
        opt_bytes(b.password) matches Some(v) ==> v.len() < 0xffff_ffff_ffff_ffff,
        opt_bytes(b.key_path) matches Some(v) ==> v.len() < 0xffff_ffff_ffff_ffff,
        opt_bytes(b.private_key) matches Some(v) ==> v.len() < 0xffff_ffff_ffff_ffff,
        opt_bytes(b.key_passphrase) matches Some(v) ==> v.len() < 0xffff_ffff_ffff_ffff,
    ensures
        opt_bytes(a.password) == opt_bytes(b.password),
        opt_bytes(a.key_path) == opt_bytes(b.key_path),
        opt_bytes(a.private_key) == opt_bytes(b.private_key),
        opt_bytes(a.key_passphrase) == opt_bytes(b.key_passphrase),
{
    lemma_four_pieces(
        opt_bytes(a.password),
        opt_bytes(a.key_path),
        opt_bytes(a.private_key),
        opt_bytes(a.key_passphrase),
        opt_bytes(b.password),
        opt_bytes(b.key_path),
        opt_bytes(b.private_key),
        opt_bytes(b.key_passphrase),
    );
}

/// What `pool_key` keys a request by: its host, port and user, and the SHA-256 digest of
/// its authentication material (never the secrets themselves).
pub open spec fn pool_key_of(p: ConnectParams) -> (Seq<char>, u16, Seq<char>, Seq<u8>) {
    (p.host@, p.port, p.username@, sha256(auth_material(p)))
}

/// Two requests share a pool key exactly when they name the same host, port and user and
/// present the same password, key path, private key and passphrase (each absent or
/// present alike; the timeout plays no part), up to a SHA-256 collision between their
/// two authentication materials, which the hypothesis on the digests rules out.
pub proof fn law_same_request_same_pool_key(a: ConnectParams, b: ConnectParams)
    requires
        opt_bytes(a.password) matches Some(v) ==> v.len() < 0xffff_ffff_ffff_ffff,
        opt_bytes(a.key_path) matches Some(v) ==> v.len() < 0xffff_ffff_ffff_ffff,
        opt_bytes(a.private_key) matches Some(v) ==> v.len() < 0xffff_ffff_ffff_ffff,
        opt_bytes(a.key_passphrase) matches Some(v) ==> v.len() < 0xffff_ffff_ffff_ffff,
        opt_bytes(b.password) matches Some(v) ==> v.len() < 0xffff_ffff_ffff_ffff,
        opt_bytes(b.key_path) matches Some(v) ==> v.len() < 0xffff_ffff_ffff_ffff,
        opt_bytes(b.private_key) matches Some(v) ==> v.len() < 0xffff_ffff_ffff_ffff,
        opt_bytes(b.key_passphrase) matches Some(v) ==> v.len() < 0xffff_ffff_ffff_ffff,
        sha256(auth_material(a)) == sha256(auth_material(b)) ==> auth_material(a) == auth_material(b),
    ensures
        pool_key_of(a) == pool_key_of(b) <==> {
            &&& a.host@ == b.host@
            &&& a.port == b.port
            &&& a.username@ == b.username@
            &&& opt_bytes(a.password) == opt_bytes(b.password)
            &&& opt_bytes(a.key_path) == opt_bytes(b.key_path)
            &&& opt_bytes(a.private_key) == opt_bytes(b.private_key)
            &&& opt_bytes(a.key_passphrase) == opt_bytes(b.key_passphrase)
        },
{
    if pool_key_of(a) == pool_key_of(b) {
        law_auth_material_is_unambiguous(a, b);
    }
}

proof fn lemma_four_pieces(
    p1: Option<Seq<u8>>,
    p2: Option<Seq<u8>>,
    p3: Option<Seq<u8>>,
    p4: Option<Seq<u8>>,
    q1: Option<Seq<u8>>,
    q2: Option<Seq<u8>>,
    q3: Option<Seq<u8>>,
    q4: Option<Seq<u8>>,
)
    requires
        piece(p1) + (piece(p2) + (piece(p3) + piece(p4))) == piece(q1) + (piece(q2) + (piece(q3) + piece(q4))),
        p1 matches Some(v) ==> v.len() < 0xffff_ffff_ffff_ffff,
        p2 matches Some(v) ==> v.len() < 0xffff_ffff_ffff_ffff,
        p3 matches Some(v) ==> v.len() < 0xffff_ffff_ffff_ffff,
        p4 matches Some(v) ==> v.len() < 0xffff_ffff_ffff_ffff,
        q1 matches Some(v) ==> v.len() < 0xffff_ffff_ffff_ffff,
        q2 matches Some(v) ==> v.len() < 0xffff_ffff_ffff_ffff,
        q3 matches Some(v) ==> v.len() < 0xffff_ffff_ffff_ffff,
        q4 matches Some(v) ==> v.len() < 0xffff_ffff_ffff_ffff,
    ensures
        p1 == q1 && p2 == q2 && p3 == q3 && p4 == q4,
{
    let (a2, a3, a4) = (piece(p2), piece(p3), piece(p4));
    let (b2, b3, b4) = (piece(q2), piece(q3), piece(q4));
    lemma_piece_prefix(p1, q1, a2 + (a3 + a4), b2 + (b3 + b4));
    lemma_piece_prefix(p2, q2, a3 + a4, b3 + b4);
    lemma_piece_prefix(p3, q3, a4, b4);
    assert(a4 + Seq::<u8>::empty() =~= a4);
    assert(b4 + Seq::<u8>::empty() =~= b4);
    lemma_piece_prefix(p4, q4, Seq::<u8>::empty(), Seq::<u8>::empty());
}
} // verus!
