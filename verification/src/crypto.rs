//! Password hashing (Argon2id), authenticated encryption (AES-256-GCM) and SSH host key
//! fingerprints (SHA-256), through the `argon2`, `aes-gcm` and `sha2` crates.

use vstd::prelude::*;
use crate::fmt::decimal;
use vstd::string::StringSliceAdditionalSpecFns;
use crate::text::{concat, push_char, starts_with};
use sha2::Digest;
use argon2::password_hash::{rand_core::OsRng, rand_core::RngCore, PasswordHash, PasswordHasher, PasswordVerifier, SaltString};
use aes_gcm::aead::{Aead, KeyInit};

verus! {

/// The SHA-256 digest of `data` (`sha2::Sha256`).
pub uninterp spec fn sha256(data: Seq<u8>) -> Seq<u8>;

/// `sha2::Sha256::digest`: 32 bytes, the SHA-256 digest of `data`.
#[verifier::external_body]
pub(crate) fn sha256_digest(data: &[u8]) -> (r: [u8; 32])
    ensures
        r@ == sha256(data@),
{
    let mut out = [0u8; 32];
    out.copy_from_slice(&sha2::Sha256::digest(data));
    out
}

/// The lowercase hexadecimal digit of `n` (below 16).
pub open spec fn hex_digit(n: u8) -> char {
    if n < 10 {
        (('0' as u8) + n) as char
    } else {
        (('a' as u8) + (n - 10)) as char
    }
}

/// Two lowercase hexadecimal digits (`{:02x}`).
pub open spec fn hex_pair(b: u8) -> Seq<char> {
    seq![hex_digit(b / 16), hex_digit(b % 16)]
}

/// The bytes as hexadecimal pairs separated by `:`.
pub open spec fn hex_pairs(d: Seq<u8>) -> Seq<char>
    decreases d.len(),
{
    if d.len() == 0 {
        seq![]
    } else if d.len() == 1 {
        hex_pair(d[0])
    } else {
        hex_pairs(d.drop_last()) + seq![':'] + hex_pair(d.last())
    }
}

/// `SHA256:` and the digest's bytes as colon-separated hexadecimal pairs.
pub open spec fn fingerprint_text(digest: Seq<u8>) -> Seq<char> {
    "SHA256:"@ + hex_pairs(digest)
}

fn hex_digit_char(n: u8) -> (c: char)
    requires
        n < 16,
    ensures
        c == hex_digit(n),
{
    if n < 10 {
        (('0' as u8) + n) as char
    } else {
        (('a' as u8) + (n - 10)) as char
    }
}

/// The SSH host key fingerprint of a public key blob: the SHA-256 of the blob as
/// `SHA256:aa:bb:...` (OpenSSH's `ssh-keygen -l -E sha256`, with hexadecimal pairs).
/// Every SSH client module uses this, so fingerprints compare across connection types.
pub fn ssh_host_key_fingerprint(public_key_bytes: &[u8]) -> (r: String)
    ensures
        r@ == fingerprint_text(sha256(public_key_bytes@)),
{
    let digest = sha256_digest(public_key_bytes);
    let mut s = String::new();
    push_char(&mut s, 'S');
    push_char(&mut s, 'H');
    push_char(&mut s, 'A');
    push_char(&mut s, '2');
    push_char(&mut s, '5');
    push_char(&mut s, '6');
    push_char(&mut s, ':');
    proof {
        reveal_strlit("SHA256:");
    }
    assert(s@ =~= "SHA256:"@);
    let mut i: usize = 0;
    while i < 32
        invariant
            i <= 32,
            digest@.len() == 32,
            s@ == "SHA256:"@ + hex_pairs(digest@.subrange(0, i as int)),
        decreases 32 - i,
    {
        let b = digest[i];
        let ghost before = s@;
        if i > 0 {
            push_char(&mut s, ':');
        }
        push_char(&mut s, hex_digit_char(b / 16));
        push_char(&mut s, hex_digit_char(b % 16));
        proof {
            let t = digest@.subrange(0, i + 1);
            assert(t.drop_last() =~= digest@.subrange(0, i as int));
            assert(t.last() == b);
            if i == 0 {
                assert(t.len() == 1);
                assert(t[0] == b);
            }
            assert(s@ =~= "SHA256:"@ + hex_pairs(t));
        }
        i = i + 1;
    }
    assert(digest@.subrange(0, 32) =~= digest@);
    s
}

/// The password hash a PHC string `hash` describes is well formed.
pub uninterp spec fn phc_parses(hash: Seq<char>) -> bool;

/// `password` matches the PHC string `hash` (Argon2 with the hash's own parameters).
pub uninterp spec fn phc_verifies(password: Seq<char>, hash: Seq<char>) -> bool;

/// Argon2id memory cost, in KiB (47 MiB, as OWASP recommends).
pub const ARGON2_MEMORY_KIB: u32 = 47104;

/// Argon2id passes over the memory.
pub const ARGON2_PASSES: u32 = 2;

/// Argon2id lanes.
pub const ARGON2_LANES: u32 = 1;

/// Length of the Argon2id output, in bytes.
pub const ARGON2_OUTPUT_LEN: usize = 32;

/// `argon2::Params::new` accepts these costs: at least 8 KiB and 8 KiB per lane, at
/// least one pass, 1 to 2^24 - 1 lanes, and an output of 4 bytes to 4 GiB.
pub open spec fn argon2_params_ok(memory_kib: u32, passes: u32, lanes: u32, output_len: usize) -> bool {
    &&& memory_kib >= 8
    &&& 1 <= lanes <= 0xFF_FFFF
    &&& memory_kib >= lanes * 8
    &&& passes >= 1
    &&& 4 <= output_len <= 0xFFFF_FFFF
}

/// The start of the PHC string of an Argon2id (version 0x13 = 19) hash made with these
/// costs, up to the salt: `$argon2id$v=19$m=<memory>,t=<passes>,p=<lanes>$`.
pub open spec fn argon2id_phc_prefix(memory_kib: u32, passes: u32, lanes: u32) -> Seq<char> {
    "$argon2id$v=19$m="@ + decimal(memory_kib as nat) + ",t="@ + decimal(passes as nat) + ",p="@
        + decimal(lanes as nat) + "$"@
}

/// Argon2id hashing with valid costs succeeds: the output length fits a PHC `Output` and
/// the password is at most `MAX_PWD_LEN` bytes.
pub open spec fn argon2_hash_succeeds(password_bytes: nat, output_len: usize) -> bool {
    10 <= output_len <= 64 && password_bytes <= 0xFFFF_FFFF
}

/// `argon2::Argon2::hash_password` with Argon2id (version 0x13) and these costs, over a
/// salt from `SaltString::generate(OsRng)`. The costs are ones `Params::new` accepts, so
/// only hashing can fail (with its error's text). The PHC string it returns parses and
/// verifies against the same password (the `PasswordHasher` / `PasswordVerifier`
/// contract), and, as `PasswordHash`'s `Display` writes it, starts with the algorithm,
/// the version and the costs (`m`, `t`, `p` from `ParamsString::try_from(&Params)`), then
/// the salt. The salt is random, so nothing is claimed of what follows. Hashing fails
/// exactly when the output length is outside the 10 to 64 bytes a PHC `Output` holds
/// (`Output::init_with`) or the password is longer than `MAX_PWD_LEN` (2^32 - 1 bytes,
/// `verify_inputs`); the generated salt always has the 16 bytes the salt checks accept,
/// and the memory blocks are allocated to the block count.
#[verifier::external_body]
fn argon2id_hash(password: &str, memory_kib: u32, passes: u32, lanes: u32, output_len: usize) -> (r: Result<String, String>)
    requires
        argon2_params_ok(memory_kib, passes, lanes, output_len),
    ensures
        r is Ok == argon2_hash_succeeds(password.spec_bytes().len(), output_len),
        r matches Ok(h) ==> phc_parses(h@) && phc_verifies(password@, h@),
        r matches Ok(h) ==> starts_with(h@, argon2id_phc_prefix(memory_kib, passes, lanes)),
{
    let salt = SaltString::generate(&mut OsRng);
    let params = argon2::Params::new(memory_kib, passes, lanes, Some(output_len)).map_err(|e| e.to_string())?;
    let argon2 = argon2::Argon2::new(argon2::Algorithm::Argon2id, argon2::Version::V0x13, params);
    argon2.hash_password(password.as_bytes(), &salt).map(|h| h.to_string()).map_err(|e| e.to_string())
}

/// `argon2::PasswordHash::new` on `hash`, then `PasswordVerifier::verify_password` of an
/// Argon2id (version 0x13) instance with these costs (the check itself uses the costs
/// the hash names). An error, with the parse error's text, exactly when the PHC string
/// doesn't parse; otherwise whether the password matches.
#[verifier::external_body]
fn argon2id_verify(password: &str, hash: &str, memory_kib: u32, passes: u32, lanes: u32, output_len: usize) -> (r: Result<bool, String>)
    requires
        argon2_params_ok(memory_kib, passes, lanes, output_len),
    ensures
        r is Ok <==> phc_parses(hash@),
        r matches Ok(b) ==> b == phc_verifies(password@, hash@),
{
    let parsed = PasswordHash::new(hash).map_err(|e| e.to_string())?;
    let params = argon2::Params::new(memory_kib, passes, lanes, Some(output_len)).map_err(|e| e.to_string())?;
    let argon2 = argon2::Argon2::new(argon2::Algorithm::Argon2id, argon2::Version::V0x13, params);
    Ok(argon2.verify_password(password.as_bytes(), &parsed).is_ok())
}

/// Hashes a password with Argon2id (47 MiB, 2 passes, 1 lane, 32-byte output) and a
/// fresh random salt. A hash it returns verifies against the same password and names
/// those costs; it fails only for a password longer than 2^32 - 1 bytes.
pub fn hash_password(password: &str) -> (r: Result<String, String>)
    ensures
        r is Ok <==> password.spec_bytes().len() <= 0xFFFF_FFFF,
        r matches Ok(h) ==> phc_parses(h@) && phc_verifies(password@, h@),
        r matches Ok(h) ==> starts_with(h@, "$argon2id$v=19$m=47104,t=2,p=1$"@),
        r matches Err(e) ==> starts_with(e@, "Failed to hash password: "@),
{
    proof {
        reveal_strlit("$argon2id$v=19$m=");
        reveal_strlit(",t=");
        reveal_strlit(",p=");
        reveal_strlit("$");
        reveal_strlit("$argon2id$v=19$m=47104,t=2,p=1$");
        reveal_with_fuel(decimal, 6);
        assert(argon2id_phc_prefix(ARGON2_MEMORY_KIB, ARGON2_PASSES, ARGON2_LANES) =~= "$argon2id$v=19$m=47104,t=2,p=1$"@);
    }
    match argon2id_hash(password, ARGON2_MEMORY_KIB, ARGON2_PASSES, ARGON2_LANES, ARGON2_OUTPUT_LEN) {
        Ok(h) => Ok(h),
        Err(e) => {
            let m = concat("Failed to hash password: ", e.as_str());
            assert(("Failed to hash password: "@ + e@).subrange(0, "Failed to hash password: "@.len() as int) =~= "Failed to hash password: "@);
            Err(m)
        },
    }
}

/// Whether `password` matches `hashed_password`; an error when the hash doesn't parse.
pub fn verify_password(password: &str, hashed_password: &str) -> (r: Result<bool, String>)
    ensures
        r is Ok <==> phc_parses(hashed_password@),
        r matches Ok(b) ==> b == phc_verifies(password@, hashed_password@),
        r matches Err(e) ==> starts_with(e@, "Failed to parse password hash: "@),
{
    match argon2id_verify(password, hashed_password, ARGON2_MEMORY_KIB, ARGON2_PASSES, ARGON2_LANES, ARGON2_OUTPUT_LEN) {
        Ok(b) => Ok(b),
        Err(e) => {
            let m = concat("Failed to parse password hash: ", e.as_str());
            assert(("Failed to parse password hash: "@ + e@).subrange(0, "Failed to parse password hash: "@.len() as int) =~= "Failed to parse password hash: "@);
            Err(m)
        },
    }
}

/// AES-256-GCM with this key and nonce over `data`: the ciphertext followed by the
/// 16-byte tag.
pub uninterp spec fn aes_gcm_seal(key: Seq<u8>, nonce: Seq<u8>, data: Seq<u8>) -> Seq<u8>;

/// The largest plaintext AES-GCM takes (`aes_gcm::P_MAX`).
pub open spec fn gcm_max_len() -> int {
    0x10_0000_0000
}

/// Twelve random bytes from `OsRng`.
#[verifier::external_body]
fn random_nonce() -> [u8; 12] {
    let mut nonce = [0u8; 12];
    OsRng.fill_bytes(&mut nonce);
    nonce
}

/// `aes_gcm::Aes256Gcm::encrypt` with no associated data: fails (with the error's text)
/// only for a plaintext longer than `P_MAX`; otherwise the ciphertext with the 16-byte
/// tag appended, from which (with this key and nonce) no other plaintext seals.
#[verifier::external_body]
fn aes256gcm_seal(key: &[u8; 32], nonce: &[u8; 12], data: &[u8]) -> (r: Result<Vec<u8>, String>)
    ensures
        r is Ok <==> data@.len() <= gcm_max_len(),
        r matches Ok(c) ==> c@ == aes_gcm_seal(key@, nonce@, data@) && c@.len() == data@.len() + 16,
        r matches Ok(c) ==> forall|d: Seq<u8>| #[trigger] aes_gcm_seal(key@, nonce@, d) == c@ ==> d == data@,
{
    let cipher = aes_gcm::Aes256Gcm::new(key.into());
    cipher.encrypt(aes_gcm::Nonce::from_slice(nonce), data).map_err(|e| e.to_string())
}

/// `aes_gcm::Aes256Gcm::decrypt` with no associated data: it succeeds on what sealing
/// some plaintext with this key and nonce gives, and what it returns seals back to the
/// payload. The error's text is not described.
#[verifier::external_body]
fn aes256gcm_open(key: &[u8; 32], nonce: &[u8; 12], payload: &[u8]) -> (r: Result<Vec<u8>, String>)
    ensures
        r matches Ok(p) ==> aes_gcm_seal(key@, nonce@, p@) == payload@,
        r is Err ==> forall|d: Seq<u8>| #[trigger] aes_gcm_seal(key@, nonce@, d) == payload@ ==> d.len() > gcm_max_len(),
{
    let cipher = aes_gcm::Aes256Gcm::new(key.into());
    cipher.decrypt(aes_gcm::Nonce::from_slice(nonce), payload).map_err(|e| e.to_string())
}

/// Encrypts `data` under `key` with a fresh random nonce. Returns the ciphertext, the
/// nonce and the 16-byte tag; fails only for data longer than AES-GCM allows.
pub fn encrypt(data: &[u8], key: &[u8; 32]) -> (r: Result<(Vec<u8>, [u8; 12], [u8; 16]), String>)
    ensures
        r is Ok <==> data@.len() <= gcm_max_len(),
        r matches Err(e) ==> starts_with(e@, "Encryption failed: "@),
        r matches Ok((c, n, t)) ==> c@ + t@ == aes_gcm_seal(key@, n@, data@),
        r matches Ok((c, n, t)) ==> c@.len() == data@.len(),
        r matches Ok((c, n, t)) ==> forall|d: Seq<u8>| #[trigger] aes_gcm_seal(key@, n@, d) == c@ + t@ ==> d == data@,
{
    let nonce = random_nonce();
    let sealed = match aes256gcm_seal(key, &nonce, data) {
        Ok(c) => c,
        Err(e) => {
            let m = concat("Encryption failed: ", e.as_str());
            assert(("Encryption failed: "@ + e@).subrange(0, "Encryption failed: "@.len() as int) =~= "Encryption failed: "@);
            return Err(m);
        },
    };
    let tag_pos = sealed.len() - 16;
    let mut ciphertext: Vec<u8> = Vec::new();
    let mut i: usize = 0;
    while i < tag_pos
        invariant
            tag_pos == sealed@.len() - 16,
            i <= tag_pos,
            ciphertext@ == sealed@.subrange(0, i as int),
        decreases tag_pos - i,
    {
        ciphertext.push(sealed[i]);
        i = i + 1;
        assert(ciphertext@ =~= sealed@.subrange(0, i as int));
    }
    let mut tag = [0u8; 16];
    let mut j: usize = 0;
    while j < 16
        invariant
            sealed@.len() >= 16,
            tag_pos + 16 == sealed.len(),
            tag_pos == sealed@.len() - 16,
            j <= 16,
            tag@.len() == 16,
            forall|k: int| 0 <= k < j ==> tag@[k] == sealed@[tag_pos + k],
        decreases 16 - j,
    {
        tag[j] = sealed[tag_pos + j];
        j = j + 1;
    }
    assert(ciphertext@ + tag@ =~= sealed@);
    Ok((ciphertext, nonce, tag))
}

/// Decrypts what `encrypt` produced: it succeeds on a ciphertext and tag that seal some
/// data under this key and nonce, and what it returns seals to them.
pub fn decrypt(ciphertext: &[u8], key: &[u8; 32], nonce_bytes: &[u8; 12], tag_bytes: &[u8; 16]) -> (r: Result<Vec<u8>, String>)
    ensures
        r matches Ok(p) ==> aes_gcm_seal(key@, nonce_bytes@, p@) == ciphertext@ + tag_bytes@,
        r is Err ==> forall|d: Seq<u8>| #[trigger] aes_gcm_seal(key@, nonce_bytes@, d) == ciphertext@ + tag_bytes@ ==> d.len() > gcm_max_len(),
{
    let mut payload: Vec<u8> = Vec::new();
    let mut i: usize = 0;
    while i < ciphertext.len()
        invariant
            i <= ciphertext@.len(),
            payload@ == ciphertext@.subrange(0, i as int),
        decreases ciphertext@.len() - i,
    {
        payload.push(ciphertext[i]);
        i = i + 1;
        assert(payload@ =~= ciphertext@.subrange(0, i as int));
    }
    let mut j: usize = 0;
    while j < 16
        invariant
            j <= 16,
            tag_bytes@.len() == 16,
            payload@ == ciphertext@ + tag_bytes@.subrange(0, j as int),
        decreases 16 - j,
    {
        payload.push(tag_bytes[j]);
        j = j + 1;
        assert(payload@ =~= ciphertext@ + tag_bytes@.subrange(0, j as int));
    }
    assert(tag_bytes@.subrange(0, 16) =~= tag_bytes@);
    aes256gcm_open(key, nonce_bytes, payload.as_slice())
}

/// Decryption gives back what was encrypted: from what `encrypt` returned for `data`,
/// anything that `decrypt` returns with the same key and nonce is `data`.
pub proof fn law_decrypt_returns_what_was_encrypted(key: Seq<u8>, nonce: Seq<u8>, data: Seq<u8>, sealed: Seq<u8>, opened: Seq<u8>)
    requires
        sealed == aes_gcm_seal(key, nonce, data),
        forall|d: Seq<u8>| #[trigger] aes_gcm_seal(key, nonce, d) == sealed ==> d == data,
        aes_gcm_seal(key, nonce, opened) == sealed,
    ensures
        opened == data,
{
}

} // verus!
