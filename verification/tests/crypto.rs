use quasar::crypto::{decrypt, encrypt, hash_password, ssh_host_key_fingerprint, verify_password};

#[test]
fn test_password_hashing() {
    let password = "my_super_secret_password";
    let hashed = hash_password(password).unwrap();

    assert!(verify_password(password, &hashed).unwrap());
    assert!(!verify_password("wrong_password", &hashed).unwrap());
}

#[test]
fn test_encryption_decryption() {
    let data = b"sensitive information";
    let key = [0u8; 32]; // In real use, this would be derived from master password

    let (ciphertext, nonce, tag) = encrypt(data, &key).unwrap();
    let decrypted = decrypt(&ciphertext, &key, &nonce, &tag).unwrap();

    assert_eq!(data.to_vec(), decrypted);
}

#[test]
fn test_ssh_fingerprint_deterministic() {
    let key_bytes = b"fake-ssh-public-key-data-for-testing";
    let fp1 = ssh_host_key_fingerprint(key_bytes);
    let fp2 = ssh_host_key_fingerprint(key_bytes);
    assert_eq!(fp1, fp2, "Same input must produce identical fingerprints");
}

#[test]
fn test_ssh_fingerprint_format() {
    let key_bytes = b"test-key";
    let fp = ssh_host_key_fingerprint(key_bytes);

    // Must start with SHA256: prefix
    assert!(fp.starts_with("SHA256:"), "Fingerprint must start with SHA256: prefix");

    // After prefix: 32 hex bytes = 32 colon-separated pairs = 31 colons
    let hex_part = &fp["SHA256:".len()..];
    let parts: Vec<&str> = hex_part.split(':').collect();
    assert_eq!(parts.len(), 32, "SHA256 produces 32 bytes = 32 hex pairs");

    // Each part must be exactly 2 hex characters
    for part in &parts {
        assert_eq!(part.len(), 2, "Each segment must be 2 hex chars, got '{}'", part);
        assert!(
            part.chars().all(|c| c.is_ascii_hexdigit()),
            "Each segment must be hex, got '{}'",
            part
        );
    }
}

#[test]
fn test_ssh_fingerprint_different_keys() {
    let fp1 = ssh_host_key_fingerprint(b"key-one");
    let fp2 = ssh_host_key_fingerprint(b"key-two");
    assert_ne!(fp1, fp2, "Different keys must produce different fingerprints");
}

#[test]
fn test_ssh_fingerprint_empty_input() {
    // SHA256 of empty = e3b0c44298fc1c149afbf4c8996fb92427ae41e4649b934ca495991b7852b855
    let fp = ssh_host_key_fingerprint(b"");
    assert!(fp.starts_with("SHA256:"));
    assert_eq!(
        &fp,
        "SHA256:e3:b0:c4:42:98:fc:1c:14:9a:fb:f4:c8:99:6f:b9:24:27:ae:41:e4:64:9b:93:4c:a4:95:99:1b:78:52:b8:55"
    );
}

#[test]
fn a_tampered_ciphertext_or_tag_is_refused() {
    let key = [7u8; 32];
    let (mut ciphertext, nonce, tag) = encrypt(b"secret", &key).unwrap();
    assert_eq!(ciphertext.len(), 6);
    ciphertext[0] ^= 1;
    assert!(decrypt(&ciphertext, &key, &nonce, &tag).is_err());
    let (ciphertext, nonce, mut tag) = encrypt(b"secret", &key).unwrap();
    tag[0] ^= 1;
    assert!(decrypt(&ciphertext, &key, &nonce, &tag).is_err());
    let other = [8u8; 32];
    let (ciphertext, nonce, tag) = encrypt(b"secret", &key).unwrap();
    assert!(decrypt(&ciphertext, &other, &nonce, &tag).is_err());
}

#[test]
fn two_encryptions_use_fresh_nonces() {
    let key = [1u8; 32];
    let (a, na, _) = encrypt(b"same", &key).unwrap();
    let (b, nb, _) = encrypt(b"same", &key).unwrap();
    assert!(na != nb || a != b);
}

#[test]
fn a_malformed_hash_does_not_verify() {
    assert!(verify_password("pw", "not a phc string").is_err());
}

#[test]
fn hashes_name_the_argon2id_costs() {
    let h = hash_password("correct horse").unwrap();
    assert!(h.starts_with("$argon2id$v=19$m=47104,t=2,p=1$"), "{}", h);
}

#[test]
fn ciphertext_is_as_long_as_the_data() {
    let key = [7u8; 32];
    for data in [&b""[..], &b"x"[..], &b"sensitive data, longer than one block"[..]] {
        let (c, _n, _t) = encrypt(data, &key).unwrap();
        assert_eq!(c.len(), data.len());
    }
}
