use base64::engine::general_purpose;
use base64::Engine;
use passlock::entry::{
    aes256_gcm_decrypt, aes256_gcm_encrypt, fresh_nonce, fresh_salt, hash_sha256, pbkdf2,
    Credential,
};
use passlock::Error;

#[test]
fn test_encryption() {
    let master_password = "supersecret";

    let mut salt = [0u8; 16];
    rand::fill(&mut salt);

    let key = pbkdf2(master_password, &salt);

    let password = "password123";
    println!("Original data: {}", password);

    let (nonce, ciphertext) = aes256_gcm_encrypt(&key, password.as_bytes()).unwrap();

    let key2 = pbkdf2(master_password, &salt);

    let decrypted_bytes = aes256_gcm_decrypt(&key2, &nonce, &ciphertext).unwrap();
    let decrypted_data = String::from_utf8(decrypted_bytes).unwrap();

    println!("Decrypted data: {}", decrypted_data);
    assert_eq!(decrypted_data, password);
}

#[test]
fn hash_known_vector() {
    assert_eq!(
        hash_sha256("abc"),
        "ba7816bf8f01cfea414140de5dae2223b00361a396177a9cb410ff61f20015ad"
    );
}

#[test]
fn hash_deterministic_and_fixed_length() {
    assert_eq!(hash_sha256("github"), hash_sha256("github"));
    assert_eq!(hash_sha256("").len(), 64);
    assert_eq!(hash_sha256("x").len(), 64);
    assert_eq!(hash_sha256(&"long".repeat(100)).len(), 64);
}

#[test]
fn hash_avalanche_sample() {
    let mut hashes: Vec<String> = Vec::new();
    for i in 0..1000 {
        hashes.push(hash_sha256(&format!("input-{}", i)));
    }
    hashes.sort();
    for w in hashes.windows(2) {
        assert_ne!(w[0], w[1]);
    }
}

#[test]
fn randomness_uniqueness() {
    let mut salts: Vec<Vec<u8>> = Vec::new();
    let mut nonces: Vec<Vec<u8>> = Vec::new();
    for _ in 0..10_000 {
        let s = fresh_salt();
        assert_eq!(s.len(), 16);
        salts.push(s);
        let n = fresh_nonce();
        assert_eq!(n.len(), 12);
        nonces.push(n);
    }
    salts.sort();
    nonces.sort();
    for w in salts.windows(2) {
        assert_ne!(w[0], w[1]);
    }
    for w in nonces.windows(2) {
        assert_ne!(w[0], w[1]);
    }
}

#[test]
fn wrong_key_rejected() {
    let salt = fresh_salt();
    let key1 = pbkdf2("hunter2", &salt);
    let key2 = pbkdf2("wrongpass", &salt);
    assert_ne!(key1, key2);
    let (nonce, ciphertext) = aes256_gcm_encrypt(&key1, b"p@ss1").unwrap();
    assert!(matches!(
        aes256_gcm_decrypt(&key2, &nonce, &ciphertext),
        Err(Error::AESGCMError)
    ));
}

#[test]
fn tampered_ciphertext_rejected() {
    let salt = fresh_salt();
    let key = pbkdf2("hunter2", &salt);
    let (nonce, mut ciphertext) = aes256_gcm_encrypt(&key, b"p@ss1").unwrap();
    ciphertext[0] ^= 0x01;
    assert!(matches!(
        aes256_gcm_decrypt(&key, &nonce, &ciphertext),
        Err(Error::AESGCMError)
    ));
}

#[test]
fn credential_round_trip() {
    let c = Credential::new("alice", "p@ss1", "hunter2").unwrap();
    assert_eq!(c.username, hash_sha256("alice"));
    assert_eq!(c.password_string("hunter2").unwrap(), "p@ss1");
    assert!(matches!(
        c.password_string("wrongpass"),
        Err(Error::AESGCMError)
    ));
}

#[test]
fn credential_decode_error() {
    let c = Credential {
        username: hash_sha256("u"),
        ciphertext: "%%%not base64%%%".to_string(),
        salt: "also bad".to_string(),
        nonce: "!".to_string(),
    };
    assert!(matches!(c.password_string("m"), Err(Error::DecodeError)));
}

#[test]
fn credential_bad_nonce_length() {
    let c = Credential {
        username: hash_sha256("u"),
        ciphertext: general_purpose::STANDARD.encode([1u8; 32]),
        salt: general_purpose::STANDARD.encode([2u8; 16]),
        nonce: general_purpose::STANDARD.encode([3u8; 5]),
    };
    assert!(matches!(c.password_string("m"), Err(Error::DecodeError)));
}

#[test]
fn credential_utf8_error() {
    let salt = fresh_salt();
    let key = pbkdf2("m", &salt);
    let (nonce, ciphertext) = aes256_gcm_encrypt(&key, &[0xff, 0xfe, 0x01]).unwrap();
    let c = Credential {
        username: hash_sha256("u"),
        ciphertext: general_purpose::STANDARD.encode(&ciphertext),
        salt: general_purpose::STANDARD.encode(&salt),
        nonce: general_purpose::STANDARD.encode(&nonce),
    };
    assert!(matches!(c.password_string("m"), Err(Error::UTF8Error)));
}

#[test]
fn credential_fields_are_base64() {
    let c = Credential::new("alice", "secret", "m").unwrap();
    assert_eq!(general_purpose::STANDARD.decode(&c.salt).unwrap().len(), 16);
    assert_eq!(general_purpose::STANDARD.decode(&c.nonce).unwrap().len(), 12);
    let ct = general_purpose::STANDARD.decode(&c.ciphertext).unwrap();
    assert_eq!(ct.len(), "secret".len() + 16);
    assert_eq!(c.username.len(), 64);
}
