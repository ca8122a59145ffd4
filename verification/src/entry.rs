use vstd::prelude::*;

use crate::error::Error;
use aes_gcm::aead::Aead;
use aes_gcm::KeyInit;
use base64::Engine;
use sha2::Digest;

verus! {

use vstd::utf8::{encode_utf8, decode_utf8, valid_utf8, encode_utf8_valid_utf8,
    encode_utf8_decode_utf8};

/// Work factor of the password-based key derivation. Fixed at build time:
/// changing it invalidates decryption of records written under the old value.
pub const PBKDF2_ITERATIONS: u32 = 100_000;

/// AES-256 key length in bytes.
pub const KEY_LEN: usize = 32;

/// Per-record salt length in bytes.
pub const SALT_LEN: usize = 16;

/// AES-GCM nonce length in bytes.
pub const NONCE_LEN: usize = 12;

/// The longest plaintext AES-GCM seals: 2^36 - 32 bytes.
pub const GCM_P_MAX: u64 = 68_719_476_704;

/// The SHA-256 digest of a byte string.
pub uninterp spec fn sha256_of(data: Seq<u8>) -> Seq<u8>;

/// The PBKDF2-HMAC-SHA256 output of the given length for a password, salt
/// and round count.
pub uninterp spec fn pbkdf2_key_of(password: Seq<u8>, salt: Seq<u8>, rounds: u32, out_len: nat) -> Seq<u8>;

/// The canonical padded base64 text of a byte string.
pub uninterp spec fn b64_of(data: Seq<u8>) -> Seq<char>;

/// The AES-256-GCM ciphertext (tag appended) of a plaintext under a key and
/// nonce, with no associated data.
pub uninterp spec fn gcm_seal_of(key: Seq<u8>, nonce: Seq<u8>, plaintext: Seq<u8>) -> Seq<u8>;

/// What AES-256-GCM decryption returns for a ciphertext under a key and
/// nonce: the plaintext when the tag verifies, nothing otherwise.
pub uninterp spec fn gcm_open_of(key: Seq<u8>, nonce: Seq<u8>, ciphertext: Seq<u8>) -> Option<Seq<u8>>;

/// The lowercase hexadecimal digit for a value below sixteen.
pub open spec fn hex_digit(n: int) -> char {
    seq!['0', '1', '2', '3', '4', '5', '6', '7', '8', '9', 'a', 'b', 'c', 'd', 'e', 'f'][n]
}

/// The lowercase hexadecimal text of a byte string, high nibble first.
pub open spec fn hex_of(data: Seq<u8>) -> Seq<char>
    decreases data.len(),
{
    if data.len() == 0 {
        Seq::empty()
    } else {
        seq![hex_digit(data[0] as int / 16), hex_digit(data[0] as int % 16)] + hex_of(data.skip(1))
    }
}

proof fn lemma_hex_of_len(data: Seq<u8>)
    ensures
        hex_of(data).len() == 2 * data.len(),
    decreases data.len(),
{
    if data.len() != 0 {
        lemma_hex_of_len(data.skip(1));
    }
}

/// The digest used for indexing entries and usernames: lowercase hex of the
/// SHA-256 digest of the UTF-8 bytes.
pub open spec fn spec_hash(s: Seq<char>) -> Seq<char> {
    hex_of(sha256_of(encode_utf8(s)))
}

/// The key derived from a master password and a salt, under the fixed work
/// factor and key length.
pub open spec fn derived_key(master: Seq<char>, salt: Seq<u8>) -> Seq<u8> {
    pbkdf2_key_of(encode_utf8(master), salt, PBKDF2_ITERATIONS, KEY_LEN as nat)
}

/// Relies on sha2's `Sha256::digest`: a 32-byte digest, a function of the
/// input bytes alone.
#[verifier::external_body]
fn sha256_digest(data: &[u8]) -> (r: Vec<u8>)
    ensures
        r@ == sha256_of(data@),
        r@.len() == 32,
{
    sha2::Sha256::digest(data).to_vec()
}

/// Relies on hex's `encode`: two lowercase hex digits per byte, high nibble
/// first.
#[verifier::external_body]
fn hex_encode(data: &[u8]) -> (r: String)
    ensures
        r@ == hex_of(data@),
{
    hex::encode(data)
}

/// Relies on pbkdf2's `pbkdf2_hmac` with SHA-256: fills a buffer of the
/// requested length, a function of password, salt and round count alone.
#[verifier::external_body]
fn pbkdf2_hmac_sha256(password: &[u8], salt: &[u8], rounds: u32, out_len: usize) -> (r: Vec<u8>)
    requires
        rounds >= 1,
    ensures
        r@ == pbkdf2_key_of(password@, salt@, rounds, out_len as nat),
        r@.len() == out_len,
{
    let mut key = vec![0u8; out_len];
    pbkdf2::pbkdf2_hmac::<sha2::Sha256>(password, salt, rounds, &mut key);
    key
}

/// Relies on rand's `fill`: bytes from the thread-local cryptographically
/// secure generator. Nothing is promised of the values.
#[verifier::external_body]
fn random_bytes(n: usize) -> (r: Vec<u8>)
    ensures
        r@.len() == n,
{
    let mut buf = vec![0u8; n];
    rand::fill(&mut buf[..]);
    buf
}

/// Relies on base64's `STANDARD` engine `encode`: the canonical padded
/// encoding, a function of the input bytes alone.
#[verifier::external_body]
fn b64_encode(data: &[u8]) -> (r: String)
    ensures
        r@ == b64_of(data@),
{
    base64::engine::general_purpose::STANDARD.encode(data)
}

/// Relies on base64's `STANDARD` engine `decode`: it accepts exactly the
/// canonical padded encodings (padding required, trailing bits refused) and
/// inverts `encode` on them.
#[verifier::external_body]
fn b64_decode(text: &str) -> (r: Option<Vec<u8>>)
    ensures
        r matches Some(out) ==> text@ == b64_of(out@) && (forall|b: Seq<u8>|
            b64_of(b) == text@ ==> b == out@),
        r is None ==> forall|b: Seq<u8>| b64_of(b) != text@,
{
    base64::engine::general_purpose::STANDARD.decode(text).ok()
}

/// Relies on aes-gcm's `Aes256Gcm` `encrypt` with empty associated data: it
/// succeeds exactly on plaintexts no longer than `GCM_P_MAX`, appends the
/// 16-byte tag, and its output decrypts back to the plaintext under the same
/// key and nonce.
#[verifier::external_body]
fn gcm_seal(key: &[u8], nonce: &[u8], plaintext: &[u8]) -> (r: Option<Vec<u8>>)
    requires
        key@.len() == KEY_LEN,
        nonce@.len() == NONCE_LEN,
    ensures
        r matches Some(ct) ==> ({
            &&& ct@ == gcm_seal_of(key@, nonce@, plaintext@)
            &&& ct@.len() == plaintext@.len() + 16
            &&& gcm_open_of(key@, nonce@, ct@) == Some(plaintext@)
        }),
        r is Some <==> plaintext@.len() <= GCM_P_MAX,
{
    let cipher = aes_gcm::Aes256Gcm::new_from_slice(key).expect("key length");
    let nonce_arr = aes_gcm::aead::Nonce::<aes_gcm::Aes256Gcm>::try_from(nonce).expect(
        "nonce length",
    );
    cipher.encrypt(&nonce_arr, plaintext).ok()
}

/// Relies on aes-gcm's `Aes256Gcm` `decrypt` with empty associated data: a
/// function of key, nonce and ciphertext that returns the plaintext when the
/// tag verifies and fails otherwise.
#[verifier::external_body]
fn gcm_open(key: &[u8], nonce: &[u8], ciphertext: &[u8]) -> (r: Option<Vec<u8>>)
    requires
        key@.len() == KEY_LEN,
        nonce@.len() == NONCE_LEN,
    ensures
        r matches Some(pt) ==> gcm_open_of(key@, nonce@, ciphertext@) == Some(pt@),
        r is None ==> gcm_open_of(key@, nonce@, ciphertext@) is None,
{
    let cipher = aes_gcm::Aes256Gcm::new_from_slice(key).expect("key length");
    let nonce_arr = aes_gcm::aead::Nonce::<aes_gcm::Aes256Gcm>::try_from(nonce).expect(
        "nonce length",
    );
    cipher.decrypt(&nonce_arr, ciphertext).ok()
}

/// Relies on std's `String::from_utf8`: it succeeds exactly on valid UTF-8
/// and returns the string those bytes spell.
#[verifier::external_body]
fn utf8_decode(bytes: Vec<u8>) -> (r: Option<String>)
    ensures
        r matches Some(s) ==> ({
            &&& valid_utf8(bytes@)
            &&& s@ == decode_utf8(bytes@)
            &&& encode_utf8(s@) == bytes@
        }),
        r is Some <==> valid_utf8(bytes@),
{
    String::from_utf8(bytes).ok()
}

/// Hash a label for indexing: lowercase hex of its SHA-256 digest.
pub fn hash_sha256(plaintext: &str) -> (r: String)
    ensures
        r@ == spec_hash(plaintext@),
        r@.len() == 64,
{
    let digest = sha256_digest(plaintext.as_bytes());
    proof {
        lemma_hex_of_len(digest@);
    }
    hex_encode(digest.as_slice())
}

/// Derive the per-record encryption key from the master password and a salt.
pub fn pbkdf2(master_password: &str, salt: &[u8]) -> (r: Vec<u8>)
    ensures
        r@ == derived_key(master_password@, salt@),
        r@.len() == KEY_LEN,
{
    pbkdf2_hmac_sha256(master_password.as_bytes(), salt, PBKDF2_ITERATIONS, KEY_LEN)
}

/// A fresh random salt, regenerated on every write of a record.
pub fn fresh_salt() -> (r: Vec<u8>)
    ensures
        r@.len() == SALT_LEN,
{
    random_bytes(SALT_LEN)
}

/// A fresh random nonce, never reused with the same key.
pub fn fresh_nonce() -> (r: Vec<u8>)
    ensures
        r@.len() == NONCE_LEN,
{
    random_bytes(NONCE_LEN)
}

/// Encrypt a plaintext under a key with a fresh nonce; returns the pair of
/// the nonce and the ciphertext.
pub fn aes256_gcm_encrypt(key_bytes: &[u8], plaintext: &[u8]) -> (r: Result<(Vec<u8>, Vec<u8>), Error>)
    requires
        key_bytes@.len() == KEY_LEN,
    ensures
        r matches Ok(p) ==> ({
            &&& p.0@.len() == NONCE_LEN
            &&& p.1@ == gcm_seal_of(key_bytes@, p.0@, plaintext@)
            &&& p.1@.len() == plaintext@.len() + 16
            &&& gcm_open_of(key_bytes@, p.0@, p.1@) == Some(plaintext@)
        }),
        r is Ok <==> plaintext@.len() <= GCM_P_MAX,
        r matches Err(e) ==> e == Error::AESGCMError,
{
    let nonce = fresh_nonce();
    match gcm_seal(key_bytes, nonce.as_slice(), plaintext) {
        Some(ciphertext) => Ok((nonce, ciphertext)),
        None => Err(Error::AESGCMError),
    }
}

/// Decrypt a ciphertext under a key and nonce; fails exactly when the
/// authentication tag does not verify.
pub fn aes256_gcm_decrypt(key_bytes: &[u8], nonce_bytes: &[u8], ciphertext: &[u8]) -> (r: Result<Vec<u8>, Error>)
    requires
        key_bytes@.len() == KEY_LEN,
        nonce_bytes@.len() == NONCE_LEN,
    ensures
        r matches Ok(pt) ==> gcm_open_of(key_bytes@, nonce_bytes@, ciphertext@) == Some(pt@),
        r matches Err(e) ==> e == Error::AESGCMError,
        r is Ok <==> gcm_open_of(key_bytes@, nonce_bytes@, ciphertext@) is Some,
{
    match gcm_open(key_bytes, nonce_bytes, ciphertext) {
        Some(plaintext) => Ok(plaintext),
        None => Err(Error::AESGCMError),
    }
}

/// The abstract value of a stored credential: the four text fields.
#[verifier::ext_equal]
pub struct CredentialData {
    pub username: Seq<char>,
    pub ciphertext: Seq<char>,
    pub salt: Seq<char>,
    pub nonce: Seq<char>,
}

/// One stored secret instance: the hashed username that indexes it, and the
/// base64 texts of the ciphertext, the salt and the nonce.
#[derive(Clone, Debug, PartialEq, Eq)]
pub struct Credential {
    pub username: String,
    pub ciphertext: String,
    pub salt: String,
    pub nonce: String,
}

impl View for Credential {
    type V = CredentialData;

    open spec fn view(&self) -> CredentialData {
        CredentialData {
            username: self.username@,
            ciphertext: self.ciphertext@,
            salt: self.salt@,
            nonce: self.nonce@,
        }
    }
}

/// The three encoded fields decode to the given byte strings, and the nonce
/// has its fixed length.
pub open spec fn encoded_parts(cv: CredentialData, sb: Seq<u8>, nb: Seq<u8>, cb: Seq<u8>) -> bool {
    &&& cv.salt == b64_of(sb)
    &&& cv.nonce == b64_of(nb)
    &&& nb.len() == NONCE_LEN
    &&& cv.ciphertext == b64_of(cb)
}

/// Every stored field is canonical base64 and the nonce has its fixed length.
pub open spec fn well_encoded(cv: CredentialData) -> bool {
    exists|sb: Seq<u8>, nb: Seq<u8>, cb: Seq<u8>| encoded_parts(cv, sb, nb, cb)
}

/// The record decodes, but the tag does not verify under the key this master
/// password derives.
pub open spec fn auth_fails(cv: CredentialData, master: Seq<char>) -> bool {
    exists|sb: Seq<u8>, nb: Seq<u8>, cb: Seq<u8>|
        encoded_parts(cv, sb, nb, cb) && gcm_open_of(
            derived_key(master, sb),
            nb,
            cb,
        ) is None
}

/// The record decodes and authenticated decryption under this master
/// password yields the byte string `b`.
pub open spec fn opens_to_bytes(cv: CredentialData, master: Seq<char>, b: Seq<u8>) -> bool {
    exists|sb: Seq<u8>, nb: Seq<u8>, cb: Seq<u8>|
        encoded_parts(cv, sb, nb, cb) && gcm_open_of(derived_key(master, sb), nb, cb) == Some(b)
}

/// The record is exactly what encrypting `password` under `master` with the
/// salt `sb` and nonce `nb` produces.
pub open spec fn sealed_parts(
    cv: CredentialData,
    password: Seq<char>,
    master: Seq<char>,
    sb: Seq<u8>,
    nb: Seq<u8>,
) -> bool {
    &&& sb.len() == SALT_LEN
    &&& nb.len() == NONCE_LEN
    &&& cv.salt == b64_of(sb)
    &&& cv.nonce == b64_of(nb)
    &&& cv.ciphertext == b64_of(gcm_seal_of(derived_key(master, sb), nb, encode_utf8(password)))
    &&& gcm_open_of(
        derived_key(master, sb),
        nb,
        gcm_seal_of(derived_key(master, sb), nb, encode_utf8(password)),
    ) == Some(encode_utf8(password))
}

/// The record holds `password` encrypted under `master`, for some salt and
/// nonce.
pub open spec fn encodes_secret(cv: CredentialData, password: Seq<char>, master: Seq<char>) -> bool {
    exists|sb: Seq<u8>, nb: Seq<u8>| sealed_parts(cv, password, master, sb, nb)
}

/// The round trip: a record that encodes `password` under `master` opens
/// under `master` to exactly the bytes of `password`, whatever salt and
/// nonce were drawn when it was written.
pub proof fn lemma_round_trip(cv: CredentialData, password: Seq<char>, master: Seq<char>)
    requires
        encodes_secret(cv, password, master),
    ensures
        well_encoded(cv),
        opens_to_bytes(cv, master, encode_utf8(password)),
{
    let (sb, nb) = choose|sb: Seq<u8>, nb: Seq<u8>| sealed_parts(cv, password, master, sb, nb);
    let cb = gcm_seal_of(derived_key(master, sb), nb, encode_utf8(password));
    assert(encoded_parts(cv, sb, nb, cb));
    assert(gcm_open_of(derived_key(master, sb), nb, cb) == Some(encode_utf8(password)));
}

/// Everything reading a record under a master password promises: each error
/// exactly when its condition holds, success exactly when the record decodes
/// and authenticates to valid text, and — the round trip — a record written
/// under this master password always yields the password it encodes.
pub open spec fn read_outcome(cv: CredentialData, master: Seq<char>, r: Result<String, Error>) -> bool {
    &&& (r == Err::<String, Error>(Error::DecodeError) <==> !well_encoded(cv))
    &&& (r == Err::<String, Error>(Error::AESGCMError) <==> auth_fails(cv, master))
    &&& (r == Err::<String, Error>(Error::UTF8Error) <==> exists|b: Seq<u8>|
        opens_to_bytes(cv, master, b) && !valid_utf8(b))
    &&& (r matches Ok(p) ==> exists|b: Seq<u8>|
        opens_to_bytes(cv, master, b) && valid_utf8(b) && p@ == decode_utf8(b))
    &&& ((exists|b: Seq<u8>| opens_to_bytes(cv, master, b) && valid_utf8(b)) ==> r is Ok)
    &&& (forall|password: Seq<char>|
        encodes_secret(cv, password, master) ==> (r matches Ok(p) && p@ == password))
}

impl Credential {
    /// Build a fresh record: hash the username, draw a fresh salt and nonce,
    /// and encrypt the password under the key the master password derives.
    pub fn new(username: &str, password: &str, master: &str) -> (r: Result<Credential, Error>)
        ensures
            r matches Ok(c) ==> ({
                &&& c@.username == spec_hash(username@)
                &&& encodes_secret(c@, password@, master@)
            }),
            r matches Err(e) ==> e == Error::AESGCMError,
            encode_utf8(password@).len() <= GCM_P_MAX ==> r is Ok,
    {
        let salt = fresh_salt();
        let key = pbkdf2(master, salt.as_slice());
        match aes256_gcm_encrypt(key.as_slice(), password.as_bytes()) {
            Ok((nonce, ciphertext)) => {
                let c = Credential {
                    username: hash_sha256(username),
                    ciphertext: b64_encode(ciphertext.as_slice()),
                    salt: b64_encode(salt.as_slice()),
                    nonce: b64_encode(nonce.as_slice()),
                };
                proof {
                    assert(sealed_parts(c@, password@, master@, salt@, nonce@));
                }
                Ok(c)
            },
            Err(e) => Err(e),
        }
    }

    /// Decode the stored fields, derive the key from the supplied master
    /// password and the stored salt, and decrypt.
    pub fn password_string(&self, master: &str) -> (r: Result<String, Error>)
        ensures
            read_outcome(self@, master@, r),
    {
        let salt = match b64_decode(self.salt.as_str()) {
            Some(v) => v,
            None => {
                proof {
                    lemma_field_unmatched(self@, master@);
                }
                return Err(Error::DecodeError);
            },
        };
        let nonce = match b64_decode(self.nonce.as_str()) {
            Some(v) => v,
            None => {
                proof {
                    lemma_field_unmatched(self@, master@);
                }
                return Err(Error::DecodeError);
            },
        };
        let ciphertext = match b64_decode(self.ciphertext.as_str()) {
            Some(v) => v,
            None => {
                proof {
                    lemma_field_unmatched(self@, master@);
                }
                return Err(Error::DecodeError);
            },
        };
        if nonce.len() != NONCE_LEN {
            proof {
                lemma_field_unmatched(self@, master@);
            }
            return Err(Error::DecodeError);
        }
        let key = pbkdf2(master, salt.as_slice());
        proof {
            lemma_parts_pinned(self@, master@, salt@, nonce@, ciphertext@);
        }
        let plaintext = match aes256_gcm_decrypt(
            key.as_slice(),
            nonce.as_slice(),
            ciphertext.as_slice(),
        ) {
            Ok(v) => v,
            Err(_) => {
                return Err(Error::AESGCMError);
            },
        };
        let ghost ptb = plaintext@;
        match utf8_decode(plaintext) {
            Some(s) => {
                proof {
                    assert forall|password: Seq<char>|
                        encodes_secret(self@, password, master@) implies s@ == password by {
                        encode_utf8_decode_utf8(password);
                    }
                }
                Ok(s)
            },
            None => {
                proof {
                    assert forall|password: Seq<char>| !encodes_secret(
                        self@,
                        password,
                        master@,
                    ) by {
                        if encodes_secret(self@, password, master@) {
                            encode_utf8_valid_utf8(password);
                        }
                    }
                }
                Err(Error::UTF8Error)
            },
        }
    }
}

/// When one stored field is not canonical base64 (or the nonce length is
/// wrong, so no decoding matches every field), nothing decodes: every
/// outcome predicate over decoded parts is false.
proof fn lemma_field_unmatched(cv: CredentialData, master: Seq<char>)
    requires
        (forall|b: Seq<u8>| b64_of(b) != cv.salt)
        || (forall|b: Seq<u8>| b64_of(b) != cv.nonce)
        || (forall|b: Seq<u8>| b64_of(b) != cv.ciphertext)
        || (forall|b: Seq<u8>| b64_of(b) == cv.nonce ==> b.len() != NONCE_LEN),
    ensures
        !well_encoded(cv),
        !auth_fails(cv, master),
        forall|b: Seq<u8>| !opens_to_bytes(cv, master, b),
        forall|password: Seq<char>| !encodes_secret(cv, password, master),
{
    assert forall|sb: Seq<u8>, nb: Seq<u8>, cb: Seq<u8>| !encoded_parts(cv, sb, nb, cb) by {}
    assert forall|password: Seq<char>| !encodes_secret(cv, password, master) by {
        assert forall|sb: Seq<u8>, nb: Seq<u8>| !sealed_parts(cv, password, master, sb, nb) by {}
    }
}

/// Once each field's decoding is pinned (base64 is injective on what decodes),
/// the existential outcome predicates collapse to facts about the one decoded
/// triple.
proof fn lemma_parts_pinned(
    cv: CredentialData,
    master: Seq<char>,
    sb: Seq<u8>,
    nb: Seq<u8>,
    cb: Seq<u8>,
)
    requires
        cv.salt == b64_of(sb),
        forall|b: Seq<u8>| b64_of(b) == cv.salt ==> b == sb,
        cv.nonce == b64_of(nb),
        forall|b: Seq<u8>| b64_of(b) == cv.nonce ==> b == nb,
        nb.len() == NONCE_LEN,
        cv.ciphertext == b64_of(cb),
        forall|b: Seq<u8>| b64_of(b) == cv.ciphertext ==> b == cb,
    ensures
        well_encoded(cv),
        auth_fails(cv, master) <==> gcm_open_of(derived_key(master, sb), nb, cb) is None,
        forall|b: Seq<u8>|
            opens_to_bytes(cv, master, b) <==> gcm_open_of(derived_key(master, sb), nb, cb)
                == Some(b),
        forall|password: Seq<char>|
            encodes_secret(cv, password, master) ==> gcm_open_of(derived_key(master, sb), nb, cb)
                == Some(encode_utf8(password)),
{
    assert(encoded_parts(cv, sb, nb, cb));
    assert forall|sb2: Seq<u8>, nb2: Seq<u8>, cb2: Seq<u8>|
        encoded_parts(cv, sb2, nb2, cb2) implies sb2 == sb && nb2 == nb && cb2 == cb by {}
    assert forall|b: Seq<u8>|
        opens_to_bytes(cv, master, b) <==> gcm_open_of(derived_key(master, sb), nb, cb) == Some(
            b,
        ) by {
        if gcm_open_of(derived_key(master, sb), nb, cb) == Some(b) {
            assert(encoded_parts(cv, sb, nb, cb) && gcm_open_of(derived_key(master, sb), nb, cb)
                == Some(b));
        }
    }
    assert forall|password: Seq<char>|
        encodes_secret(cv, password, master) implies gcm_open_of(derived_key(master, sb), nb, cb)
        == Some(encode_utf8(password)) by {
        let (sb2, nb2) = choose|sb2: Seq<u8>, nb2: Seq<u8>|
            sealed_parts(cv, password, master, sb2, nb2);
        assert(sb2 == sb && nb2 == nb);
        assert(gcm_seal_of(derived_key(master, sb), nb, encode_utf8(password)) == cb);
    }
    if gcm_open_of(derived_key(master, sb), nb, cb) is None {
        assert(encoded_parts(cv, sb, nb, cb) && gcm_open_of(derived_key(master, sb), nb, cb) is None);
    }
}

} // verus!
