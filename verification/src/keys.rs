//! World keys: the keys derived from the world master key, and the passphrase-sealed
//! access bundle that carries the master key.
use vstd::prelude::*;
use chacha20poly1305::aead::Aead;
use chacha20poly1305::KeyInit;
use sha2::Digest;
use crate::codec::{b64_decode, b64_encode, base64_standard, base64_standard_decode};

verus! {

/// The SHA-256 digest of `data`.
pub uninterp spec fn sha256(data: Seq<u8>) -> Seq<u8>;

/// Hashes with `sha2::Sha256::digest`: the SHA-256 digest of the bytes.
#[verifier::external_body]
fn sha256_digest(data: &[u8]) -> (r: [u8; 32])
    ensures
        r@ == sha256(data@),
{
    let d = sha2::Sha256::digest(data);
    let mut out = [0u8; 32];
    out.copy_from_slice(&d);
    out
}

pub open spec fn utf8(s: Seq<char>) -> Seq<u8> {
    vstd::utf8::encode_utf8(s)
}

pub open spec fn master_key_domain() -> Seq<u8> {
    utf8("ma-world/master-key/v1"@)
}

pub open spec fn signing_key_domain() -> Seq<u8> {
    utf8("ma-world/did-doc-signing-key/v1"@)
}

pub open spec fn encryption_key_domain() -> Seq<u8> {
    utf8("ma-world/did-doc-encryption-key/v1"@)
}

fn append_bytes(out: &mut Vec<u8>, b: &[u8])
    ensures
        final(out)@ == old(out)@ + b@,
{
    let ghost start = out@;
    let mut i: usize = 0;
    while i < b.len()
        invariant
            0 <= i <= b@.len(),
            out@ == start + b@.subrange(0, i as int),
        decreases b.len() - i,
    {
        out.push(b[i]);
        i = i + 1;
        assert(out@ =~= start + b@.subrange(0, i as int));
    }
    assert(b@.subrange(0, b@.len() as int) =~= b@);
}

/// The per-world master key of a machine: SHA-256 of the domain tag, the world slug and
/// the machine's secret key bytes.
pub fn derive_world_master_key(secret_key: &[u8; 32], world_slug: &str) -> (r: [u8; 32])
    ensures
        r@ == sha256(master_key_domain() + utf8(world_slug@) + secret_key@),
{
    let mut buf: Vec<u8> = Vec::new();
    append_bytes(&mut buf, "ma-world/master-key/v1".as_bytes());
    append_bytes(&mut buf, world_slug.as_bytes());
    append_bytes(&mut buf, secret_key.as_slice());
    sha256_digest(buf.as_slice())
}

/// The key that signs the world DID document: SHA-256 of its domain tag and the
/// master key.
pub fn derive_world_signing_private_key(world_master_key: &[u8; 32]) -> (r: [u8; 32])
    ensures
        r@ == sha256(signing_key_domain() + world_master_key@),
{
    let mut buf: Vec<u8> = Vec::new();
    append_bytes(&mut buf, "ma-world/did-doc-signing-key/v1".as_bytes());
    append_bytes(&mut buf, world_master_key.as_slice());
    sha256_digest(buf.as_slice())
}

/// The key agreement key of the world DID document: SHA-256 of its domain tag and the
/// master key.
pub fn derive_world_encryption_private_key(world_master_key: &[u8; 32]) -> (r: [u8; 32])
    ensures
        r@ == sha256(encryption_key_domain() + world_master_key@),
{
    let mut buf: Vec<u8> = Vec::new();
    append_bytes(&mut buf, "ma-world/did-doc-encryption-key/v1".as_bytes());
    append_bytes(&mut buf, world_master_key.as_slice());
    sha256_digest(buf.as_slice())
}


// ------------------------------------------------------------------
// passphrase key derivation and authenticated encryption
// ------------------------------------------------------------------
#[verifier::external_type_specification]
#[verifier::external_body]
pub struct ExArgon2Error(argon2::Error);

#[verifier::external_type_specification]
#[verifier::external_body]
pub struct ExAeadError(chacha20poly1305::Error);

/// The 32-byte Argon2id (version 0x13) hash of `password` with `salt` and the given
/// memory, time and parallelism costs.
pub uninterp spec fn argon2id_v13(m_cost: u32, t_cost: u32, p_cost: u32, password: Seq<u8>, salt: Seq<u8>) -> Seq<u8>;

/// The costs and inputs `argon2` accepts: memory at least 8 KiB and 8 per lane, at least
/// one pass and one lane, a salt of 8 to 2^32-1 bytes, a password under 2^32 bytes.
pub open spec fn argon2_accepts(m_cost: u32, t_cost: u32, p_cost: u32, password: Seq<u8>, salt: Seq<u8>) -> bool {
    &&& m_cost >= 8 && m_cost >= 8 * p_cost
    &&& t_cost >= 1
    &&& p_cost >= 1
    &&& 8 <= salt.len() <= 0xFFFF_FFFF
    &&& password.len() <= 0xFFFF_FFFF
}

/// Derives a 32-byte key with `argon2::Params::new(m, t, p, Some(32))` and
/// `Argon2::new(Argon2id, V0x13, params).hash_password_into`: the Argon2id hash when the
/// crate accepts the costs and inputs (as `argon2_accepts` states), its error otherwise.
#[verifier::external_body]
fn argon2id_hash(m_cost: u32, t_cost: u32, p_cost: u32, password: &[u8], salt: &[u8]) -> (r: Result<[u8; 32], argon2::Error>)
    requires
        p_cost <= 0xFF_FFFF,
    ensures
        r is Ok <==> argon2_accepts(m_cost, t_cost, p_cost, password@, salt@),
        r matches Ok(k) ==> k@ == argon2id_v13(m_cost, t_cost, p_cost, password@, salt@),
{
    let params = argon2::Params::new(m_cost, t_cost, p_cost, Some(32))?;
    let hasher = argon2::Argon2::new(argon2::Algorithm::Argon2id, argon2::Version::V0x13, params);
    let mut out = [0u8; 32];
    hasher.hash_password_into(password, salt, &mut out)?;
    Ok(out)
}

/// What XChaCha20-Poly1305 decryption of `ciphertext` with `key` and `nonce` yields;
/// none when authentication fails.
pub uninterp spec fn xchacha20poly1305_open(key: Seq<u8>, nonce: Seq<u8>, ciphertext: Seq<u8>) -> Option<Seq<u8>>;

/// What XChaCha20-Poly1305 encryption of `plaintext` with `key` and `nonce` yields.
pub uninterp spec fn xchacha20poly1305_seal(key: Seq<u8>, nonce: Seq<u8>, plaintext: Seq<u8>) -> Seq<u8>;

/// Decrypts with `XChaCha20Poly1305::new(key).decrypt(nonce, ciphertext)`: the plaintext
/// when the ciphertext authenticates under the key and nonce, the crate's error otherwise.
#[verifier::external_body]
fn xchacha_decrypt(key: &[u8; 32], nonce: &[u8; 24], ciphertext: &[u8]) -> (r: Result<Vec<u8>, chacha20poly1305::Error>)
    ensures
        r is Ok <==> xchacha20poly1305_open(key@, nonce@, ciphertext@) is Some,
        r matches Ok(v) ==> v@ == xchacha20poly1305_open(key@, nonce@, ciphertext@)->Some_0,
{
    let cipher = chacha20poly1305::XChaCha20Poly1305::new(key.into());
    cipher.decrypt(chacha20poly1305::XNonce::from_slice(nonce), ciphertext)
}

/// Encrypts with `XChaCha20Poly1305::new(key).encrypt(nonce, plaintext)`: the sealed
/// message (the plaintext's length plus a 16-byte tag), which decrypts under the same
/// key and nonce to the plaintext. The crate refuses only plaintexts of 2^32-1 blocks of
/// 64 bytes or more, which the bound rules out.
#[verifier::external_body]
fn xchacha_encrypt(key: &[u8; 32], nonce: &[u8; 24], plaintext: &[u8]) -> (r: Result<Vec<u8>, chacha20poly1305::Error>)
    requires
        plaintext@.len() < 0xFFFF_FFFF * 64,
    ensures
        r is Ok,
        r matches Ok(v) ==> v@ == xchacha20poly1305_seal(key@, nonce@, plaintext@),
        r matches Ok(v) ==> v@.len() == plaintext@.len() + 16,
        r matches Ok(v) ==> xchacha20poly1305_open(key@, nonce@, v@) == Some(plaintext@),
{
    let cipher = chacha20poly1305::XChaCha20Poly1305::new(key.into());
    cipher.encrypt(chacha20poly1305::XNonce::from_slice(nonce), plaintext)
}

// ------------------------------------------------------------------
// the world access bundle
// ------------------------------------------------------------------
/// Argon2id memory cost of the bundle key, in KiB.
pub const BUNDLE_KDF_M_COST: u32 = 19456;
pub const BUNDLE_KDF_T_COST: u32 = 2;
pub const BUNDLE_KDF_P_COST: u32 = 1;

/// A stored access bundle: the key derivation, and the salt, nonce and ciphertext in
/// standard base64.
pub struct WorldAccessBundle {
    pub version: u32,
    pub kdf: String,
    pub salt_b64: String,
    pub nonce_b64: String,
    pub ciphertext_b64: String,
}

/// The decrypted payload of an access bundle.
pub struct WorldAccessBundlePlain {
    pub version: u32,
    pub world_master_key_b64: String,
    pub world_signing_private_key_b64: Option<String>,
    pub world_encryption_private_key_b64: Option<String>,
}

/// The keys an unlocked world runs with.
pub struct WorldRuntimeSecrets {
    pub world_master_key: [u8; 32],
    pub world_signing_private_key: [u8; 32],
    pub world_encryption_private_key: [u8; 32],
}

#[derive(Debug)]
pub enum BundleError {
    PassphraseTooShort,
    UnsupportedVersionOrKdf,
    InvalidSalt(base64::DecodeError),
    InvalidNonce(base64::DecodeError),
    InvalidNonceLength,
    InvalidCiphertext(base64::DecodeError),
    KeyDerivation(argon2::Error),
    WrongPassphrase,
    UnsupportedPayloadVersion,
    InvalidMasterKey(base64::DecodeError),
    MasterKeyLength,
    InvalidSigningKey(base64::DecodeError),
    SigningKeyLength,
    InvalidEncryptionKey(base64::DecodeError),
    EncryptionKeyLength,
}

/// The bundle key of a passphrase and salt.
pub open spec fn bundle_key(passphrase: Seq<char>, salt: Seq<u8>) -> Seq<u8> {
    argon2id_v13(BUNDLE_KDF_M_COST, BUNDLE_KDF_T_COST, BUNDLE_KDF_P_COST, utf8(passphrase), salt)
}

/// The plaintext an access bundle opens to with `passphrase`, when every step succeeds:
/// version 1 with `argon2id`, salt, nonce (24 bytes) and ciphertext valid base64, the
/// key derivation accepted, and the ciphertext authentic.
pub open spec fn bundle_plaintext(passphrase: Seq<char>, b: WorldAccessBundle) -> Option<Seq<u8>> {
    let salt = base64_standard_decode(utf8(b.salt_b64@));
    let nonce = base64_standard_decode(utf8(b.nonce_b64@));
    let ct = base64_standard_decode(utf8(b.ciphertext_b64@));
    if b.version == 1 && b.kdf@ == "argon2id"@ && salt is Some && nonce is Some && nonce->Some_0.len() == 24
        && ct is Some && argon2_accepts(BUNDLE_KDF_M_COST, BUNDLE_KDF_T_COST, BUNDLE_KDF_P_COST, utf8(passphrase), salt->Some_0) {
        xchacha20poly1305_open(bundle_key(passphrase, salt->Some_0), nonce->Some_0, ct->Some_0)
    } else {
        None
    }
}

fn bytes_to_24(v: &Vec<u8>) -> (r: [u8; 24])
    requires
        v@.len() == 24,
    ensures
        r@ == v@,
{
    let mut out = [0u8; 24];
    let mut i: usize = 0;
    while i < 24
        invariant
            0 <= i <= 24,
            v@.len() == 24,
            forall|j: int| 0 <= j < i ==> out@[j] == v@[j],
        decreases 24 - i,
    {
        out[i] = v[i];
        i = i + 1;
    }
    assert(out@ =~= v@);
    out
}

fn bytes_to_32(v: &Vec<u8>) -> (r: [u8; 32])
    requires
        v@.len() == 32,
    ensures
        r@ == v@,
{
    let mut out = [0u8; 32];
    let mut i: usize = 0;
    while i < 32
        invariant
            0 <= i <= 32,
            v@.len() == 32,
            forall|j: int| 0 <= j < i ==> out@[j] == v@[j],
        decreases 32 - i,
    {
        out[i] = v[i];
        i = i + 1;
    }
    assert(out@ =~= v@);
    out
}

/// Opens an access bundle with `passphrase`: checks its version and key derivation,
/// decodes its fields, derives the bundle key and decrypts. The payload is returned as
/// bytes, for the caller to read as JSON.
pub fn open_world_access_bundle(passphrase: &str, bundle: &WorldAccessBundle) -> (r: Result<Vec<u8>, BundleError>)
    ensures
        r is Ok <==> bundle_plaintext(passphrase@, *bundle) is Some,
        r matches Ok(v) ==> v@ == bundle_plaintext(passphrase@, *bundle)->Some_0,
        r matches Err(BundleError::UnsupportedVersionOrKdf) <==> !(bundle.version == 1 && bundle.kdf@ == "argon2id"@),
        r matches Err(BundleError::WrongPassphrase) ==> {
            let salt = base64_standard_decode(utf8(bundle.salt_b64@))->Some_0;
            &&& xchacha20poly1305_open(
                bundle_key(passphrase@, salt),
                base64_standard_decode(utf8(bundle.nonce_b64@))->Some_0,
                base64_standard_decode(utf8(bundle.ciphertext_b64@))->Some_0,
            ) is None
        },
{
    proof {
        reveal_strlit("argon2id");
    }
    if !(bundle.version == 1 && crate::text::str_eq(bundle.kdf.as_str(), "argon2id")) {
        return Err(BundleError::UnsupportedVersionOrKdf);
    }
    let salt = match b64_decode(bundle.salt_b64.as_str().as_bytes()) {
        Ok(v) => v,
        Err(e) => {
            return Err(BundleError::InvalidSalt(e));
        },
    };
    let nonce_raw = match b64_decode(bundle.nonce_b64.as_str().as_bytes()) {
        Ok(v) => v,
        Err(e) => {
            return Err(BundleError::InvalidNonce(e));
        },
    };
    if nonce_raw.len() != 24 {
        return Err(BundleError::InvalidNonceLength);
    }
    let nonce = bytes_to_24(&nonce_raw);
    let ciphertext = match b64_decode(bundle.ciphertext_b64.as_str().as_bytes()) {
        Ok(v) => v,
        Err(e) => {
            return Err(BundleError::InvalidCiphertext(e));
        },
    };
    let key = match argon2id_hash(BUNDLE_KDF_M_COST, BUNDLE_KDF_T_COST, BUNDLE_KDF_P_COST, passphrase.as_bytes(), salt.as_slice()) {
        Ok(k) => k,
        Err(e) => {
            return Err(BundleError::KeyDerivation(e));
        },
    };
    match xchacha_decrypt(&key, &nonce, ciphertext.as_slice()) {
        Ok(pt) => Ok(pt),
        Err(_) => Err(BundleError::WrongPassphrase),
    }
}


/// A 32-byte key carried as standard base64, when it is valid and 32 bytes long.
pub open spec fn key32_of_b64(text: Seq<char>) -> Option<Seq<u8>> {
    let d = base64_standard_decode(utf8(text));
    if d is Some && d->Some_0.len() == 32 {
        d
    } else {
        None
    }
}

/// The secrets a decrypted payload gives: version 1 or 2, the master key, and the
/// signing and encryption keys as carried or, when absent, derived from the master key.
pub open spec fn payload_secrets(p: WorldAccessBundlePlain) -> Option<(Seq<u8>, Seq<u8>, Seq<u8>)> {
    let master = key32_of_b64(p.world_master_key_b64@);
    if (p.version == 1 || p.version == 2) && master is Some {
        let m = master->Some_0;
        let signing = match p.world_signing_private_key_b64 {
            Some(t) => key32_of_b64(t@),
            None => Some(sha256(signing_key_domain() + m)),
        };
        let encryption = match p.world_encryption_private_key_b64 {
            Some(t) => key32_of_b64(t@),
            None => Some(sha256(encryption_key_domain() + m)),
        };
        if signing is Some && encryption is Some {
            Some((m, signing->Some_0, encryption->Some_0))
        } else {
            None
        }
    } else {
        None
    }
}

fn decode_key32(text: &String) -> (r: Result<[u8; 32], Option<base64::DecodeError>>)
    ensures
        r is Ok <==> key32_of_b64(text@) is Some,
        r matches Ok(k) ==> k@ == key32_of_b64(text@)->Some_0,
        r matches Err(e) ==> (e is None <==> base64_standard_decode(utf8(text@)) is Some),
{
    match b64_decode(text.as_str().as_bytes()) {
        Err(e) => Err(Some(e)),
        Ok(v) => {
            if v.len() != 32 {
                Err(None)
            } else {
                Ok(bytes_to_32(&v))
            }
        },
    }
}

/// Reads the secrets of a decrypted access bundle payload.
pub fn unpack_world_access_payload(plain: &WorldAccessBundlePlain) -> (r: Result<WorldRuntimeSecrets, BundleError>)
    ensures
        r is Ok <==> payload_secrets(*plain) is Some,
        r matches Ok(s) ==> payload_secrets(*plain) == Some((
            s.world_master_key@,
            s.world_signing_private_key@,
            s.world_encryption_private_key@,
        )),
        r matches Err(BundleError::UnsupportedPayloadVersion) <==> !(plain.version == 1 || plain.version == 2),
{
    if plain.version != 1 && plain.version != 2 {
        return Err(BundleError::UnsupportedPayloadVersion);
    }
    let master = match decode_key32(&plain.world_master_key_b64) {
        Ok(k) => k,
        Err(Some(e)) => {
            return Err(BundleError::InvalidMasterKey(e));
        },
        Err(None) => {
            return Err(BundleError::MasterKeyLength);
        },
    };
    let signing = match &plain.world_signing_private_key_b64 {
        Some(t) => match decode_key32(t) {
            Ok(k) => k,
            Err(Some(e)) => {
                return Err(BundleError::InvalidSigningKey(e));
            },
            Err(None) => {
                return Err(BundleError::SigningKeyLength);
            },
        },
        None => derive_world_signing_private_key(&master),
    };
    let encryption = match &plain.world_encryption_private_key_b64 {
        Some(t) => match decode_key32(t) {
            Ok(k) => k,
            Err(Some(e)) => {
                return Err(BundleError::InvalidEncryptionKey(e));
            },
            Err(None) => {
                return Err(BundleError::EncryptionKeyLength);
            },
        },
        None => derive_world_encryption_private_key(&master),
    };
    Ok(WorldRuntimeSecrets {
        world_master_key: master,
        world_signing_private_key: signing,
        world_encryption_private_key: encryption,
    })
}

/// The payload an access bundle carries for `world_master_key`: version 2 with the
/// master key in standard base64 (the other keys are derived when unlocking).
pub fn access_bundle_payload(world_master_key: &[u8; 32]) -> (r: WorldAccessBundlePlain)
    ensures
        r.version == 2,
        r.world_master_key_b64@ == base64_standard(world_master_key@),
        key32_of_b64(r.world_master_key_b64@) == Some(world_master_key@),
        r.world_signing_private_key_b64 is None,
        r.world_encryption_private_key_b64 is None,
        payload_secrets(r) == Some((
            world_master_key@,
            sha256(signing_key_domain() + world_master_key@),
            sha256(encryption_key_domain() + world_master_key@),
        )),
{
    WorldAccessBundlePlain {
        version: 2,
        world_master_key_b64: b64_encode(world_master_key.as_slice()),
        world_signing_private_key_b64: None,
        world_encryption_private_key_b64: None,
    }
}

/// Seals `payload` (the JSON of an access bundle payload) under `passphrase`, trimmed
/// and of at least 8 bytes, with the given random salt and nonce. The bundle opens with
/// the trimmed passphrase to the payload.
pub fn seal_world_access_bundle(passphrase: &str, payload: &[u8], salt: &[u8; 16], nonce: &[u8; 24]) -> (r: Result<WorldAccessBundle, BundleError>)
    requires
        payload@.len() < 0xFFFF_FFFF * 64,
        payload@.len() <= usize::MAX / 2 - 16,
    ensures
        (r matches Err(BundleError::PassphraseTooShort)) <==> utf8(crate::text::trim(passphrase@)).len() < 8,
        r is Ok <==> utf8(crate::text::trim(passphrase@)).len() >= 8 && utf8(crate::text::trim(passphrase@)).len() <= 0xFFFF_FFFF,
        r matches Ok(b) ==> {
            &&& b.version == 1
            &&& b.kdf@ == "argon2id"@
            &&& b.salt_b64@ == base64_standard(salt@)
            &&& b.nonce_b64@ == base64_standard(nonce@)
            &&& b.ciphertext_b64@ == base64_standard(xchacha20poly1305_seal(
                bundle_key(crate::text::trim(passphrase@), salt@),
                nonce@,
                payload@,
            ))
            &&& bundle_plaintext(crate::text::trim(passphrase@), b) == Some(payload@)
        },
{
    let c = crate::text::chars_of(passphrase);
    let t = crate::text::trim_white(&c);
    let ts = crate::text::string_of(&t);
    let pw = ts.as_str().as_bytes();
    if pw.len() < 8 {
        return Err(BundleError::PassphraseTooShort);
    }
    let key = match argon2id_hash(BUNDLE_KDF_M_COST, BUNDLE_KDF_T_COST, BUNDLE_KDF_P_COST, pw, salt.as_slice()) {
        Ok(k) => k,
        Err(e) => {
            return Err(BundleError::KeyDerivation(e));
        },
    };
    let ct = match xchacha_encrypt(&key, nonce, payload) {
        Ok(v) => v,
        Err(_) => {
            return Err(BundleError::WrongPassphrase);
        },
    };
    proof {
        reveal_strlit("argon2id");
    }
    let b = WorldAccessBundle {
        version: 1,
        kdf: String::from_str("argon2id"),
        salt_b64: b64_encode(salt.as_slice()),
        nonce_b64: b64_encode(nonce.as_slice()),
        ciphertext_b64: b64_encode(ct.as_slice()),
    };
    Ok(b)
}

} // verus!
