use ma_world::keys::{
    access_bundle_payload, derive_world_encryption_private_key, derive_world_master_key,
    derive_world_signing_private_key, open_world_access_bundle, seal_world_access_bundle,
    unpack_world_access_payload, BundleError, WorldAccessBundle,
};
use sha2::{Digest, Sha256};

#[test]
fn derived_keys_match_domain_separated_sha256() {
    let master = [7u8; 32];
    let mut h = Sha256::new();
    h.update(b"ma-world/did-doc-signing-key/v1");
    h.update(master);
    let expected: [u8; 32] = h.finalize().into();
    assert_eq!(derive_world_signing_private_key(&master), expected);
    assert_ne!(derive_world_signing_private_key(&master), derive_world_encryption_private_key(&master));
    let secret = [1u8; 32];
    let mut h = Sha256::new();
    h.update(b"ma-world/master-key/v1");
    h.update(b"panteia");
    h.update(secret);
    let expected: [u8; 32] = h.finalize().into();
    assert_eq!(derive_world_master_key(&secret, "panteia"), expected);
}

#[test]
fn sealed_bundle_opens_with_its_passphrase() {
    let master = [9u8; 32];
    let payload = br#"{"version":2,"world_master_key_b64":"x"}"#;
    let bundle = seal_world_access_bundle("  correct horse  ", payload, &[3u8; 16], &[4u8; 24]).ok().unwrap();
    assert_eq!(bundle.version, 1);
    assert_eq!(bundle.kdf, "argon2id");
    assert_eq!(open_world_access_bundle("correct horse", &bundle).ok().unwrap(), payload.to_vec());
    assert!(matches!(open_world_access_bundle("wrong horse!", &bundle), Err(BundleError::WrongPassphrase)));
    let _ = master;
}

#[test]
fn short_passphrase_is_refused() {
    assert!(matches!(seal_world_access_bundle("  short ", b"{}", &[0u8; 16], &[0u8; 24]), Err(BundleError::PassphraseTooShort)));
}

#[test]
fn bundle_field_errors() {
    let bad_kdf = WorldAccessBundle {
        version: 1,
        kdf: "scrypt".to_string(),
        salt_b64: String::new(),
        nonce_b64: String::new(),
        ciphertext_b64: String::new(),
    };
    assert!(matches!(open_world_access_bundle("passphrase", &bad_kdf), Err(BundleError::UnsupportedVersionOrKdf)));
    let bad_salt = WorldAccessBundle { kdf: "argon2id".to_string(), salt_b64: "!!".to_string(), ..bad_kdf };
    assert!(matches!(open_world_access_bundle("passphrase", &bad_salt), Err(BundleError::InvalidSalt(_))));
    let short_nonce = WorldAccessBundle { salt_b64: "AAAAAAAAAAAAAAAAAAAAAA==".to_string(), nonce_b64: "AAAA".to_string(), ..bad_salt };
    assert!(matches!(open_world_access_bundle("passphrase", &short_nonce), Err(BundleError::InvalidNonceLength)));
}

#[test]
fn payload_carries_master_and_derives_the_rest() {
    let master = [5u8; 32];
    let plain = access_bundle_payload(&master);
    assert_eq!(plain.version, 2);
    let secrets = unpack_world_access_payload(&plain).ok().unwrap();
    assert_eq!(secrets.world_master_key, master);
    assert_eq!(secrets.world_signing_private_key, derive_world_signing_private_key(&master));
    assert_eq!(secrets.world_encryption_private_key, derive_world_encryption_private_key(&master));
    let mut bad = access_bundle_payload(&master);
    bad.version = 3;
    assert!(matches!(unpack_world_access_payload(&bad), Err(BundleError::UnsupportedPayloadVersion)));
    let mut short = access_bundle_payload(&master);
    short.world_master_key_b64 = "AAAA".to_string();
    assert!(matches!(unpack_world_access_payload(&short), Err(BundleError::MasterKeyLength)));
}
