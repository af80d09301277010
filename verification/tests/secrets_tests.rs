use ma_world::acl::EntryAcl;
use ma_world::keys::{derive_world_encryption_private_key, derive_world_signing_private_key, WorldRuntimeSecrets};
use ma_world::schema::{validate_world_authoring, ActorSummary, AuthoringPaths};
use ma_world::world::World;
use ma_world::world_secrets::unlock_request_error;

fn world() -> World {
    World::new(
        EntryAcl {
            allow_all: false,
            allow_owner: true,
            allowed_dids: vec!["did:ma:k51x".to_string()],
            source: "config".to_string(),
        },
        "http://127.0.0.1:5001".to_string(),
        "pin".to_string(),
    )
}

fn secrets_for(master: [u8; 32]) -> WorldRuntimeSecrets {
    WorldRuntimeSecrets {
        world_master_key: master,
        world_signing_private_key: derive_world_signing_private_key(&master),
        world_encryption_private_key: derive_world_encryption_private_key(&master),
    }
}

#[test]
fn settings_are_read_back() {
    let w = world();
    assert_eq!(w.kubo_url(), "http://127.0.0.1:5001");
    assert_eq!(w.world_root_pin_name(), "pin");
    assert_eq!(w.owner_did(), None);
    assert_eq!(w.world_cid(), None);
    assert_eq!(w.state_cid(), None);
    assert_eq!(w.lang_cid(), None);
    assert_eq!(w.entry_acl_source(), "config");
    assert_eq!(w.entry_acl_debug(), (false, true, 1, None, "config".to_string()));
}

#[test]
fn unlock_requests_need_passphrase_and_bundle() {
    assert_eq!(unlock_request_error("  ", "{}"), Some("missing passphrase".to_string()));
    assert_eq!(unlock_request_error("pw", " \n"), Some("missing bundle".to_string()));
    assert_eq!(unlock_request_error("pw", "{}"), None);
}

#[test]
fn master_key_derives_runtime_keys() {
    let mut w = world();
    let master = [3u8; 32];
    assert_eq!(w.runtime_secrets(Err("no key".to_string())).err(), Some("no key".to_string()));
    let from_file = w.runtime_secrets(Ok(master)).ok().unwrap();
    assert_eq!(from_file.world_signing_private_key, derive_world_signing_private_key(&master));
    w.set_world_master_key(master);
    let held = w.runtime_secrets(Err("unused".to_string())).ok().unwrap();
    assert_eq!(held.world_master_key, master);
    assert_eq!(held.world_encryption_private_key, derive_world_encryption_private_key(&master));
}

#[test]
fn bundle_master_key_checks_passphrase_first() {
    let mut w = world();
    assert_eq!(
        w.bundle_master_key(" short  ", Ok([1u8; 32])),
        Err("passphrase must be at least 8 characters".to_string())
    );
    assert_eq!(w.bundle_master_key("long enough", Ok([1u8; 32])), Ok([1u8; 32]));
    assert_eq!(w.bundle_master_key("long enough", Err("unset".to_string())), Err("unset".to_string()));
    w.set_world_master_key([2u8; 32]);
    assert_eq!(w.bundle_master_key("long enough", Ok([1u8; 32])), Ok([2u8; 32]));
}

#[test]
fn secrets_must_match_the_world() {
    let mut w = world();
    assert_eq!(
        w.accept_runtime_secrets(secrets_for([1u8; 32]), Some([2u8; 32])),
        Err("bundle does not match this world".to_string())
    );
    assert!(w.unlocked_secrets.is_none());
    assert_eq!(w.accept_runtime_secrets(secrets_for([1u8; 32]), None), Ok(()));
    assert_eq!(
        w.accept_runtime_secrets(secrets_for([4u8; 32]), None),
        Err("bundle does not match this world".to_string())
    );
    assert_eq!(w.accept_runtime_secrets(secrets_for([4u8; 32]), Some([4u8; 32])), Ok(()));
    assert!(!w.is_unlocked());
    w.mark_unlocked();
    assert!(w.is_unlocked());
}

#[test]
fn validate_world_authoring_reports() {
    let paths = AuthoringPaths {
        world_dir: "/w".to_string(),
        config_path: "/w/config.yaml".to_string(),
        authoring_dir: "/w/authoring".to_string(),
        actors_dir: "/w/authoring/actors".to_string(),
    };
    assert_eq!(
        validate_world_authoring(&paths, "did:ma:k#ma", "ma", &None, &Vec::new()).err(),
        Some("no actor YAML files found in /w/authoring/actors".to_string())
    );
    let actors = vec![ActorSummary { id: "did:ma:k#ma-lobby".to_string(), actor_type: "room".to_string() }];
    let report = validate_world_authoring(&paths, "did:ma:k#ma", "ma", &None, &actors).ok().unwrap();
    assert_eq!(report.world_dir, "/w");
    assert_eq!(report.config_path, "/w/config.yaml");
    assert_eq!(report.authoring_dir, "/w/authoring");
    assert_eq!(report.actor_count, 1);
    assert_eq!(
        validate_world_authoring(&paths, "did:ma:k", "ma", &None, &actors).err(),
        Some("world_id must include #fragment: did:ma:k".to_string())
    );
}
