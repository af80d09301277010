use ma_world::acl::EntryAcl;
use ma_world::world::World;

fn test_world() -> World {
    World::new(
        EntryAcl {
            allow_all: true,
            allow_owner: true,
            allowed_dids: Vec::new(),
            source: "test".to_string(),
        },
        "http://127.0.0.1:5001".to_string(),
        "test-world".to_string(),
    )
}

#[test]
fn fresh_world_has_no_publish_status() {
    let w = test_world();
    assert_eq!(w.last_publish_status(), (None, None, None));
    assert!(!w.is_ipns_dirty());
}

#[test]
fn publish_needs_secrets_and_cids() {
    let mut w = test_world();
    match w.publish_inputs(Err("world master key path is not configured".to_string())) {
        Err(e) => assert_eq!(e, "world master key path is not configured"),
        Ok(_) => panic!("published without secrets"),
    }
    match w.publish_inputs(Ok([7u8; 32])) {
        Err(e) => assert_eq!(e, "no state CID available for IPNS publish"),
        Ok(_) => panic!("published without state"),
    }
    w.record_saved_state("bafystate".to_string());
    assert!(w.is_ipns_dirty());
    w.set_world_master_key([9u8; 32]);
    match w.publish_inputs(Err("unused".to_string())) {
        Err(e) => assert_eq!(e, "no world root CID available for IPNS publish"),
        Ok(_) => panic!("published without root"),
    }
    w.world_cid = Some("bafyroot".to_string());
    let (secrets, state, root) = w.publish_inputs(Err("unused".to_string())).unwrap();
    assert_eq!(secrets.world_master_key, [9u8; 32]);
    assert_eq!(state, "bafystate");
    assert_eq!(root, "bafyroot");
}

#[test]
fn publish_outcome_is_recorded() {
    let mut w = test_world();
    w.record_saved_state("bafystate".to_string());
    assert_eq!(
        w.record_publish_outcome("bafyroot".to_string(), Err("timeout".to_string())),
        Err("IPNS publish failed: timeout".to_string())
    );
    assert_eq!(
        w.last_publish_status(),
        (Some(false), Some("bafyroot".to_string()), Some("timeout".to_string()))
    );
    assert!(w.is_ipns_dirty());
    assert_eq!(w.record_publish_outcome("bafyroot2".to_string(), Ok(())), Ok(()));
    assert_eq!(w.last_publish_status(), (Some(true), Some("bafyroot2".to_string()), None));
    assert!(!w.is_ipns_dirty());
}

#[test]
fn dirty_mark_follows_the_last_successful_save_or_publish() {
    let mut w = test_world();
    w.record_saved_state("s1".to_string());
    let _ = w.record_publish_outcome("r1".to_string(), Ok(()));
    assert!(!w.is_ipns_dirty());
    w.record_saved_state("s2".to_string());
    let _ = w.record_publish_outcome("r2".to_string(), Err("down".to_string()));
    assert!(w.is_ipns_dirty());
    let _ = w.record_publish_outcome("r2".to_string(), Ok(()));
    assert!(!w.is_ipns_dirty());
}
