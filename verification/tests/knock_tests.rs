use ma_world::knock::{knock_notice_body, parse_knock_id_arg, KnockError, KnockInbox, KnockStatus};

#[test]
fn repeated_pending_knock_returns_same_id() {
    let mut inbox = KnockInbox::new();
    let (id, existing) = inbox.enqueue("lobby", "did:ma:k#a", "ep", None, "t", 1000);
    assert_eq!((id, existing), (1, false));
    let (id2, existing2) = inbox.enqueue("lobby", "did:ma:k#a", "ep", None, "t", 1001);
    assert_eq!((id2, existing2), (1, true));
    let (id3, existing3) = inbox.enqueue("hall", "did:ma:k#a", "ep", None, "t", 1001);
    assert_eq!((id3, existing3), (2, false));
}

#[test]
fn decisions_and_errors() {
    let mut inbox = KnockInbox::new();
    let (id, _) = inbox.enqueue("lobby", "did:ma:k#a", "ep", Some("a".to_string()), "t0", 1000);
    let accepted = inbox.decide(id, true, None, "t1", 1010).ok().unwrap();
    assert!(accepted.status == KnockStatus::Accepted);
    assert_eq!(accepted.decided_at, Some("t1".to_string()));
    assert!(matches!(inbox.decide(id, false, None, "t2", 1011), Err(KnockError::NotPending(_))));
    assert!(matches!(inbox.decide(99, true, None, "t2", 1011), Err(KnockError::NotFound(99))));
    let (id2, _) = inbox.enqueue("lobby", "did:ma:k#b", "ep", None, "t", 1012);
    let rejected = inbox.decide(id2, false, Some("no".to_string()), "t3", 1013).ok().unwrap();
    assert!(rejected.status == KnockStatus::Rejected);
    assert_eq!(rejected.decision_note, Some("no".to_string()));
    assert_eq!(inbox.list(true, 1014).len(), 0);
    assert_eq!(inbox.list(false, 1014).len(), 2);
    assert!(inbox.delete(id, 1015).is_ok());
    assert!(matches!(inbox.delete(id, 1015), Err(KnockError::NotFound(_))));
    assert_eq!(inbox.flush(), 1);
}

#[test]
fn pruning_by_age() {
    let mut inbox = KnockInbox::new();
    let (a, _) = inbox.enqueue("lobby", "did:ma:k#a", "ep", None, "t", 0);
    let (_b, _) = inbox.enqueue("lobby", "did:ma:k#b", "ep", None, "t", 0);
    let _ = inbox.decide(a, true, None, "t", 10);
    // the decided knock goes an hour after its decision
    assert_eq!(inbox.prune(10 + 3601), 1);
    // the pending one a day after it was made
    assert_eq!(inbox.prune(86400), 0);
    assert_eq!(inbox.prune(86401), 1);
}

#[test]
fn inbox_is_bounded() {
    let mut inbox = KnockInbox::new();
    for i in 0..600u32 {
        let did = format!("did:ma:k#{i}");
        inbox.enqueue("lobby", &did, "ep", None, "t", 5);
    }
    assert_eq!(inbox.items.len(), 512);
    assert_eq!(inbox.items[0].id, 89);
    assert_eq!(inbox.items[511].id, 600);
}

#[test]
fn knock_ids_parse_as_u64() {
    assert_eq!(parse_knock_id_arg("42"), Ok(42));
    assert_eq!(parse_knock_id_arg("+7"), Ok(7));
    assert_eq!(parse_knock_id_arg("18446744073709551615"), Ok(u64::MAX));
    assert_eq!(parse_knock_id_arg("18446744073709551616"), Err("invalid knock id '18446744073709551616'".to_string()));
    assert_eq!(parse_knock_id_arg("-1"), Err("invalid knock id '-1'".to_string()));
    assert_eq!(parse_knock_id_arg(""), Err("invalid knock id ''".to_string()));
    assert_eq!(parse_knock_id_arg(" 1"), Err("invalid knock id ' 1'".to_string()));
}

#[test]
fn knock_notice_text() {
    assert_eq!(knock_notice_body("did:ma:k#a", "lobby"), "knock from did:ma:k#a for room lobby");
}
