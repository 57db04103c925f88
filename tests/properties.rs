use ticket_registry::registry::{Router, RouterAPI};
use ticket_registry::store::{MemoryStore, Storage};
use ticket_registry::word::Word;

fn w(v: u64) -> Word {
    Word::from_u64(v)
}

fn deployed() -> Router<MemoryStore> {
    let mut router = Router::new(MemoryStore::new());
    router.deploy();
    router
}

fn snapshot(router: &Router<MemoryStore>, keys: &[u64]) -> Vec<Word> {
    keys.iter().map(|k| router.sdk.storage(&w(*k))).collect()
}

#[test]
fn duplicate_create_changes_nothing() {
    let mut router = deployed();
    assert!(router.create_ticket(w(5), w(3)));
    let keys = [0, 1, 1030, 1031, 1032, 1033, 1034];
    let before = snapshot(&router, &keys);
    assert!(!router.create_ticket(w(5), w(3)));
    assert_eq!(snapshot(&router, &keys), before);
}

#[test]
fn counter_counts_distinct_successes() {
    let mut router = deployed();
    let ids = [4u64, 8, 4, 15, 16, 8, 23, 42, 42];
    let mut created = 0u64;
    for id in ids {
        if router.create_ticket(w(id * 2), w(id)) {
            created += 1;
        }
    }
    assert_eq!(created, 6);
    assert_eq!(router.get_total_tickets(), w(6));
}

#[test]
fn ticket_is_used_once() {
    let mut router = deployed();
    assert!(router.create_ticket(w(1), w(77)));
    assert!(router.use_ticket(w(77)));
    for _ in 0..3 {
        assert!(!router.use_ticket(w(77)));
        assert_eq!(router.get_ticket_status(w(77)), (true, true));
    }
}

#[test]
fn use_of_missing_ticket_writes_nothing() {
    let mut router = deployed();
    assert!(router.create_ticket(w(1), w(10)));
    let keys = [1, 1100, 1101, 1102, 1103, 1080, 1082];
    let before = snapshot(&router, &keys);
    assert!(!router.use_ticket(w(8)));
    assert_eq!(snapshot(&router, &keys), before);
}

#[test]
fn counter_never_moves_on_use_or_failure() {
    let mut router = deployed();
    assert!(router.create_ticket(w(1), w(1)));
    assert_eq!(router.get_total_tickets(), w(1));
    assert!(router.use_ticket(w(1)));
    assert_eq!(router.get_total_tickets(), w(1));
    assert!(!router.create_ticket(w(1), w(1)));
    assert_eq!(router.get_total_tickets(), w(1));
    assert!(router.create_ticket(w(1), w(2)));
    assert_eq!(router.get_total_tickets(), w(2));
}

#[test]
fn other_tickets_are_untouched() {
    let mut router = deployed();
    assert!(router.create_ticket(w(1), w(11)));
    assert!(router.create_ticket(w(1), w(12)));
    assert!(router.use_ticket(w(11)));
    assert_eq!(router.get_ticket_status(w(12)), (false, true));
    assert_eq!(router.get_ticket_status(w(13)), (false, false));
}

#[test]
fn status_of_missing_ticket_is_false_false() {
    let router = deployed();
    assert_eq!(router.get_ticket_status(w(0)), (false, false));
}

#[test]
fn ticket_zero_lives_at_key_thousand() {
    let mut router = deployed();
    assert!(router.create_ticket(w(9), w(0)));
    assert_eq!(router.sdk.storage(&w(1000)), w(1));
    assert_eq!(router.sdk.storage(&w(1001)), w(9));
    assert_eq!(router.sdk.storage(&w(1003)), w(1));
}

#[test]
fn large_event_id_is_stored_whole() {
    let mut router = deployed();
    let event = Word { l0: 1, l1: 2, l2: 3, l3: u64::MAX };
    assert!(router.create_ticket(event, w(5)));
    assert_eq!(router.sdk.storage(&w(1051)), event);
}
