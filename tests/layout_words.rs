use ticket_registry::layout::{field_key, get_ticket_key};
use ticket_registry::registry::{Router, RouterAPI};
use ticket_registry::store::{MemoryStore, Storage};
use ticket_registry::word::Word;

const MAX: Word = Word { l0: u64::MAX, l1: u64::MAX, l2: u64::MAX, l3: u64::MAX };

#[test]
fn ticket_key_of_small_ids() {
    assert_eq!(get_ticket_key(Word::from_u64(0)), Word::from_u64(1000));
    assert_eq!(get_ticket_key(Word::from_u64(42)), Word::from_u64(1420));
}

#[test]
fn ticket_key_carries_across_limbs() {
    let t = Word { l0: 0, l1: 1, l2: 0, l3: 0 };
    assert_eq!(get_ticket_key(t), Word { l0: 1000, l1: 10, l2: 0, l3: 0 });
}

#[test]
fn ticket_key_wraps_to_zero() {
    let t = Word { l0: u64::MAX - 99, l1: u64::MAX, l2: u64::MAX, l3: u64::MAX };
    assert_eq!(get_ticket_key(t), Word::from_u64(0));
}

#[test]
fn field_key_wraps() {
    assert_eq!(field_key(MAX, 1), Word::from_u64(0));
    assert_eq!(field_key(MAX, 3), Word::from_u64(2));
    assert_eq!(field_key(Word::from_u64(1420), 2), Word::from_u64(1422));
}

#[test]
fn wrapping_add_and_mul() {
    assert_eq!(MAX.wrapping_add(Word::from_u64(1)), Word::zero());
    let a = Word { l0: u64::MAX, l1: 0, l2: 0, l3: 0 };
    assert_eq!(a.wrapping_add(Word::from_u64(1)), Word { l0: 0, l1: 1, l2: 0, l3: 0 });
    let hi = Word { l0: 0, l1: 0, l2: 0, l3: 1 };
    assert_eq!(hi.wrapping_mul(Word { l0: 0, l1: 1, l2: 0, l3: 0 }), Word::zero());
    assert_eq!(MAX.wrapping_mul(MAX), Word::from_u64(1));
    assert_eq!(Word::from_u64(6).wrapping_mul(Word::from_u64(7)), Word::from_u64(42));
}

#[test]
fn is_zero_looks_at_every_limb() {
    assert!(Word::zero().is_zero());
    assert!(!Word { l0: 0, l1: 0, l2: 0, l3: 1 }.is_zero());
    assert!(!Word::from_u64(1).is_zero());
}

#[test]
fn wrapped_record_overlaps_counter() {
    let mut router = Router::new(MemoryStore::new());
    router.deploy();
    let t = Word { l0: u64::MAX - 99, l1: u64::MAX, l2: u64::MAX, l3: u64::MAX };
    assert!(router.create_ticket(Word::from_u64(500), t));
    // The record starts at key 0, so its event id lands on the counter,
    // which is then bumped by one.
    assert_eq!(router.sdk.storage(&Word::from_u64(0)), Word::from_u64(1));
    assert_eq!(router.get_total_tickets(), Word::from_u64(501));
}

#[test]
fn overlapping_records_interfere() {
    let mut router = Router::new(MemoryStore::new());
    router.deploy();
    let t = Word {
        l0: 0xcccc_cccc_cccc_cccd,
        l1: 0xcccc_cccc_cccc_cccc,
        l2: 0xcccc_cccc_cccc_cccc,
        l3: 0x4ccc_cccc_cccc_cccc,
    };
    assert_eq!(get_ticket_key(t), Word::from_u64(1002));
    assert!(router.create_ticket(Word::from_u64(1), Word::from_u64(0)));
    assert_eq!(router.get_ticket_status(Word::from_u64(0)), (false, true));
    assert!(router.create_ticket(Word::from_u64(2), t));
    assert_eq!(router.get_ticket_status(Word::from_u64(0)), (true, true));
}

#[test]
fn memory_store_reads_last_write() {
    let mut store = MemoryStore::new();
    assert_eq!(store.storage(&Word::from_u64(5)), Word::zero());
    store.write_storage(Word::from_u64(5), Word::from_u64(8));
    store.write_storage(Word::from_u64(6), Word::from_u64(9));
    store.write_storage(Word::from_u64(5), Word::from_u64(10));
    assert_eq!(store.storage(&Word::from_u64(5)), Word::from_u64(10));
    assert_eq!(store.storage(&Word::from_u64(6)), Word::from_u64(9));
    let far = Word { l0: 5, l1: 0, l2: 0, l3: 1 };
    assert_eq!(store.storage(&far), Word::zero());
}
