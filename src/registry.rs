//! The ticket state machine: create, query, consume and count tickets.
//!
//! Each operation reads and writes through the store; the store's slots are
//! the whole state. The spec functions below give, for a state, the state
//! that each operation leaves and the answer it gives.

use vstd::prelude::*;
use crate::layout::{
    base_key, field_key, get_ticket_key, slot_key, EVENT_OFFSET, TOTAL_KEY, USED_OFFSET,
    VALID_OFFSET,
};
use crate::store::{read_slot, Storage};
use crate::word::{word_modulus, Word};

verus! {

/// The state after deployment: the counter is set to zero.
pub open spec fn deploy_spec(s: Map<nat, nat>) -> Map<nat, nat> {
    s.insert(TOTAL_KEY as nat, 0)
}

/// Whether the record of ticket `t` is marked as existing.
pub open spec fn ticket_exists(s: Map<nat, nat>, t: nat) -> bool {
    read_slot(s, base_key(t)) != 0
}

/// The ticket counter.
pub open spec fn total_spec(s: Map<nat, nat>) -> nat {
    read_slot(s, TOTAL_KEY as nat)
}

/// The state after writing a fresh record for ticket `t` of event `e`:
/// exists, event id, not used, valid.
pub open spec fn record_written(s: Map<nat, nat>, e: nat, t: nat) -> Map<nat, nat> {
    s.insert(base_key(t), 1)
        .insert(slot_key(t, EVENT_OFFSET as nat), e)
        .insert(slot_key(t, USED_OFFSET as nat), 0)
        .insert(slot_key(t, VALID_OFFSET as nat), 1)
}

/// Creating ticket `t` of event `e`: refused when the ticket exists;
/// otherwise its record is written, then the counter is read and bumped by
/// one (mod 2^256).
pub open spec fn create_spec(s: Map<nat, nat>, e: nat, t: nat) -> (Map<nat, nat>, bool) {
    if ticket_exists(s, t) {
        (s, false)
    } else {
        let w = record_written(s, e, t);
        (w.insert(TOTAL_KEY as nat, (total_spec(w) + 1) % word_modulus()), true)
    }
}

/// The `(used, valid)` flags of ticket `t`; `(false, false)` when it does
/// not exist.
pub open spec fn status_spec(s: Map<nat, nat>, t: nat) -> (bool, bool) {
    if !ticket_exists(s, t) {
        (false, false)
    } else {
        (
            read_slot(s, slot_key(t, USED_OFFSET as nat)) != 0,
            read_slot(s, slot_key(t, VALID_OFFSET as nat)) != 0,
        )
    }
}

/// Consuming ticket `t`: accepted only when it exists, is not used and is
/// valid, and then its used flag is set.
pub open spec fn use_spec(s: Map<nat, nat>, t: nat) -> (Map<nat, nat>, bool) {
    let (used, valid) = status_spec(s, t);
    if ticket_exists(s, t) && !used && valid {
        (s.insert(slot_key(t, USED_OFFSET as nat), 1), true)
    } else {
        (s, false)
    }
}

/// The four entry points of the registry.
pub trait RouterAPI {
    /// The slots of the store behind the registry.
    spec fn state(&self) -> Map<nat, nat>;

    /// Creates ticket `ticket_id` of event `event_id`; `false` when it
    /// already exists.
    fn create_ticket(&mut self, event_id: Word, ticket_id: Word) -> (r: bool)
        ensures
            (final(self).state(), r) == create_spec(
                old(self).state(),
                event_id.value(),
                ticket_id.value(),
            ),
    ;

    /// The `(used, valid)` flags of ticket `ticket_id`.
    fn get_ticket_status(&self, ticket_id: Word) -> (r: (bool, bool))
        ensures
            r == status_spec(self.state(), ticket_id.value()),
    ;

    /// Consumes ticket `ticket_id`; `false` when it does not exist, is
    /// already used or is not valid.
    fn use_ticket(&mut self, ticket_id: Word) -> (r: bool)
        ensures
            (final(self).state(), r) == use_spec(old(self).state(), ticket_id.value()),
    ;

    /// The number of tickets created.
    fn get_total_tickets(&self) -> (r: Word)
        ensures
            r.value() == total_spec(self.state()),
    ;
}

/// The registry over a store `sdk`.
pub struct Router<S: Storage> {
    pub sdk: S,
}

impl<S: Storage> Router<S> {
    /// A registry over `sdk`, which is left as it is.
    pub fn new(sdk: S) -> (r: Router<S>)
        ensures
            r.sdk == sdk,
    {
        Router { sdk }
    }

    /// Sets the counter to zero; meant to run once, when the registry is
    /// installed.
    pub fn deploy(&mut self)
        ensures
            final(self).state() == deploy_spec(old(self).state()),
    {
        self.sdk.write_storage(Word::from_u64(TOTAL_KEY), Word::zero());
    }
}

impl<S: Storage> RouterAPI for Router<S> {
    open spec fn state(&self) -> Map<nat, nat> {
        self.sdk.slots()
    }

    fn create_ticket(&mut self, event_id: Word, ticket_id: Word) -> (r: bool) {
        let base = get_ticket_key(ticket_id);
        if !self.sdk.storage(&base).is_zero() {
            return false;
        }
        self.sdk.write_storage(base, Word::from_u64(1));
        self.sdk.write_storage(field_key(base, EVENT_OFFSET), event_id);
        self.sdk.write_storage(field_key(base, USED_OFFSET), Word::zero());
        self.sdk.write_storage(field_key(base, VALID_OFFSET), Word::from_u64(1));
        let total_key = Word::from_u64(TOTAL_KEY);
        let current = self.sdk.storage(&total_key);
        self.sdk.write_storage(total_key, current.wrapping_add(Word::from_u64(1)));
        true
    }

    fn get_ticket_status(&self, ticket_id: Word) -> (r: (bool, bool)) {
        let base = get_ticket_key(ticket_id);
        if self.sdk.storage(&base).is_zero() {
            return (false, false);
        }
        let used = !self.sdk.storage(&field_key(base, USED_OFFSET)).is_zero();
        let valid = !self.sdk.storage(&field_key(base, VALID_OFFSET)).is_zero();
        (used, valid)
    }

    fn use_ticket(&mut self, ticket_id: Word) -> (r: bool) {
        let base = get_ticket_key(ticket_id);
        if self.sdk.storage(&base).is_zero() {
            return false;
        }
        let used_key = field_key(base, USED_OFFSET);
        let used = !self.sdk.storage(&used_key).is_zero();
        let valid = !self.sdk.storage(&field_key(base, VALID_OFFSET)).is_zero();
        if !used && valid {
            self.sdk.write_storage(used_key, Word::from_u64(1));
            true
        } else {
            false
        }
    }

    fn get_total_tickets(&self) -> (r: Word) {
        self.sdk.storage(&Word::from_u64(TOTAL_KEY))
    }
}

} // verus!
