//! Where each logical field lives in the key/value store.
//!
//! The counter sits at key 1. Ticket `t` has its record at
//! `base(t) = 1000 + 10 * t` (mod 2^256); its existence flag, event id,
//! used flag and valid flag sit at offsets 0 to 3, and offsets 4 to 9 are
//! left free.

use vstd::arithmetic::div_mod::{
    lemma_add_mod_noop, lemma_fundamental_div_mod_converse, lemma_mod_bound, lemma_mod_mod,
};
use vstd::prelude::*;
use crate::word::{lemma_small_value, limb_base, word_modulus, Word};

verus! {

/// Key of the global ticket counter.
pub const TOTAL_KEY: u64 = 1;

/// Key at which the first record (ticket 0) starts.
pub const RECORD_BASE: u64 = 1000;

/// Distance between the records of consecutive ticket ids.
pub const RECORD_STRIDE: u64 = 10;

/// Offset of the existence flag within a record.
pub const EXISTS_OFFSET: u64 = 0;

/// Offset of the event id within a record.
pub const EVENT_OFFSET: u64 = 1;

/// Offset of the used flag within a record.
pub const USED_OFFSET: u64 = 2;

/// Offset of the valid flag within a record.
pub const VALID_OFFSET: u64 = 3;

/// The first key of the record of ticket `t`.
pub open spec fn base_key(t: nat) -> nat {
    ((RECORD_BASE as nat) + (RECORD_STRIDE as nat) * t) % word_modulus()
}

/// The key of the field at `offset` in the record of ticket `t`.
pub open spec fn slot_key(t: nat, offset: nat) -> nat {
    (base_key(t) + offset) % word_modulus()
}

/// The four keys of the record of ticket `t`.
pub open spec fn record_keys(t: nat) -> Set<nat> {
    set![
        base_key(t),
        slot_key(t, EVENT_OFFSET as nat),
        slot_key(t, USED_OFFSET as nat),
        slot_key(t, VALID_OFFSET as nat),
    ]
}

/// The keys that reading the status of ticket `t` looks at.
pub open spec fn status_keys(t: nat) -> Set<nat> {
    set![base_key(t), slot_key(t, USED_OFFSET as nat), slot_key(t, VALID_OFFSET as nat)]
}

/// Adding a small offset to a word wraps at most once.
proof fn lemma_shift_mod(x: int, d: int)
    requires
        0 <= x < word_modulus(),
        0 <= d < 4,
    ensures
        (x + d) % (word_modulus() as int) == if x + d < word_modulus() {
            x + d
        } else {
            x + d - word_modulus()
        },
{
    let m = word_modulus() as int;
    if x + d < m {
        lemma_fundamental_div_mod_converse(x + d, m, 0, x + d);
    } else {
        lemma_fundamental_div_mod_converse(x + d, m, 1, x + d - m);
    }
}

/// Reducing modulo 2^256 keeps an even number even.
proof fn lemma_even_mod(x: int)
    requires
        x % 2 == 0,
    ensures
        (x % (word_modulus() as int)) % 2 == 0,
{
    let b = limb_base() as int;
    let h: int = 0x8000_0000_0000_0000;
    let half = b * b * b * h;
    assert(word_modulus() == 2 * half && half > 0) by (nonlinear_arith)
        requires b == 2 * h, h > 0, word_modulus() == b * b * b * b, half == b * b * b * h;
    lemma_mod_mod(x, 2, half);
}

/// How the keys of one record sit: the record starts at an even key, its
/// four keys are distinct, and neither its first key nor its used flag is
/// the counter's key.
pub proof fn lemma_record_shape(t: nat)
    ensures
        base_key(t) < word_modulus(),
        base_key(t) % 2 == 0,
        slot_key(t, EXISTS_OFFSET as nat) == base_key(t),
        slot_key(t, USED_OFFSET as nat) % 2 == 0,
        base_key(t) != TOTAL_KEY,
        slot_key(t, USED_OFFSET as nat) != TOTAL_KEY,
        base_key(t) != slot_key(t, EVENT_OFFSET as nat),
        base_key(t) != slot_key(t, USED_OFFSET as nat),
        base_key(t) != slot_key(t, VALID_OFFSET as nat),
        slot_key(t, EVENT_OFFSET as nat) != slot_key(t, USED_OFFSET as nat),
        slot_key(t, EVENT_OFFSET as nat) != slot_key(t, VALID_OFFSET as nat),
        slot_key(t, USED_OFFSET as nat) != slot_key(t, VALID_OFFSET as nat),
{
    let m = word_modulus() as int;
    let x = (RECORD_BASE as int) + (RECORD_STRIDE as int) * (t as int);
    lemma_fundamental_div_mod_converse(x, 2, 500 + 5 * (t as int), 0);
    lemma_even_mod(x);
    let b = base_key(t) as int;
    lemma_mod_bound(x, m);
    lemma_shift_mod(b, 0);
    lemma_shift_mod(b, 1);
    lemma_shift_mod(b, 2);
    lemma_shift_mod(b, 3);
    if b + 2 < m {
        lemma_fundamental_div_mod_converse(b + 2, 2, b / 2 + 1, 0);
    } else {
        assert(m % 2 == 0) by {
            let l = limb_base() as int;
            lemma_fundamental_div_mod_converse(m, 2, l * l * l * 0x8000_0000_0000_0000, 0);
        }
        lemma_fundamental_div_mod_converse(b + 2 - m, 2, b / 2 + 1 - m / 2, 0);
    }
}

/// The first key of the record of `ticket_id`.
pub fn get_ticket_key(ticket_id: Word) -> (r: Word)
    ensures
        r.value() == base_key(ticket_id.value()),
{
    let scaled = ticket_id.wrapping_mul(Word::from_u64(RECORD_STRIDE));
    let r = Word::from_u64(RECORD_BASE).wrapping_add(scaled);
    proof {
        let m = word_modulus() as int;
        let s = (RECORD_STRIDE as int) * (ticket_id.value() as int);
        assert((RECORD_STRIDE as nat) * ticket_id.value() == ticket_id.value() * (RECORD_STRIDE as nat));
        lemma_add_mod_noop(RECORD_BASE as int, s, m);
        lemma_small_value(RECORD_BASE as nat);
    }
    r
}

/// The key of the field at `offset` of the record that starts at `base`.
pub fn field_key(base: Word, offset: u64) -> (r: Word)
    ensures
        r.value() == (base.value() + offset as nat) % word_modulus(),
{
    base.wrapping_add(Word::from_u64(offset))
}

} // verus!
