//! Properties of the registry that hold across calls.

use vstd::arithmetic::div_mod::lemma_small_mod;
use vstd::prelude::*;
use crate::layout::{
    base_key, lemma_record_shape, record_keys, slot_key, status_keys, EVENT_OFFSET, TOTAL_KEY,
    USED_OFFSET, VALID_OFFSET,
};
use crate::registry::{create_spec, status_spec, ticket_exists, total_spec, use_spec};
use crate::store::read_slot;
use crate::word::word_modulus;

verus! {

/// Creating a ticket that does not exist succeeds, and creating it again at
/// once fails and changes nothing.
pub proof fn lemma_duplicate_create(s: Map<nat, nat>, e: nat, t: nat)
    requires
        !ticket_exists(s, t),
    ensures
        create_spec(s, e, t).1,
        create_spec(create_spec(s, e, t).0, e, t) == (create_spec(s, e, t).0, false),
{
    lemma_record_shape(t);
    let s1 = create_spec(s, e, t).0;
    assert(read_slot(s1, base_key(t)) == 1);
}

/// Right after a successful creation, a ticket reads as not used and valid.
pub proof fn lemma_status_after_create(s: Map<nat, nat>, e: nat, t: nat)
    requires
        !ticket_exists(s, t),
    ensures
        status_spec(create_spec(s, e, t).0, t) == (false, true),
{
    lemma_record_shape(t);
    lemma_small_mod(2, word_modulus());
    let s1 = create_spec(s, e, t).0;
    assert(read_slot(s1, base_key(t)) == 1);
    assert(read_slot(s1, slot_key(t, USED_OFFSET as nat)) == 0);
    assert(read_slot(s1, slot_key(t, VALID_OFFSET as nat)) != 0);
}

/// Right after a successful use, a ticket reads as used and valid.
pub proof fn lemma_status_after_use(s: Map<nat, nat>, t: nat)
    requires
        use_spec(s, t).1,
    ensures
        status_spec(use_spec(s, t).0, t) == (true, true),
{
    lemma_record_shape(t);
}

/// A used ticket cannot be used again, and trying changes nothing.
pub proof fn lemma_used_stays_used(s: Map<nat, nat>, t: nat)
    requires
        status_spec(s, t).0,
    ensures
        use_spec(s, t) == (s, false),
{
}

/// The first use of a freshly created ticket succeeds; every later use of it
/// fails and changes nothing.
pub proof fn lemma_use_once(s: Map<nat, nat>, e: nat, t: nat)
    requires
        !ticket_exists(s, t),
    ensures
        use_spec(create_spec(s, e, t).0, t).1,
        use_spec(use_spec(create_spec(s, e, t).0, t).0, t) == (
            use_spec(create_spec(s, e, t).0, t).0,
            false,
        ),
{
    lemma_status_after_create(s, e, t);
    let s1 = create_spec(s, e, t).0;
    lemma_record_shape(t);
    lemma_status_after_use(s1, t);
    lemma_used_stays_used(use_spec(s1, t).0, t);
}

/// Using a ticket that does not exist fails and changes nothing.
pub proof fn lemma_use_requires_existence(s: Map<nat, nat>, t: nat)
    requires
        !ticket_exists(s, t),
    ensures
        use_spec(s, t) == (s, false),
{
}

/// Creating a ticket raises the counter by one when it succeeds and leaves
/// it alone when it fails, as long as the ticket's record does not overlap
/// the counter and the counter does not wrap.
pub proof fn lemma_counter_after_create(s: Map<nat, nat>, e: nat, t: nat)
    requires
        !record_keys(t).contains(TOTAL_KEY as nat),
        total_spec(s) + 1 < word_modulus(),
    ensures
        total_spec(create_spec(s, e, t).0) == if create_spec(s, e, t).1 {
            total_spec(s) + 1
        } else {
            total_spec(s)
        },
        total_spec(s) <= total_spec(create_spec(s, e, t).0),
{
    lemma_small_mod(total_spec(s) + 1, word_modulus());
}

/// Using a ticket never moves the counter.
pub proof fn lemma_counter_after_use(s: Map<nat, nat>, t: nat)
    ensures
        total_spec(use_spec(s, t).0) == total_spec(s),
{
    lemma_record_shape(t);
}

/// Creating ticket `t1` leaves the status of ticket `t2` as it was, when
/// none of the keys that the creation writes is one that the status of `t2`
/// reads.
pub proof fn lemma_create_keeps_other_status(s: Map<nat, nat>, e: nat, t1: nat, t2: nat)
    requires
        record_keys(t1).insert(TOTAL_KEY as nat).disjoint(status_keys(t2)),
    ensures
        status_spec(create_spec(s, e, t1).0, t2) == status_spec(s, t2),
{
    assert(record_keys(t1).contains(base_key(t1)));
    assert(record_keys(t1).contains(slot_key(t1, EVENT_OFFSET as nat)));
    assert(record_keys(t1).contains(slot_key(t1, USED_OFFSET as nat)));
    assert(record_keys(t1).contains(slot_key(t1, VALID_OFFSET as nat)));
    assert(status_keys(t2).contains(base_key(t2)));
    assert(status_keys(t2).contains(slot_key(t2, USED_OFFSET as nat)));
    assert(status_keys(t2).contains(slot_key(t2, VALID_OFFSET as nat)));
}

/// Using ticket `t1` leaves the status of ticket `t2` as it was, when the
/// used flag of `t1` is not a key that the status of `t2` reads.
pub proof fn lemma_use_keeps_other_status(s: Map<nat, nat>, t1: nat, t2: nat)
    requires
        !status_keys(t2).contains(slot_key(t1, USED_OFFSET as nat)),
    ensures
        status_spec(use_spec(s, t1).0, t2) == status_spec(s, t2),
{
}

/// Runs `create_spec` on each `(event id, ticket id)` call in turn; gives
/// the state at the end and the set of ticket ids whose creation succeeded.
pub open spec fn run_creates(s: Map<nat, nat>, calls: Seq<(nat, nat)>) -> (Map<nat, nat>, Set<nat>)
    decreases calls.len(),
{
    if calls.len() == 0 {
        (s, Set::empty())
    } else {
        let (s1, created) = run_creates(s, calls.drop_last());
        let (s2, ok) = create_spec(s1, calls.last().0, calls.last().1);
        (s2, if ok { created.insert(calls.last().1) } else { created })
    }
}

/// The ticket ids that `calls` names.
pub open spec fn called_ids(calls: Seq<(nat, nat)>) -> Set<nat> {
    Set::new(|u: nat| exists|i: int| 0 <= i < calls.len() && #[trigger] calls[i].1 == u)
}

/// No two of the tickets in `ids` have records that partly overlap, and
/// none of their records holds the counter's key.
pub open spec fn records_apart(ids: Set<nat>) -> bool {
    &&& forall|u: nat, v: nat|
        #![trigger ids.contains(u), ids.contains(v)]
        ids.contains(u) && ids.contains(v) ==> base_key(u) == base_key(v) || record_keys(u).disjoint(
            record_keys(v),
        )
    &&& forall|u: nat| #[trigger] ids.contains(u) ==> !record_keys(u).contains(TOTAL_KEY as nat)
}

/// Some ticket in `created` shares its record with ticket `u`.
pub open spec fn record_taken(created: Set<nat>, u: nat) -> bool {
    exists|c: nat| #[trigger] created.contains(c) && base_key(c) == base_key(u)
}

proof fn lemma_run_creates(s: Map<nat, nat>, calls: Seq<(nat, nat)>, ids: Set<nat>)
    requires
        forall|i: int| 0 <= i < calls.len() ==> ids.contains(#[trigger] calls[i].1),
        forall|u: nat| #[trigger] ids.contains(u) ==> !ticket_exists(s, u),
        records_apart(ids),
        total_spec(s) == 0,
        calls.len() < word_modulus(),
    ensures
        run_creates(s, calls).1.finite(),
        run_creates(s, calls).1.len() <= calls.len(),
        total_spec(run_creates(s, calls).0) == run_creates(s, calls).1.len(),
        forall|u: nat| #[trigger] ids.contains(u) ==> (ticket_exists(run_creates(s, calls).0, u)
            <==> record_taken(run_creates(s, calls).1, u)),
    decreases calls.len(),
{
    if calls.len() > 0 {
        let p = calls.drop_last();
        assert forall|i: int| 0 <= i < p.len() implies ids.contains(#[trigger] p[i].1) by {
            assert(p[i] == calls[i]);
        }
        lemma_run_creates(s, p, ids);
        let (s1, c1) = run_creates(s, p);
        let (e, t) = calls.last();
        assert(ids.contains(calls[calls.len() - 1].1));
        if !ticket_exists(s1, t) {
            lemma_record_shape(t);
            let w = crate::registry::record_written(s1, e, t);
            let (s2, c2) = run_creates(s, calls);
            assert(!record_keys(t).contains(TOTAL_KEY as nat));
            assert(record_keys(t).contains(slot_key(t, EVENT_OFFSET as nat)));
            assert(record_keys(t).contains(slot_key(t, VALID_OFFSET as nat)));
            assert(total_spec(w) == total_spec(s1));
            lemma_small_mod(total_spec(s1) + 1, word_modulus());
            assert(!c1.contains(t));
            assert(c2 == c1.insert(t));
            assert forall|u: nat| #[trigger] ids.contains(u) implies (ticket_exists(s2, u)
                <==> record_taken(c2, u)) by {
                if base_key(u) == base_key(t) {
                    assert(c2.contains(t));
                    assert(read_slot(s2, base_key(t)) == 1);
                    assert(ticket_exists(s2, u));
                    assert(record_taken(c2, u));
                } else {
                    assert(record_keys(u).disjoint(record_keys(t)));
                    assert(record_keys(u).contains(base_key(u)));
                    assert(!record_keys(u).contains(TOTAL_KEY as nat));
                    assert(read_slot(s2, base_key(u)) == read_slot(s1, base_key(u)));
                    if record_taken(c2, u) {
                        let c = choose|c: nat| #[trigger] c2.contains(c) && base_key(c) == base_key(u);
                        assert(c1.contains(c));
                        assert(record_taken(c1, u));
                    }
                    if record_taken(c1, u) {
                        let c = choose|c: nat| #[trigger] c1.contains(c) && base_key(c) == base_key(u);
                        assert(c2.contains(c));
                    }
                    assert(ticket_exists(s1, u) <==> record_taken(c1, u));
                }
            }
        }
    }
}

/// Starting from a zero counter and tickets that do not exist yet, after
/// any sequence of creations the counter equals the number of distinct
/// ticket ids whose creation succeeded, as long as the records of those ids
/// either coincide or do not overlap and none of them holds the counter.
pub proof fn lemma_counter_counts_created(s: Map<nat, nat>, calls: Seq<(nat, nat)>)
    requires
        total_spec(s) == 0,
        forall|i: int| 0 <= i < calls.len() ==> !ticket_exists(s, #[trigger] calls[i].1),
        records_apart(called_ids(calls)),
        calls.len() < word_modulus(),
    ensures
        run_creates(s, calls).1.finite(),
        total_spec(run_creates(s, calls).0) == run_creates(s, calls).1.len(),
{
    let ids = called_ids(calls);
    assert forall|i: int| 0 <= i < calls.len() implies ids.contains(#[trigger] calls[i].1) by {}
    assert forall|u: nat| #[trigger] ids.contains(u) implies !ticket_exists(s, u) by {
        let i = choose|i: int| 0 <= i < calls.len() && #[trigger] calls[i].1 == u;
    }
    lemma_run_creates(s, calls, ids);
}

} // verus!
