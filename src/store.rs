//! The flat key/value store that holds all registry state.

use vstd::prelude::*;
use crate::word::{lemma_value_injective, Word};

verus! {

/// What `key` reads in a store whose written slots are `slots`: a key that
/// was never written reads zero.
pub open spec fn read_slot(slots: Map<nat, nat>, key: nat) -> nat {
    if slots.contains_key(key) {
        slots[key]
    } else {
        0
    }
}

/// A persistent store from 256-bit keys to 256-bit words.
pub trait Storage {
    /// The slots written so far, by key value.
    spec fn slots(&self) -> Map<nat, nat>;

    /// Reads the word at `key`.
    fn storage(&self, key: &Word) -> (r: Word)
        ensures
            r.value() == read_slot(self.slots(), key.value()),
    ;

    /// Writes `value` at `key`.
    fn write_storage(&mut self, key: Word, value: Word)
        ensures
            final(self).slots() == old(self).slots().insert(key.value(), value.value()),
    ;
}

/// The slots that a list of `(key, value)` entries spells out; a later entry
/// for a key overrides an earlier one.
pub open spec fn entries_map(s: Seq<(Word, Word)>) -> Map<nat, nat>
    decreases s.len(),
{
    if s.len() == 0 {
        Map::empty()
    } else {
        entries_map(s.drop_last()).insert(s.last().0.value(), s.last().1.value())
    }
}

/// `i` is the last entry of `s` whose key has value `k`.
pub open spec fn last_entry_for(s: Seq<(Word, Word)>, i: int, k: nat) -> bool {
    &&& 0 <= i < s.len()
    &&& s[i].0.value() == k
    &&& forall|j: int| i < j < s.len() ==> #[trigger] s[j].0.value() != k
}

proof fn lemma_entries_absent(s: Seq<(Word, Word)>, k: nat)
    requires
        forall|j: int| 0 <= j < s.len() ==> #[trigger] s[j].0.value() != k,
    ensures
        !entries_map(s).contains_key(k),
    decreases s.len(),
{
    if s.len() > 0 {
        let p = s.drop_last();
        assert forall|j: int| 0 <= j < p.len() implies #[trigger] p[j].0.value() != k by {
            assert(p[j] == s[j]);
        }
        lemma_entries_absent(p, k);
    }
}

proof fn lemma_entries_last(s: Seq<(Word, Word)>, i: int, k: nat)
    requires
        last_entry_for(s, i, k),
    ensures
        entries_map(s).contains_key(k),
        entries_map(s)[k] == s[i].1.value(),
    decreases s.len(),
{
    if i < s.len() - 1 {
        let p = s.drop_last();
        assert(p[i] == s[i]);
        assert forall|j: int| i < j < p.len() implies #[trigger] p[j].0.value() != k by {
            assert(p[j] == s[j]);
        }
        lemma_entries_last(p, i, k);
        assert(s[s.len() - 1].0.value() != k);
    }
}

proof fn lemma_entries_update(s: Seq<(Word, Word)>, i: int, k: nat, v: Word)
    requires
        last_entry_for(s, i, k),
    ensures
        entries_map(s.update(i, (s[i].0, v))) == entries_map(s).insert(k, v.value()),
    decreases s.len(),
{
    let u = s.update(i, (s[i].0, v));
    if i == s.len() - 1 {
        assert(u.drop_last() == s.drop_last());
        assert(entries_map(u) =~= entries_map(s).insert(k, v.value()));
    } else {
        let p = s.drop_last();
        assert(p[i] == s[i]);
        assert forall|j: int| i < j < p.len() implies #[trigger] p[j].0.value() != k by {
            assert(p[j] == s[j]);
        }
        lemma_entries_update(p, i, k, v);
        assert(u.drop_last() == p.update(i, (p[i].0, v)));
        assert(u.last() == s.last());
        assert(s[s.len() - 1].0.value() != k);
        assert(entries_map(u) =~= entries_map(s).insert(k, v.value()));
    }
}

/// A store kept in memory, as a list of `(key, word)` entries.
pub struct MemoryStore {
    entries: Vec<(Word, Word)>,
}

impl MemoryStore {
    /// An empty store: every key reads zero.
    pub fn new() -> (r: MemoryStore)
        ensures
            r.slots() == Map::<nat, nat>::empty(),
    {
        MemoryStore { entries: Vec::new() }
    }

    /// The index of the last entry for `key`, if any.
    fn find(&self, key: &Word) -> (r: Option<usize>)
        ensures
            r matches Some(i) ==> last_entry_for(self.entries@, i as int, key.value()),
            r is None ==> !self.slots().contains_key(key.value()),
    {
        let mut i: usize = self.entries.len();
        while i > 0
            invariant
                i <= self.entries@.len(),
                forall|j: int| i <= j < self.entries@.len() ==> #[trigger] self.entries@[j].0.value() != key.value(),
            decreases i,
        {
            i = i - 1;
            let k = self.entries[i].0;
            proof {
                lemma_value_injective(k, *key);
            }
            if k == *key {
                return Some(i);
            }
        }
        proof {
            lemma_entries_absent(self.entries@, key.value());
        }
        None
    }
}

impl Storage for MemoryStore {
    closed spec fn slots(&self) -> Map<nat, nat> {
        entries_map(self.entries@)
    }

    fn storage(&self, key: &Word) -> (r: Word) {
        match self.find(key) {
            Some(i) => {
                proof {
                    lemma_entries_last(self.entries@, i as int, key.value());
                }
                self.entries[i].1
            },
            None => Word::zero(),
        }
    }

    fn write_storage(&mut self, key: Word, value: Word) {
        match self.find(&key) {
            Some(i) => {
                proof {
                    lemma_entries_update(self.entries@, i as int, key.value(), value);
                }
                let k = self.entries[i].0;
                self.entries.set(i, (k, value));
            },
            None => {
                self.entries.push((key, value));
                proof {
                    assert(self.entries@.drop_last() == old(self).entries@);
                }
            },
        }
    }
}

} // verus!
