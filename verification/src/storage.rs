//! Contract storage: 32-byte keys mapped to words.
use vstd::prelude::*;
use std::collections::BTreeMap;
use crate::bytes::{word64, lemma_be64_word64, read_be64};

verus! {

broadcast use vstd::std_specs::btree::group_btree_axioms;

/// Bytes of a storage key.
pub const STORAGE_KEY_BYTES: usize = 32;

/// A storage key.
pub type StorageKey = [u8; STORAGE_KEY_BYTES];

/// A storage key read as four big-endian words, most significant first. Keys order as
/// their slots do.
pub type Slot = (u64, u64, u64, u64);

/// The slot of the key whose bytes are `b`.
pub open spec fn slot_of_bytes(b: Seq<u8>) -> Slot {
    (
        word64(b.subrange(0, 8)),
        word64(b.subrange(8, 16)),
        word64(b.subrange(16, 24)),
        word64(b.subrange(24, 32)),
    )
}

/// The slot of a key.
pub open spec fn slot_of(k: StorageKey) -> Slot {
    slot_of_bytes(k@)
}

proof fn lemma_chunk_equal(a: StorageKey, b: StorageKey, k: int)
    requires
        0 <= k < 4,
        word64(a@.subrange(8 * k, 8 * k + 8)) == word64(b@.subrange(8 * k, 8 * k + 8)),
    ensures
        forall|i: int| 8 * k <= i < 8 * k + 8 ==> a@[i] == b@[i],
{
    lemma_be64_word64(a@.subrange(8 * k, 8 * k + 8));
    lemma_be64_word64(b@.subrange(8 * k, 8 * k + 8));
    assert(a@.subrange(8 * k, 8 * k + 8) =~= b@.subrange(8 * k, 8 * k + 8));
    assert forall|i: int| 8 * k <= i < 8 * k + 8 implies a@[i] == b@[i] by {
        assert(a@[i] == a@.subrange(8 * k, 8 * k + 8)[i - 8 * k]);
        assert(b@[i] == b@.subrange(8 * k, 8 * k + 8)[i - 8 * k]);
    }
}

/// Keys that differ in any byte, the leading word or past it, are held in distinct slots.
pub proof fn law_slot_injective(a: StorageKey, b: StorageKey)
    requires
        slot_of(a) == slot_of(b),
    ensures
        a == b,
{
    lemma_chunk_equal(a, b, 0);
    lemma_chunk_equal(a, b, 1);
    lemma_chunk_equal(a, b, 2);
    lemma_chunk_equal(a, b, 3);
    assert(a@ =~= b@);
}

/// The slot of a key, computed.
pub fn key_slot(k: &StorageKey) -> (r: Slot)
    ensures
        r == slot_of(*k),
{
    bytes_slot(k.as_slice())
}

/// The slot of the key stored in the first 32 bytes of `b`.
pub fn bytes_slot(b: &[u8]) -> (r: Slot)
    requires
        b@.len() == STORAGE_KEY_BYTES,
    ensures
        r == slot_of_bytes(b@),
{
    (read_be64(b, 0), read_be64(b, 8), read_be64(b, 16), read_be64(b, 24))
}

/// Words held under storage keys; a key that was never written holds nothing.
#[derive(Debug, Clone, PartialEq, Eq)]
pub struct Storage {
    slots: BTreeMap<Slot, u64>,
}

impl View for Storage {
    type V = Map<Slot, u64>;

    closed spec fn view(&self) -> Map<Slot, u64> {
        self.slots@
    }
}

impl Storage {
    /// Empty storage.
    pub fn new() -> (s: Storage)
        ensures
            s@ == Map::<Slot, u64>::empty(),
    {
        Storage { slots: BTreeMap::new() }
    }

    /// The word held under `key`, if any.
    pub fn get(&self, key: &StorageKey) -> (r: Option<&u64>)
        ensures
            match r {
                Some(v) => self@.contains_key(slot_of(*key)) && *v == self@[slot_of(*key)],
                None => !self@.contains_key(slot_of(*key)),
            },
    {
        let slot = key_slot(key);
        self.slots.get(&slot)
    }

    /// Holds `v` under `key`.
    pub fn insert(&mut self, key: StorageKey, v: u64)
        ensures
            final(self)@ == old(self)@.insert(slot_of(key), v),
    {
        let slot = key_slot(&key);
        self.slots.insert(slot, v);
    }

    /// Number of keys holding a word.
    pub fn len(&self) -> (r: usize)
        ensures
            r == self@.len(),
    {
        self.slots.len()
    }

    /// Whether no key holds a word.
    pub fn is_empty(&self) -> (r: bool)
        ensures
            r == (self@.len() == 0),
    {
        self.slots.len() == 0
    }
}

impl Storage {
    /// The word held in `slot`, zero for a slot never written.
    pub fn value_at(&self, slot: &Slot) -> (r: u64)
        ensures
            r == if self@.contains_key(*slot) {
                self@[*slot]
            } else {
                0
            },
    {
        match self.slots.get(slot) {
            Some(v) => *v,
            None => 0,
        }
    }

    /// Holds `v` in `slot`.
    pub fn put(&mut self, slot: Slot, v: u64)
        ensures
            final(self)@ == old(self)@.insert(slot, v),
    {
        self.slots.insert(slot, v);
    }
}

} // verus!
