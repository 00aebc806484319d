//! Host-facing constants and the layout of scalar storage keys.
use vstd::prelude::*;
use crate::bytes::{be64, word64, lemma_word64_be64};
use crate::storage::{slot_of, slot_of_bytes, Slot, StorageKey, STORAGE_KEY_BYTES};

verus! {

/// Scheme number the address opcode takes for ML-DSA-65.
pub const SCHEME_ML_DSA: u64 = crate::crypto::SCHEME_ML_DSA;

/// Scheme number the address opcode takes for SLH-DSA.
pub const SCHEME_SLH_DSA: u64 = crate::crypto::SCHEME_SLH_DSA;

/// Bytes of an ML-DSA-65 public key.
pub const ML_DSA_PUBLIC_KEY_BYTES: usize = crate::primitives::ML_DSA_PUBLIC_KEY_BYTES;

/// Bytes of an ML-DSA-65 signature.
pub const ML_DSA_SIGNATURE_BYTES: usize = crate::primitives::ML_DSA_SIGNATURE_BYTES;

/// Bytes of an SLH-DSA public key.
pub const SLH_DSA_PUBLIC_KEY_BYTES: usize = crate::primitives::SLH_DSA_PUBLIC_KEY_BYTES;

/// Bytes of an SLH-DSA signature.
pub const SLH_DSA_SIGNATURE_BYTES: usize = crate::primitives::SLH_DSA_SIGNATURE_BYTES;

/// The bytes of the storage key of scalar slot `slot`: zeros, then the slot big-endian in
/// the last eight bytes.
pub open spec fn scalar_key_bytes(slot: u64) -> Seq<u8> {
    Seq::new(24, |i: int| 0u8) + be64(slot)
}

/// The slot a scalar slot number stands for.
pub open spec fn scalar_slot(slot: u64) -> Slot {
    slot_of_bytes(scalar_key_bytes(slot))
}

/// The storage key of scalar slot `slot`.
pub fn scalar_key(slot: u64) -> (k: StorageKey)
    ensures
        k@ == scalar_key_bytes(slot),
        slot_of(k) == scalar_slot(slot),
{
    let mut key = [0u8; STORAGE_KEY_BYTES];
    key[24] = (slot >> 56u64) as u8;
    key[25] = (slot >> 48u64) as u8;
    key[26] = (slot >> 40u64) as u8;
    key[27] = (slot >> 32u64) as u8;
    key[28] = (slot >> 24u64) as u8;
    key[29] = (slot >> 16u64) as u8;
    key[30] = (slot >> 8u64) as u8;
    key[31] = slot as u8;
    assert(key@ =~= scalar_key_bytes(slot));
    key
}

/// A scalar slot is the key whose last word is the slot number: distinct slot numbers name
/// distinct keys.
pub proof fn law_scalar_slot(slot: u64, other: u64)
    ensures
        scalar_slot(slot) == (0u64, 0u64, 0u64, slot),
        scalar_slot(slot) == scalar_slot(other) ==> slot == other,
{
    let b = scalar_key_bytes(slot);
    assert(b.subrange(24, 32) =~= be64(slot));
    lemma_word64_be64(slot);
    let zeros = Seq::new(8, |i: int| 0u8);
    assert(b.subrange(0, 8) =~= zeros);
    assert(b.subrange(8, 16) =~= zeros);
    assert(b.subrange(16, 24) =~= zeros);
    assert(word64(zeros) == 0) by {
        assert(((0u64 << 56u64) | (0u64 << 48u64) | (0u64 << 40u64) | (0u64 << 32u64) | (0u64
            << 24u64) | (0u64 << 16u64) | (0u64 << 8u64) | 0u64) == 0u64) by (bit_vector);
    }
    let c = scalar_key_bytes(other);
    assert(c.subrange(24, 32) =~= be64(other));
    lemma_word64_be64(other);
}

} // verus!
