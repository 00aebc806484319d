//! Metering: the per-instruction charge and the length-scaled charges of the crypto opcodes.
use vstd::prelude::*;
use crate::isa::OpCode;

verus! {

/// Charged to resolve a call selector to its entry and enter it.
pub const DISPATCH: u64 = 4;

/// Charged per byte an effect records.
pub const EFFECT_BYTE: u64 = 2;

/// Most effect bytes one run may record.
pub const EFFECTS_BYTES_CAP: u64 = 1048576;

/// Fixed overhead of one effect record.
pub const EFFECT_RECORD_OVERHEAD: u64 = 32;

/// Bytes one Keccak permutation absorbs at the SHA3-256 rate.
pub const KECCAK_RATE: u64 = 136;

/// Charged per absorbed block of a hashed region.
pub const HASH_BLOCK: u64 = 40;

/// Charged per level of a Merkle authentication path.
pub const MERKLE_LEVEL: u64 = 50;

/// Price of a distinct keyed slot, which forces a fresh leaf in the state trie.
pub const KEYED_SLOT_METER: u64 = 227_000;

/// What one whole block of fresh leaves may cost in root recompute, in milliseconds.
pub const LEAF_ROOT_BUDGET_MS: u64 = 200;

/// Measured root recompute of one fresh leaf, in microseconds.
pub const LEAF_ROOT_MICROS: u64 = 900;

/// Price of a durable event record.
pub const EVENT_RECORD_METER: u64 = 6_250;

/// Event records a contract may emit before each further one is priced as durable state.
pub const FREE_EVENT_RECORDS: usize = 4;

/// Selector under which an event is read back as an asset mint (the bytes `MINT`).
pub const ASSET_MINT_SELECTOR: [u8; 4] = [0x4d, 0x49, 0x4e, 0x54];

/// Data length of an asset mint event.
pub const ASSET_MINT_DATA_BYTES: usize = 40;

/// Slots a contract may dirty before each further leaf is priced as fresh state.
pub const FREE_DIRTY_SLOTS: usize = 8;

/// Charged per absorbed block of the message tail a signature check hashes.
pub const VERIFY_MESSAGE_BLOCK: u64 = 6;

/// The fixed charge of each instruction.
pub open spec fn meter_cost(op: OpCode) -> u64 {
    match op {
        OpCode::Halt => 0,
        OpCode::Nop => 1,
        OpCode::Mov => 1,
        OpCode::Ldi => 1,
        OpCode::Ldc => 1,
        OpCode::Add => 2,
        OpCode::Sub => 2,
        OpCode::Mul => 3,
        OpCode::Div => 4,
        OpCode::Rem => 4,
        OpCode::AddW => 2,
        OpCode::SubW => 2,
        OpCode::MulW => 3,
        OpCode::MulHi => 3,
        OpCode::DivW => 8,
        OpCode::RemW => 8,
        OpCode::And => 1,
        OpCode::Or => 1,
        OpCode::Xor => 1,
        OpCode::Not => 1,
        OpCode::Shl => 1,
        OpCode::Shr => 1,
        OpCode::Eq => 1,
        OpCode::LtU => 1,
        OpCode::GtU => 1,
        OpCode::Push => 2,
        OpCode::Pop => 2,
        OpCode::MLoad => 3,
        OpCode::MStore => 3,
        OpCode::Jmp => 2,
        OpCode::Jz => 2,
        OpCode::Jnz => 2,
        OpCode::Call => 3,
        OpCode::Ret => 2,
        OpCode::SLoad => 100,
        OpCode::SStore => 500,
        OpCode::Send => 200,
        OpCode::Emit => 200,
        OpCode::Hash => 200,
        OpCode::VerifyMl => 8000,
        OpCode::VerifySlh => 160_000,
        OpCode::MerkleVerify => 512,
        OpCode::Kem => 3200,
        OpCode::Addr => 4000,
    }
}

/// `a * b`, or `u64::MAX` when the product does not fit.
pub open spec fn sat_mul(a: u64, b: u64) -> u64 {
    if a * b > u64::MAX { u64::MAX } else { (a * b) as u64 }
}

fn saturating_product(a: u64, b: u64) -> (r: u64)
    ensures
        r == sat_mul(a, b),
{
    match a.checked_mul(b) {
        Some(v) => v,
        None => u64::MAX,
    }
}

/// Keccak blocks absorbed for a message of `len` bytes, padding included.
pub open spec fn keccak_blocks(len: u64) -> u64 {
    (len / KECCAK_RATE + 1) as u64
}

fn blocks(len: u64) -> (r: u64)
    ensures
        r == keccak_blocks(len),
{
    len / KECCAK_RATE + 1
}

/// Charged on top of the fixed cost to hash a region of `len` bytes.
pub fn hash_variable(len: u64) -> (r: u64)
    ensures
        r == sat_mul(keccak_blocks(len), HASH_BLOCK),
{
    saturating_product(blocks(len), HASH_BLOCK)
}

/// Charged on top of the fixed cost for the message tail a signature check hashes.
pub fn message_variable(tail: u64) -> (r: u64)
    ensures
        r == sat_mul(keccak_blocks(tail), VERIFY_MESSAGE_BLOCK),
{
    saturating_product(blocks(tail), VERIFY_MESSAGE_BLOCK)
}

/// Charged on top of the fixed cost for a Merkle path of `path_bytes` bytes.
pub fn merkle_variable(path_bytes: u64) -> (r: u64)
    ensures
        r == sat_mul(path_bytes / 32, MERKLE_LEVEL),
{
    saturating_product(path_bytes / 32, MERKLE_LEVEL)
}

/// The fixed charge of one instruction. Only a clean halt is free.
pub fn cost(op: OpCode) -> (r: u64)
    ensures
        r == meter_cost(op),
        r == 0 <==> op == OpCode::Halt,
{
    match op {
        OpCode::Halt => 0,
        OpCode::Nop => 1,
        OpCode::Mov => 1,
        OpCode::Ldi => 1,
        OpCode::Ldc => 1,
        OpCode::Add => 2,
        OpCode::Sub => 2,
        OpCode::Mul => 3,
        OpCode::Div => 4,
        OpCode::Rem => 4,
        OpCode::AddW => 2,
        OpCode::SubW => 2,
        OpCode::MulW => 3,
        OpCode::MulHi => 3,
        OpCode::DivW => 8,
        OpCode::RemW => 8,
        OpCode::And => 1,
        OpCode::Or => 1,
        OpCode::Xor => 1,
        OpCode::Not => 1,
        OpCode::Shl => 1,
        OpCode::Shr => 1,
        OpCode::Eq => 1,
        OpCode::LtU => 1,
        OpCode::GtU => 1,
        OpCode::Push => 2,
        OpCode::Pop => 2,
        OpCode::MLoad => 3,
        OpCode::MStore => 3,
        OpCode::Jmp => 2,
        OpCode::Jz => 2,
        OpCode::Jnz => 2,
        OpCode::Call => 3,
        OpCode::Ret => 2,
        OpCode::SLoad => 100,
        OpCode::SStore => 500,
        OpCode::Send => 200,
        OpCode::Emit => 200,
        OpCode::Hash => 200,
        OpCode::VerifyMl => 8000,
        OpCode::VerifySlh => 160_000,
        OpCode::MerkleVerify => 512,
        OpCode::Kem => 3200,
        OpCode::Addr => 4000,
    }
}

/// Only a clean halt is free: every other instruction charges at least one.
pub proof fn law_only_halt_is_free(op: OpCode)
    ensures
        meter_cost(op) == 0 <==> op == OpCode::Halt,
        op != OpCode::Halt ==> meter_cost(op) >= 1,
{
}

/// A longer hashed region never costs less: the hash charge grows with the length.
pub proof fn law_hash_charge_monotone(a: u64, b: u64)
    requires
        a <= b,
    ensures
        sat_mul(keccak_blocks(a), HASH_BLOCK) <= sat_mul(keccak_blocks(b), HASH_BLOCK),
        sat_mul(keccak_blocks(a), VERIFY_MESSAGE_BLOCK) <= sat_mul(keccak_blocks(b), VERIFY_MESSAGE_BLOCK),
{
    assert(a / KECCAK_RATE <= b / KECCAK_RATE) by (nonlinear_arith)
        requires
            a <= b,
    ;
}

} // verus!
