//! The fixed gas schedule: one deterministic cost per instruction.
use vstd::prelude::*;
use crate::isa::OpCode;

verus! {

/// Gas charged to resolve a call selector to its entry and enter it.
pub const DISPATCH: u64 = 4;

/// The gas each instruction costs. The prices of DivW, RemW and Addr are this library's own
/// choice: they take the charges the meter schedule (`meter::meter_cost`) sets for them.
pub open spec fn gas_cost(op: OpCode) -> u64 {
    match op {
        OpCode::Halt => 0,
        OpCode::Nop => 1,
        OpCode::Mov => 1,
        OpCode::Ldi => 1,
        OpCode::Ldc => 1,
        OpCode::Add => 2,
        OpCode::Sub => 2,
        OpCode::Mul => 3,
        OpCode::Div => 4,
        OpCode::Rem => 4,
        OpCode::AddW => 2,
        OpCode::SubW => 2,
        OpCode::MulW => 3,
        OpCode::MulHi => 3,
        OpCode::DivW => 8,
        OpCode::RemW => 8,
        OpCode::And => 1,
        OpCode::Or => 1,
        OpCode::Xor => 1,
        OpCode::Not => 1,
        OpCode::Shl => 1,
        OpCode::Shr => 1,
        OpCode::Eq => 1,
        OpCode::LtU => 1,
        OpCode::GtU => 1,
        OpCode::Push => 2,
        OpCode::Pop => 2,
        OpCode::MLoad => 3,
        OpCode::MStore => 3,
        OpCode::Jmp => 2,
        OpCode::Jz => 2,
        OpCode::Jnz => 2,
        OpCode::Call => 3,
        OpCode::Ret => 2,
        OpCode::SLoad => 100,
        OpCode::SStore => 500,
        OpCode::Send => 200,
        OpCode::Emit => 200,
        OpCode::Hash => 32,
        OpCode::VerifyMl => 1600,
        OpCode::VerifySlh => 64_000,
        OpCode::MerkleVerify => 512,
        OpCode::Kem => 640,
        OpCode::Addr => 4000,
    }
}

/// Gas charged for one instruction. Every cost other than a clean halt is at least one.
pub fn cost(op: OpCode) -> (r: u64)
    ensures
        r == gas_cost(op),
        r == 0 <==> op == OpCode::Halt,
{
    match op {
        OpCode::Halt => 0,
        OpCode::Nop => 1,
        OpCode::Mov => 1,
        OpCode::Ldi => 1,
        OpCode::Ldc => 1,
        OpCode::Add => 2,
        OpCode::Sub => 2,
        OpCode::Mul => 3,
        OpCode::Div => 4,
        OpCode::Rem => 4,
        OpCode::AddW => 2,
        OpCode::SubW => 2,
        OpCode::MulW => 3,
        OpCode::MulHi => 3,
        OpCode::DivW => 8,
        OpCode::RemW => 8,
        OpCode::And => 1,
        OpCode::Or => 1,
        OpCode::Xor => 1,
        OpCode::Not => 1,
        OpCode::Shl => 1,
        OpCode::Shr => 1,
        OpCode::Eq => 1,
        OpCode::LtU => 1,
        OpCode::GtU => 1,
        OpCode::Push => 2,
        OpCode::Pop => 2,
        OpCode::MLoad => 3,
        OpCode::MStore => 3,
        OpCode::Jmp => 2,
        OpCode::Jz => 2,
        OpCode::Jnz => 2,
        OpCode::Call => 3,
        OpCode::Ret => 2,
        OpCode::SLoad => 100,
        OpCode::SStore => 500,
        OpCode::Send => 200,
        OpCode::Emit => 200,
        OpCode::Hash => 32,
        OpCode::VerifyMl => 1600,
        OpCode::VerifySlh => 64_000,
        OpCode::MerkleVerify => 512,
        OpCode::Kem => 640,
        OpCode::Addr => 4000,
    }
}

} // verus!
