//! Instruction set: opcodes, decoded instructions and their fixed byte encoding.
use vstd::prelude::*;
use crate::bytes::{be16, be32, be64, word16, word32, word64, lemma_word16_be16, lemma_word32_be32, lemma_word64_be64, lemma_be16_word16, lemma_be32_word32, lemma_be64_word64, push_be16, push_be32, push_be64, read_be16, read_be32, read_be64};

verus! {

/// Number of general registers. A register operand outside this range is a decode fault.
pub const NUM_REGS: usize = 16;

/// A register index. Valid values are `0..NUM_REGS`.
pub type Reg = u8;

/// The operation an instruction performs, one per leading byte of its encoding.
#[derive(Debug, Clone, Copy, PartialEq, Eq, Structural)]
pub enum OpCode {
    Halt,
    Nop,
    Mov,
    Ldi,
    Ldc,
    Add,
    Sub,
    Mul,
    Div,
    Rem,
    AddW,
    SubW,
    MulW,
    MulHi,
    DivW,
    RemW,
    And,
    Or,
    Xor,
    Not,
    Shl,
    Shr,
    Eq,
    LtU,
    GtU,
    Push,
    Pop,
    MLoad,
    MStore,
    Jmp,
    Jz,
    Jnz,
    Call,
    Ret,
    SLoad,
    SStore,
    Send,
    Emit,
    Hash,
    VerifyMl,
    VerifySlh,
    MerkleVerify,
    Kem,
    Addr,
}

/// The leading byte that encodes `op`.
pub open spec fn opcode_byte(op: OpCode) -> u8 {
    match op {
        OpCode::Halt => 0x00,
        OpCode::Nop => 0x01,
        OpCode::Mov => 0x02,
        OpCode::Ldi => 0x03,
        OpCode::Ldc => 0x04,
        OpCode::Add => 0x10,
        OpCode::Sub => 0x11,
        OpCode::Mul => 0x12,
        OpCode::Div => 0x13,
        OpCode::Rem => 0x14,
        OpCode::AddW => 0x18,
        OpCode::SubW => 0x19,
        OpCode::MulW => 0x1a,
        OpCode::MulHi => 0x1b,
        OpCode::DivW => 0x1c,
        OpCode::RemW => 0x1d,
        OpCode::And => 0x20,
        OpCode::Or => 0x21,
        OpCode::Xor => 0x22,
        OpCode::Not => 0x23,
        OpCode::Shl => 0x24,
        OpCode::Shr => 0x25,
        OpCode::Eq => 0x28,
        OpCode::LtU => 0x29,
        OpCode::GtU => 0x2a,
        OpCode::Push => 0x30,
        OpCode::Pop => 0x31,
        OpCode::MLoad => 0x38,
        OpCode::MStore => 0x39,
        OpCode::Jmp => 0x40,
        OpCode::Jz => 0x41,
        OpCode::Jnz => 0x42,
        OpCode::Call => 0x43,
        OpCode::Ret => 0x44,
        OpCode::SLoad => 0x50,
        OpCode::SStore => 0x51,
        OpCode::Send => 0x60,
        OpCode::Emit => 0x61,
        OpCode::Hash => 0x70,
        OpCode::VerifyMl => 0x71,
        OpCode::VerifySlh => 0x72,
        OpCode::MerkleVerify => 0x73,
        OpCode::Kem => 0x75,
        OpCode::Addr => 0x76,
    }
}

/// The opcode a leading byte names, if any.
pub open spec fn byte_opcode(b: u8) -> Option<OpCode> {
    if b == 0x00 { Some(OpCode::Halt) }
    else if b == 0x01 { Some(OpCode::Nop) }
    else if b == 0x02 { Some(OpCode::Mov) }
    else if b == 0x03 { Some(OpCode::Ldi) }
    else if b == 0x04 { Some(OpCode::Ldc) }
    else if b == 0x10 { Some(OpCode::Add) }
    else if b == 0x11 { Some(OpCode::Sub) }
    else if b == 0x12 { Some(OpCode::Mul) }
    else if b == 0x13 { Some(OpCode::Div) }
    else if b == 0x14 { Some(OpCode::Rem) }
    else if b == 0x18 { Some(OpCode::AddW) }
    else if b == 0x19 { Some(OpCode::SubW) }
    else if b == 0x1a { Some(OpCode::MulW) }
    else if b == 0x1b { Some(OpCode::MulHi) }
    else if b == 0x1c { Some(OpCode::DivW) }
    else if b == 0x1d { Some(OpCode::RemW) }
    else if b == 0x20 { Some(OpCode::And) }
    else if b == 0x21 { Some(OpCode::Or) }
    else if b == 0x22 { Some(OpCode::Xor) }
    else if b == 0x23 { Some(OpCode::Not) }
    else if b == 0x24 { Some(OpCode::Shl) }
    else if b == 0x25 { Some(OpCode::Shr) }
    else if b == 0x28 { Some(OpCode::Eq) }
    else if b == 0x29 { Some(OpCode::LtU) }
    else if b == 0x2a { Some(OpCode::GtU) }
    else if b == 0x30 { Some(OpCode::Push) }
    else if b == 0x31 { Some(OpCode::Pop) }
    else if b == 0x38 { Some(OpCode::MLoad) }
    else if b == 0x39 { Some(OpCode::MStore) }
    else if b == 0x40 { Some(OpCode::Jmp) }
    else if b == 0x41 { Some(OpCode::Jz) }
    else if b == 0x42 { Some(OpCode::Jnz) }
    else if b == 0x43 { Some(OpCode::Call) }
    else if b == 0x44 { Some(OpCode::Ret) }
    else if b == 0x50 { Some(OpCode::SLoad) }
    else if b == 0x51 { Some(OpCode::SStore) }
    else if b == 0x60 { Some(OpCode::Send) }
    else if b == 0x61 { Some(OpCode::Emit) }
    else if b == 0x70 { Some(OpCode::Hash) }
    else if b == 0x71 { Some(OpCode::VerifyMl) }
    else if b == 0x72 { Some(OpCode::VerifySlh) }
    else if b == 0x73 { Some(OpCode::MerkleVerify) }
    else if b == 0x75 { Some(OpCode::Kem) }
    else if b == 0x76 { Some(OpCode::Addr) }
    else { None }
}

/// How many register operands follow the opcode byte.
pub open spec fn reg_count(op: OpCode) -> nat {
    match op {
        OpCode::Halt => 0,
        OpCode::Nop => 0,
        OpCode::Mov => 2,
        OpCode::Ldi => 1,
        OpCode::Ldc => 1,
        OpCode::Add => 3,
        OpCode::Sub => 3,
        OpCode::Mul => 3,
        OpCode::Div => 3,
        OpCode::Rem => 3,
        OpCode::AddW => 3,
        OpCode::SubW => 3,
        OpCode::MulW => 3,
        OpCode::MulHi => 3,
        OpCode::DivW => 6,
        OpCode::RemW => 6,
        OpCode::And => 3,
        OpCode::Or => 3,
        OpCode::Xor => 3,
        OpCode::Not => 2,
        OpCode::Shl => 3,
        OpCode::Shr => 3,
        OpCode::Eq => 3,
        OpCode::LtU => 3,
        OpCode::GtU => 3,
        OpCode::Push => 1,
        OpCode::Pop => 1,
        OpCode::MLoad => 2,
        OpCode::MStore => 2,
        OpCode::Jmp => 0,
        OpCode::Jz => 1,
        OpCode::Jnz => 1,
        OpCode::Call => 0,
        OpCode::Ret => 0,
        OpCode::SLoad => 2,
        OpCode::SStore => 2,
        OpCode::Send => 3,
        OpCode::Emit => 3,
        OpCode::Hash => 3,
        OpCode::VerifyMl => 3,
        OpCode::VerifySlh => 3,
        OpCode::MerkleVerify => 3,
        OpCode::Kem => 3,
        OpCode::Addr => 3,
    }
}

/// How many bytes of big-endian immediate follow the register operands.
pub open spec fn imm_width(op: OpCode) -> nat {
    match op {
        OpCode::Halt => 0,
        OpCode::Nop => 0,
        OpCode::Mov => 0,
        OpCode::Ldi => 8,
        OpCode::Ldc => 2,
        OpCode::Add => 0,
        OpCode::Sub => 0,
        OpCode::Mul => 0,
        OpCode::Div => 0,
        OpCode::Rem => 0,
        OpCode::AddW => 0,
        OpCode::SubW => 0,
        OpCode::MulW => 0,
        OpCode::MulHi => 0,
        OpCode::DivW => 0,
        OpCode::RemW => 0,
        OpCode::And => 0,
        OpCode::Or => 0,
        OpCode::Xor => 0,
        OpCode::Not => 0,
        OpCode::Shl => 0,
        OpCode::Shr => 0,
        OpCode::Eq => 0,
        OpCode::LtU => 0,
        OpCode::GtU => 0,
        OpCode::Push => 0,
        OpCode::Pop => 0,
        OpCode::MLoad => 0,
        OpCode::MStore => 0,
        OpCode::Jmp => 4,
        OpCode::Jz => 4,
        OpCode::Jnz => 4,
        OpCode::Call => 4,
        OpCode::Ret => 0,
        OpCode::SLoad => 0,
        OpCode::SStore => 0,
        OpCode::Send => 0,
        OpCode::Emit => 0,
        OpCode::Hash => 0,
        OpCode::VerifyMl => 0,
        OpCode::VerifySlh => 0,
        OpCode::MerkleVerify => 0,
        OpCode::Kem => 0,
        OpCode::Addr => 0,
    }
}

impl OpCode {
    /// The opcode named by a leading byte, or `None` for a byte no opcode uses.
    pub fn from_byte(b: u8) -> (r: Option<OpCode>)
        ensures
            r == byte_opcode(b),
    {
        match b {
            0x00 => Some(OpCode::Halt),
            0x01 => Some(OpCode::Nop),
            0x02 => Some(OpCode::Mov),
            0x03 => Some(OpCode::Ldi),
            0x04 => Some(OpCode::Ldc),
            0x10 => Some(OpCode::Add),
            0x11 => Some(OpCode::Sub),
            0x12 => Some(OpCode::Mul),
            0x13 => Some(OpCode::Div),
            0x14 => Some(OpCode::Rem),
            0x18 => Some(OpCode::AddW),
            0x19 => Some(OpCode::SubW),
            0x1a => Some(OpCode::MulW),
            0x1b => Some(OpCode::MulHi),
            0x1c => Some(OpCode::DivW),
            0x1d => Some(OpCode::RemW),
            0x20 => Some(OpCode::And),
            0x21 => Some(OpCode::Or),
            0x22 => Some(OpCode::Xor),
            0x23 => Some(OpCode::Not),
            0x24 => Some(OpCode::Shl),
            0x25 => Some(OpCode::Shr),
            0x28 => Some(OpCode::Eq),
            0x29 => Some(OpCode::LtU),
            0x2a => Some(OpCode::GtU),
            0x30 => Some(OpCode::Push),
            0x31 => Some(OpCode::Pop),
            0x38 => Some(OpCode::MLoad),
            0x39 => Some(OpCode::MStore),
            0x40 => Some(OpCode::Jmp),
            0x41 => Some(OpCode::Jz),
            0x42 => Some(OpCode::Jnz),
            0x43 => Some(OpCode::Call),
            0x44 => Some(OpCode::Ret),
            0x50 => Some(OpCode::SLoad),
            0x51 => Some(OpCode::SStore),
            0x60 => Some(OpCode::Send),
            0x61 => Some(OpCode::Emit),
            0x70 => Some(OpCode::Hash),
            0x71 => Some(OpCode::VerifyMl),
            0x72 => Some(OpCode::VerifySlh),
            0x73 => Some(OpCode::MerkleVerify),
            0x75 => Some(OpCode::Kem),
            0x76 => Some(OpCode::Addr),
            _ => None,
        }
    }

    /// The leading byte that encodes this opcode.
    pub fn to_byte(self) -> (r: u8)
        ensures
            r == opcode_byte(self),
    {
        match self {
            OpCode::Halt => 0x00,
            OpCode::Nop => 0x01,
            OpCode::Mov => 0x02,
            OpCode::Ldi => 0x03,
            OpCode::Ldc => 0x04,
            OpCode::Add => 0x10,
            OpCode::Sub => 0x11,
            OpCode::Mul => 0x12,
            OpCode::Div => 0x13,
            OpCode::Rem => 0x14,
            OpCode::AddW => 0x18,
            OpCode::SubW => 0x19,
            OpCode::MulW => 0x1a,
            OpCode::MulHi => 0x1b,
            OpCode::DivW => 0x1c,
            OpCode::RemW => 0x1d,
            OpCode::And => 0x20,
            OpCode::Or => 0x21,
            OpCode::Xor => 0x22,
            OpCode::Not => 0x23,
            OpCode::Shl => 0x24,
            OpCode::Shr => 0x25,
            OpCode::Eq => 0x28,
            OpCode::LtU => 0x29,
            OpCode::GtU => 0x2a,
            OpCode::Push => 0x30,
            OpCode::Pop => 0x31,
            OpCode::MLoad => 0x38,
            OpCode::MStore => 0x39,
            OpCode::Jmp => 0x40,
            OpCode::Jz => 0x41,
            OpCode::Jnz => 0x42,
            OpCode::Call => 0x43,
            OpCode::Ret => 0x44,
            OpCode::SLoad => 0x50,
            OpCode::SStore => 0x51,
            OpCode::Send => 0x60,
            OpCode::Emit => 0x61,
            OpCode::Hash => 0x70,
            OpCode::VerifyMl => 0x71,
            OpCode::VerifySlh => 0x72,
            OpCode::MerkleVerify => 0x73,
            OpCode::Kem => 0x75,
            OpCode::Addr => 0x76,
        }
    }

    /// Number of register operands, as `reg_count` states.
    pub fn reg_count(self) -> (r: usize)
        ensures
            r == reg_count(self),
            r <= 6,
    {
        match self {
            OpCode::Halt => 0,
            OpCode::Nop => 0,
            OpCode::Mov => 2,
            OpCode::Ldi => 1,
            OpCode::Ldc => 1,
            OpCode::Add => 3,
            OpCode::Sub => 3,
            OpCode::Mul => 3,
            OpCode::Div => 3,
            OpCode::Rem => 3,
            OpCode::AddW => 3,
            OpCode::SubW => 3,
            OpCode::MulW => 3,
            OpCode::MulHi => 3,
            OpCode::DivW => 6,
            OpCode::RemW => 6,
            OpCode::And => 3,
            OpCode::Or => 3,
            OpCode::Xor => 3,
            OpCode::Not => 2,
            OpCode::Shl => 3,
            OpCode::Shr => 3,
            OpCode::Eq => 3,
            OpCode::LtU => 3,
            OpCode::GtU => 3,
            OpCode::Push => 1,
            OpCode::Pop => 1,
            OpCode::MLoad => 2,
            OpCode::MStore => 2,
            OpCode::Jmp => 0,
            OpCode::Jz => 1,
            OpCode::Jnz => 1,
            OpCode::Call => 0,
            OpCode::Ret => 0,
            OpCode::SLoad => 2,
            OpCode::SStore => 2,
            OpCode::Send => 3,
            OpCode::Emit => 3,
            OpCode::Hash => 3,
            OpCode::VerifyMl => 3,
            OpCode::VerifySlh => 3,
            OpCode::MerkleVerify => 3,
            OpCode::Kem => 3,
            OpCode::Addr => 3,
        }
    }

    /// Width of the immediate in bytes, as `imm_width` states.
    pub fn imm_width(self) -> (r: usize)
        ensures
            r == imm_width(self),
            r == 0 || r == 2 || r == 4 || r == 8,
    {
        match self {
            OpCode::Halt => 0,
            OpCode::Nop => 0,
            OpCode::Mov => 0,
            OpCode::Ldi => 8,
            OpCode::Ldc => 2,
            OpCode::Add => 0,
            OpCode::Sub => 0,
            OpCode::Mul => 0,
            OpCode::Div => 0,
            OpCode::Rem => 0,
            OpCode::AddW => 0,
            OpCode::SubW => 0,
            OpCode::MulW => 0,
            OpCode::MulHi => 0,
            OpCode::DivW => 0,
            OpCode::RemW => 0,
            OpCode::And => 0,
            OpCode::Or => 0,
            OpCode::Xor => 0,
            OpCode::Not => 0,
            OpCode::Shl => 0,
            OpCode::Shr => 0,
            OpCode::Eq => 0,
            OpCode::LtU => 0,
            OpCode::GtU => 0,
            OpCode::Push => 0,
            OpCode::Pop => 0,
            OpCode::MLoad => 0,
            OpCode::MStore => 0,
            OpCode::Jmp => 4,
            OpCode::Jz => 4,
            OpCode::Jnz => 4,
            OpCode::Call => 4,
            OpCode::Ret => 0,
            OpCode::SLoad => 0,
            OpCode::SStore => 0,
            OpCode::Send => 0,
            OpCode::Emit => 0,
            OpCode::Hash => 0,
            OpCode::VerifyMl => 0,
            OpCode::VerifySlh => 0,
            OpCode::MerkleVerify => 0,
            OpCode::Kem => 0,
            OpCode::Addr => 0,
        }
    }
}

/// A decoded instruction with its operands.
#[derive(Debug, Clone, Copy, PartialEq, Eq, Structural)]
pub enum Instr {
    Halt,
    Nop,
    Mov { d: Reg, a: Reg },
    Ldi { d: Reg, imm: u64 },
    Ldc { d: Reg, idx: u16 },
    Add { d: Reg, a: Reg, b: Reg },
    Sub { d: Reg, a: Reg, b: Reg },
    Mul { d: Reg, a: Reg, b: Reg },
    Div { d: Reg, a: Reg, b: Reg },
    Rem { d: Reg, a: Reg, b: Reg },
    AddW { d: Reg, a: Reg, b: Reg },
    SubW { d: Reg, a: Reg, b: Reg },
    MulW { d: Reg, a: Reg, b: Reg },
    MulHi { d: Reg, a: Reg, b: Reg },
    DivW { dlo: Reg, dhi: Reg, alo: Reg, ahi: Reg, blo: Reg, bhi: Reg },
    RemW { dlo: Reg, dhi: Reg, alo: Reg, ahi: Reg, blo: Reg, bhi: Reg },
    And { d: Reg, a: Reg, b: Reg },
    Or { d: Reg, a: Reg, b: Reg },
    Xor { d: Reg, a: Reg, b: Reg },
    Not { d: Reg, a: Reg },
    Shl { d: Reg, a: Reg, b: Reg },
    Shr { d: Reg, a: Reg, b: Reg },
    Eq { d: Reg, a: Reg, b: Reg },
    LtU { d: Reg, a: Reg, b: Reg },
    GtU { d: Reg, a: Reg, b: Reg },
    Push { a: Reg },
    Pop { d: Reg },
    MLoad { d: Reg, a: Reg },
    MStore { a: Reg, b: Reg },
    Jmp { target: u32 },
    Jz { a: Reg, target: u32 },
    Jnz { a: Reg, target: u32 },
    Call { target: u32 },
    Ret,
    SLoad { d: Reg, a: Reg },
    SStore { a: Reg, b: Reg },
    Send { a: Reg, b: Reg, c: Reg },
    Emit { a: Reg, b: Reg, c: Reg },
    Hash { a: Reg, b: Reg, c: Reg },
    VerifyMl { a: Reg, b: Reg, c: Reg },
    VerifySlh { a: Reg, b: Reg, c: Reg },
    MerkleVerify { a: Reg, b: Reg, c: Reg },
    Kem { a: Reg, b: Reg, c: Reg },
    Addr { a: Reg, b: Reg, c: Reg },
}

/// Why the bytes at a position are not an instruction.
#[derive(Debug, Clone, Copy, PartialEq, Eq, Structural)]
pub enum DecodeError {
    UnknownOpcode(u8),
    BadRegister(u8),
    Truncated,
}

/// The opcode of an instruction.
pub open spec fn op_of(i: Instr) -> OpCode {
    match i {
        Instr::Halt => OpCode::Halt,
        Instr::Nop => OpCode::Nop,
        Instr::Mov { .. } => OpCode::Mov,
        Instr::Ldi { .. } => OpCode::Ldi,
        Instr::Ldc { .. } => OpCode::Ldc,
        Instr::Add { .. } => OpCode::Add,
        Instr::Sub { .. } => OpCode::Sub,
        Instr::Mul { .. } => OpCode::Mul,
        Instr::Div { .. } => OpCode::Div,
        Instr::Rem { .. } => OpCode::Rem,
        Instr::AddW { .. } => OpCode::AddW,
        Instr::SubW { .. } => OpCode::SubW,
        Instr::MulW { .. } => OpCode::MulW,
        Instr::MulHi { .. } => OpCode::MulHi,
        Instr::DivW { .. } => OpCode::DivW,
        Instr::RemW { .. } => OpCode::RemW,
        Instr::And { .. } => OpCode::And,
        Instr::Or { .. } => OpCode::Or,
        Instr::Xor { .. } => OpCode::Xor,
        Instr::Not { .. } => OpCode::Not,
        Instr::Shl { .. } => OpCode::Shl,
        Instr::Shr { .. } => OpCode::Shr,
        Instr::Eq { .. } => OpCode::Eq,
        Instr::LtU { .. } => OpCode::LtU,
        Instr::GtU { .. } => OpCode::GtU,
        Instr::Push { .. } => OpCode::Push,
        Instr::Pop { .. } => OpCode::Pop,
        Instr::MLoad { .. } => OpCode::MLoad,
        Instr::MStore { .. } => OpCode::MStore,
        Instr::Jmp { .. } => OpCode::Jmp,
        Instr::Jz { .. } => OpCode::Jz,
        Instr::Jnz { .. } => OpCode::Jnz,
        Instr::Call { .. } => OpCode::Call,
        Instr::Ret => OpCode::Ret,
        Instr::SLoad { .. } => OpCode::SLoad,
        Instr::SStore { .. } => OpCode::SStore,
        Instr::Send { .. } => OpCode::Send,
        Instr::Emit { .. } => OpCode::Emit,
        Instr::Hash { .. } => OpCode::Hash,
        Instr::VerifyMl { .. } => OpCode::VerifyMl,
        Instr::VerifySlh { .. } => OpCode::VerifySlh,
        Instr::MerkleVerify { .. } => OpCode::MerkleVerify,
        Instr::Kem { .. } => OpCode::Kem,
        Instr::Addr { .. } => OpCode::Addr,
    }
}

/// The register operands of an instruction, in encoding order.
pub open spec fn regs_of(i: Instr) -> Seq<u8> {
    match i {
        Instr::Halt => seq![],
        Instr::Nop => seq![],
        Instr::Mov { d, a } => seq![d, a],
        Instr::Ldi { d, imm } => seq![d],
        Instr::Ldc { d, idx } => seq![d],
        Instr::Add { d, a, b } => seq![d, a, b],
        Instr::Sub { d, a, b } => seq![d, a, b],
        Instr::Mul { d, a, b } => seq![d, a, b],
        Instr::Div { d, a, b } => seq![d, a, b],
        Instr::Rem { d, a, b } => seq![d, a, b],
        Instr::AddW { d, a, b } => seq![d, a, b],
        Instr::SubW { d, a, b } => seq![d, a, b],
        Instr::MulW { d, a, b } => seq![d, a, b],
        Instr::MulHi { d, a, b } => seq![d, a, b],
        Instr::DivW { dlo, dhi, alo, ahi, blo, bhi } => seq![dlo, dhi, alo, ahi, blo, bhi],
        Instr::RemW { dlo, dhi, alo, ahi, blo, bhi } => seq![dlo, dhi, alo, ahi, blo, bhi],
        Instr::And { d, a, b } => seq![d, a, b],
        Instr::Or { d, a, b } => seq![d, a, b],
        Instr::Xor { d, a, b } => seq![d, a, b],
        Instr::Not { d, a } => seq![d, a],
        Instr::Shl { d, a, b } => seq![d, a, b],
        Instr::Shr { d, a, b } => seq![d, a, b],
        Instr::Eq { d, a, b } => seq![d, a, b],
        Instr::LtU { d, a, b } => seq![d, a, b],
        Instr::GtU { d, a, b } => seq![d, a, b],
        Instr::Push { a } => seq![a],
        Instr::Pop { d } => seq![d],
        Instr::MLoad { d, a } => seq![d, a],
        Instr::MStore { a, b } => seq![a, b],
        Instr::Jmp { target } => seq![],
        Instr::Jz { a, target } => seq![a],
        Instr::Jnz { a, target } => seq![a],
        Instr::Call { target } => seq![],
        Instr::Ret => seq![],
        Instr::SLoad { d, a } => seq![d, a],
        Instr::SStore { a, b } => seq![a, b],
        Instr::Send { a, b, c } => seq![a, b, c],
        Instr::Emit { a, b, c } => seq![a, b, c],
        Instr::Hash { a, b, c } => seq![a, b, c],
        Instr::VerifyMl { a, b, c } => seq![a, b, c],
        Instr::VerifySlh { a, b, c } => seq![a, b, c],
        Instr::MerkleVerify { a, b, c } => seq![a, b, c],
        Instr::Kem { a, b, c } => seq![a, b, c],
        Instr::Addr { a, b, c } => seq![a, b, c],
    }
}

/// The immediate of an instruction widened to a word, zero where it has none.
pub open spec fn imm_of(i: Instr) -> u64 {
    match i {
        Instr::Halt => 0,
        Instr::Nop => 0,
        Instr::Mov { d, a } => 0,
        Instr::Ldi { d, imm } => imm,
        Instr::Ldc { d, idx } => idx as u64,
        Instr::Add { d, a, b } => 0,
        Instr::Sub { d, a, b } => 0,
        Instr::Mul { d, a, b } => 0,
        Instr::Div { d, a, b } => 0,
        Instr::Rem { d, a, b } => 0,
        Instr::AddW { d, a, b } => 0,
        Instr::SubW { d, a, b } => 0,
        Instr::MulW { d, a, b } => 0,
        Instr::MulHi { d, a, b } => 0,
        Instr::DivW { dlo, dhi, alo, ahi, blo, bhi } => 0,
        Instr::RemW { dlo, dhi, alo, ahi, blo, bhi } => 0,
        Instr::And { d, a, b } => 0,
        Instr::Or { d, a, b } => 0,
        Instr::Xor { d, a, b } => 0,
        Instr::Not { d, a } => 0,
        Instr::Shl { d, a, b } => 0,
        Instr::Shr { d, a, b } => 0,
        Instr::Eq { d, a, b } => 0,
        Instr::LtU { d, a, b } => 0,
        Instr::GtU { d, a, b } => 0,
        Instr::Push { a } => 0,
        Instr::Pop { d } => 0,
        Instr::MLoad { d, a } => 0,
        Instr::MStore { a, b } => 0,
        Instr::Jmp { target } => target as u64,
        Instr::Jz { a, target } => target as u64,
        Instr::Jnz { a, target } => target as u64,
        Instr::Call { target } => target as u64,
        Instr::Ret => 0,
        Instr::SLoad { d, a } => 0,
        Instr::SStore { a, b } => 0,
        Instr::Send { a, b, c } => 0,
        Instr::Emit { a, b, c } => 0,
        Instr::Hash { a, b, c } => 0,
        Instr::VerifyMl { a, b, c } => 0,
        Instr::VerifySlh { a, b, c } => 0,
        Instr::MerkleVerify { a, b, c } => 0,
        Instr::Kem { a, b, c } => 0,
        Instr::Addr { a, b, c } => 0,
    }
}

/// The instruction with opcode `op`, register operands `regs[0..reg_count(op)]` and
/// immediate `imm` truncated to its width.
pub open spec fn build(op: OpCode, regs: Seq<u8>, imm: u64) -> Instr {
    match op {
        OpCode::Halt => Instr::Halt,
        OpCode::Nop => Instr::Nop,
        OpCode::Mov => Instr::Mov { d: regs[0], a: regs[1] },
        OpCode::Ldi => Instr::Ldi { d: regs[0], imm: imm },
        OpCode::Ldc => Instr::Ldc { d: regs[0], idx: imm as u16 },
        OpCode::Add => Instr::Add { d: regs[0], a: regs[1], b: regs[2] },
        OpCode::Sub => Instr::Sub { d: regs[0], a: regs[1], b: regs[2] },
        OpCode::Mul => Instr::Mul { d: regs[0], a: regs[1], b: regs[2] },
        OpCode::Div => Instr::Div { d: regs[0], a: regs[1], b: regs[2] },
        OpCode::Rem => Instr::Rem { d: regs[0], a: regs[1], b: regs[2] },
        OpCode::AddW => Instr::AddW { d: regs[0], a: regs[1], b: regs[2] },
        OpCode::SubW => Instr::SubW { d: regs[0], a: regs[1], b: regs[2] },
        OpCode::MulW => Instr::MulW { d: regs[0], a: regs[1], b: regs[2] },
        OpCode::MulHi => Instr::MulHi { d: regs[0], a: regs[1], b: regs[2] },
        OpCode::DivW => Instr::DivW { dlo: regs[0], dhi: regs[1], alo: regs[2], ahi: regs[3], blo: regs[4], bhi: regs[5] },
        OpCode::RemW => Instr::RemW { dlo: regs[0], dhi: regs[1], alo: regs[2], ahi: regs[3], blo: regs[4], bhi: regs[5] },
        OpCode::And => Instr::And { d: regs[0], a: regs[1], b: regs[2] },
        OpCode::Or => Instr::Or { d: regs[0], a: regs[1], b: regs[2] },
        OpCode::Xor => Instr::Xor { d: regs[0], a: regs[1], b: regs[2] },
        OpCode::Not => Instr::Not { d: regs[0], a: regs[1] },
        OpCode::Shl => Instr::Shl { d: regs[0], a: regs[1], b: regs[2] },
        OpCode::Shr => Instr::Shr { d: regs[0], a: regs[1], b: regs[2] },
        OpCode::Eq => Instr::Eq { d: regs[0], a: regs[1], b: regs[2] },
        OpCode::LtU => Instr::LtU { d: regs[0], a: regs[1], b: regs[2] },
        OpCode::GtU => Instr::GtU { d: regs[0], a: regs[1], b: regs[2] },
        OpCode::Push => Instr::Push { a: regs[0] },
        OpCode::Pop => Instr::Pop { d: regs[0] },
        OpCode::MLoad => Instr::MLoad { d: regs[0], a: regs[1] },
        OpCode::MStore => Instr::MStore { a: regs[0], b: regs[1] },
        OpCode::Jmp => Instr::Jmp { target: imm as u32 },
        OpCode::Jz => Instr::Jz { a: regs[0], target: imm as u32 },
        OpCode::Jnz => Instr::Jnz { a: regs[0], target: imm as u32 },
        OpCode::Call => Instr::Call { target: imm as u32 },
        OpCode::Ret => Instr::Ret,
        OpCode::SLoad => Instr::SLoad { d: regs[0], a: regs[1] },
        OpCode::SStore => Instr::SStore { a: regs[0], b: regs[1] },
        OpCode::Send => Instr::Send { a: regs[0], b: regs[1], c: regs[2] },
        OpCode::Emit => Instr::Emit { a: regs[0], b: regs[1], c: regs[2] },
        OpCode::Hash => Instr::Hash { a: regs[0], b: regs[1], c: regs[2] },
        OpCode::VerifyMl => Instr::VerifyMl { a: regs[0], b: regs[1], c: regs[2] },
        OpCode::VerifySlh => Instr::VerifySlh { a: regs[0], b: regs[1], c: regs[2] },
        OpCode::MerkleVerify => Instr::MerkleVerify { a: regs[0], b: regs[1], c: regs[2] },
        OpCode::Kem => Instr::Kem { a: regs[0], b: regs[1], c: regs[2] },
        OpCode::Addr => Instr::Addr { a: regs[0], b: regs[1], c: regs[2] },
    }
}

impl Instr {
    /// The opcode of this instruction.
    pub fn opcode(&self) -> (r: OpCode)
        ensures
            r == op_of(*self),
    {
        match self {
            Instr::Halt => OpCode::Halt,
            Instr::Nop => OpCode::Nop,
            Instr::Mov { .. } => OpCode::Mov,
            Instr::Ldi { .. } => OpCode::Ldi,
            Instr::Ldc { .. } => OpCode::Ldc,
            Instr::Add { .. } => OpCode::Add,
            Instr::Sub { .. } => OpCode::Sub,
            Instr::Mul { .. } => OpCode::Mul,
            Instr::Div { .. } => OpCode::Div,
            Instr::Rem { .. } => OpCode::Rem,
            Instr::AddW { .. } => OpCode::AddW,
            Instr::SubW { .. } => OpCode::SubW,
            Instr::MulW { .. } => OpCode::MulW,
            Instr::MulHi { .. } => OpCode::MulHi,
            Instr::DivW { .. } => OpCode::DivW,
            Instr::RemW { .. } => OpCode::RemW,
            Instr::And { .. } => OpCode::And,
            Instr::Or { .. } => OpCode::Or,
            Instr::Xor { .. } => OpCode::Xor,
            Instr::Not { .. } => OpCode::Not,
            Instr::Shl { .. } => OpCode::Shl,
            Instr::Shr { .. } => OpCode::Shr,
            Instr::Eq { .. } => OpCode::Eq,
            Instr::LtU { .. } => OpCode::LtU,
            Instr::GtU { .. } => OpCode::GtU,
            Instr::Push { .. } => OpCode::Push,
            Instr::Pop { .. } => OpCode::Pop,
            Instr::MLoad { .. } => OpCode::MLoad,
            Instr::MStore { .. } => OpCode::MStore,
            Instr::Jmp { .. } => OpCode::Jmp,
            Instr::Jz { .. } => OpCode::Jz,
            Instr::Jnz { .. } => OpCode::Jnz,
            Instr::Call { .. } => OpCode::Call,
            Instr::Ret => OpCode::Ret,
            Instr::SLoad { .. } => OpCode::SLoad,
            Instr::SStore { .. } => OpCode::SStore,
            Instr::Send { .. } => OpCode::Send,
            Instr::Emit { .. } => OpCode::Emit,
            Instr::Hash { .. } => OpCode::Hash,
            Instr::VerifyMl { .. } => OpCode::VerifyMl,
            Instr::VerifySlh { .. } => OpCode::VerifySlh,
            Instr::MerkleVerify { .. } => OpCode::MerkleVerify,
            Instr::Kem { .. } => OpCode::Kem,
            Instr::Addr { .. } => OpCode::Addr,
        }
    }

    /// The register operands padded to six, and how many there are.
    fn reg_operands(&self) -> (r: ([u8; 6], usize))
        ensures
            r.1 == regs_of(*self).len(),
            r.1 == reg_count(op_of(*self)),
            forall|j: int| 0 <= j < r.1 ==> r.0@[j] == regs_of(*self)[j],
    {
        match *self {
            Instr::Halt => ([0, 0, 0, 0, 0, 0], 0),
            Instr::Nop => ([0, 0, 0, 0, 0, 0], 0),
            Instr::Mov { d, a } => ([d, a, 0, 0, 0, 0], 2),
            Instr::Ldi { d, imm } => ([d, 0, 0, 0, 0, 0], 1),
            Instr::Ldc { d, idx } => ([d, 0, 0, 0, 0, 0], 1),
            Instr::Add { d, a, b } => ([d, a, b, 0, 0, 0], 3),
            Instr::Sub { d, a, b } => ([d, a, b, 0, 0, 0], 3),
            Instr::Mul { d, a, b } => ([d, a, b, 0, 0, 0], 3),
            Instr::Div { d, a, b } => ([d, a, b, 0, 0, 0], 3),
            Instr::Rem { d, a, b } => ([d, a, b, 0, 0, 0], 3),
            Instr::AddW { d, a, b } => ([d, a, b, 0, 0, 0], 3),
            Instr::SubW { d, a, b } => ([d, a, b, 0, 0, 0], 3),
            Instr::MulW { d, a, b } => ([d, a, b, 0, 0, 0], 3),
            Instr::MulHi { d, a, b } => ([d, a, b, 0, 0, 0], 3),
            Instr::DivW { dlo, dhi, alo, ahi, blo, bhi } => ([dlo, dhi, alo, ahi, blo, bhi], 6),
            Instr::RemW { dlo, dhi, alo, ahi, blo, bhi } => ([dlo, dhi, alo, ahi, blo, bhi], 6),
            Instr::And { d, a, b } => ([d, a, b, 0, 0, 0], 3),
            Instr::Or { d, a, b } => ([d, a, b, 0, 0, 0], 3),
            Instr::Xor { d, a, b } => ([d, a, b, 0, 0, 0], 3),
            Instr::Not { d, a } => ([d, a, 0, 0, 0, 0], 2),
            Instr::Shl { d, a, b } => ([d, a, b, 0, 0, 0], 3),
            Instr::Shr { d, a, b } => ([d, a, b, 0, 0, 0], 3),
            Instr::Eq { d, a, b } => ([d, a, b, 0, 0, 0], 3),
            Instr::LtU { d, a, b } => ([d, a, b, 0, 0, 0], 3),
            Instr::GtU { d, a, b } => ([d, a, b, 0, 0, 0], 3),
            Instr::Push { a } => ([a, 0, 0, 0, 0, 0], 1),
            Instr::Pop { d } => ([d, 0, 0, 0, 0, 0], 1),
            Instr::MLoad { d, a } => ([d, a, 0, 0, 0, 0], 2),
            Instr::MStore { a, b } => ([a, b, 0, 0, 0, 0], 2),
            Instr::Jmp { target } => ([0, 0, 0, 0, 0, 0], 0),
            Instr::Jz { a, target } => ([a, 0, 0, 0, 0, 0], 1),
            Instr::Jnz { a, target } => ([a, 0, 0, 0, 0, 0], 1),
            Instr::Call { target } => ([0, 0, 0, 0, 0, 0], 0),
            Instr::Ret => ([0, 0, 0, 0, 0, 0], 0),
            Instr::SLoad { d, a } => ([d, a, 0, 0, 0, 0], 2),
            Instr::SStore { a, b } => ([a, b, 0, 0, 0, 0], 2),
            Instr::Send { a, b, c } => ([a, b, c, 0, 0, 0], 3),
            Instr::Emit { a, b, c } => ([a, b, c, 0, 0, 0], 3),
            Instr::Hash { a, b, c } => ([a, b, c, 0, 0, 0], 3),
            Instr::VerifyMl { a, b, c } => ([a, b, c, 0, 0, 0], 3),
            Instr::VerifySlh { a, b, c } => ([a, b, c, 0, 0, 0], 3),
            Instr::MerkleVerify { a, b, c } => ([a, b, c, 0, 0, 0], 3),
            Instr::Kem { a, b, c } => ([a, b, c, 0, 0, 0], 3),
            Instr::Addr { a, b, c } => ([a, b, c, 0, 0, 0], 3),
        }
    }

    /// The immediate widened to a word, zero where there is none.
    fn imm_word(&self) -> (r: u64)
        ensures
            r == imm_of(*self),
    {
        match *self {
            Instr::Halt => 0,
            Instr::Nop => 0,
            Instr::Mov { d, a } => 0,
            Instr::Ldi { d, imm } => imm,
            Instr::Ldc { d, idx } => idx as u64,
            Instr::Add { d, a, b } => 0,
            Instr::Sub { d, a, b } => 0,
            Instr::Mul { d, a, b } => 0,
            Instr::Div { d, a, b } => 0,
            Instr::Rem { d, a, b } => 0,
            Instr::AddW { d, a, b } => 0,
            Instr::SubW { d, a, b } => 0,
            Instr::MulW { d, a, b } => 0,
            Instr::MulHi { d, a, b } => 0,
            Instr::DivW { dlo, dhi, alo, ahi, blo, bhi } => 0,
            Instr::RemW { dlo, dhi, alo, ahi, blo, bhi } => 0,
            Instr::And { d, a, b } => 0,
            Instr::Or { d, a, b } => 0,
            Instr::Xor { d, a, b } => 0,
            Instr::Not { d, a } => 0,
            Instr::Shl { d, a, b } => 0,
            Instr::Shr { d, a, b } => 0,
            Instr::Eq { d, a, b } => 0,
            Instr::LtU { d, a, b } => 0,
            Instr::GtU { d, a, b } => 0,
            Instr::Push { a } => 0,
            Instr::Pop { d } => 0,
            Instr::MLoad { d, a } => 0,
            Instr::MStore { a, b } => 0,
            Instr::Jmp { target } => target as u64,
            Instr::Jz { a, target } => target as u64,
            Instr::Jnz { a, target } => target as u64,
            Instr::Call { target } => target as u64,
            Instr::Ret => 0,
            Instr::SLoad { d, a } => 0,
            Instr::SStore { a, b } => 0,
            Instr::Send { a, b, c } => 0,
            Instr::Emit { a, b, c } => 0,
            Instr::Hash { a, b, c } => 0,
            Instr::VerifyMl { a, b, c } => 0,
            Instr::VerifySlh { a, b, c } => 0,
            Instr::MerkleVerify { a, b, c } => 0,
            Instr::Kem { a, b, c } => 0,
            Instr::Addr { a, b, c } => 0,
        }
    }

    /// The instruction with the given opcode, leading register operands and immediate.
    pub(crate) fn from_parts(op: OpCode, regs: &[u8; 6], imm: u64) -> (r: Instr)
        ensures
            r == build(op, regs@, imm),
    {
        match op {
            OpCode::Halt => Instr::Halt,
            OpCode::Nop => Instr::Nop,
            OpCode::Mov => Instr::Mov { d: regs[0], a: regs[1] },
            OpCode::Ldi => Instr::Ldi { d: regs[0], imm: imm },
            OpCode::Ldc => Instr::Ldc { d: regs[0], idx: imm as u16 },
            OpCode::Add => Instr::Add { d: regs[0], a: regs[1], b: regs[2] },
            OpCode::Sub => Instr::Sub { d: regs[0], a: regs[1], b: regs[2] },
            OpCode::Mul => Instr::Mul { d: regs[0], a: regs[1], b: regs[2] },
            OpCode::Div => Instr::Div { d: regs[0], a: regs[1], b: regs[2] },
            OpCode::Rem => Instr::Rem { d: regs[0], a: regs[1], b: regs[2] },
            OpCode::AddW => Instr::AddW { d: regs[0], a: regs[1], b: regs[2] },
            OpCode::SubW => Instr::SubW { d: regs[0], a: regs[1], b: regs[2] },
            OpCode::MulW => Instr::MulW { d: regs[0], a: regs[1], b: regs[2] },
            OpCode::MulHi => Instr::MulHi { d: regs[0], a: regs[1], b: regs[2] },
            OpCode::DivW => Instr::DivW { dlo: regs[0], dhi: regs[1], alo: regs[2], ahi: regs[3], blo: regs[4], bhi: regs[5] },
            OpCode::RemW => Instr::RemW { dlo: regs[0], dhi: regs[1], alo: regs[2], ahi: regs[3], blo: regs[4], bhi: regs[5] },
            OpCode::And => Instr::And { d: regs[0], a: regs[1], b: regs[2] },
            OpCode::Or => Instr::Or { d: regs[0], a: regs[1], b: regs[2] },
            OpCode::Xor => Instr::Xor { d: regs[0], a: regs[1], b: regs[2] },
            OpCode::Not => Instr::Not { d: regs[0], a: regs[1] },
            OpCode::Shl => Instr::Shl { d: regs[0], a: regs[1], b: regs[2] },
            OpCode::Shr => Instr::Shr { d: regs[0], a: regs[1], b: regs[2] },
            OpCode::Eq => Instr::Eq { d: regs[0], a: regs[1], b: regs[2] },
            OpCode::LtU => Instr::LtU { d: regs[0], a: regs[1], b: regs[2] },
            OpCode::GtU => Instr::GtU { d: regs[0], a: regs[1], b: regs[2] },
            OpCode::Push => Instr::Push { a: regs[0] },
            OpCode::Pop => Instr::Pop { d: regs[0] },
            OpCode::MLoad => Instr::MLoad { d: regs[0], a: regs[1] },
            OpCode::MStore => Instr::MStore { a: regs[0], b: regs[1] },
            OpCode::Jmp => Instr::Jmp { target: imm as u32 },
            OpCode::Jz => Instr::Jz { a: regs[0], target: imm as u32 },
            OpCode::Jnz => Instr::Jnz { a: regs[0], target: imm as u32 },
            OpCode::Call => Instr::Call { target: imm as u32 },
            OpCode::Ret => Instr::Ret,
            OpCode::SLoad => Instr::SLoad { d: regs[0], a: regs[1] },
            OpCode::SStore => Instr::SStore { a: regs[0], b: regs[1] },
            OpCode::Send => Instr::Send { a: regs[0], b: regs[1], c: regs[2] },
            OpCode::Emit => Instr::Emit { a: regs[0], b: regs[1], c: regs[2] },
            OpCode::Hash => Instr::Hash { a: regs[0], b: regs[1], c: regs[2] },
            OpCode::VerifyMl => Instr::VerifyMl { a: regs[0], b: regs[1], c: regs[2] },
            OpCode::VerifySlh => Instr::VerifySlh { a: regs[0], b: regs[1], c: regs[2] },
            OpCode::MerkleVerify => Instr::MerkleVerify { a: regs[0], b: regs[1], c: regs[2] },
            OpCode::Kem => Instr::Kem { a: regs[0], b: regs[1], c: regs[2] },
            OpCode::Addr => Instr::Addr { a: regs[0], b: regs[1], c: regs[2] },
        }
    }

    /// Appends the encoding of this instruction: the opcode byte, the register operands,
    /// then the big-endian immediate.
    pub fn encode(&self, out: &mut Vec<u8>)
        ensures
            final(out)@ == old(out)@ + encoding(*self),
    {
        let op = self.opcode();
        out.push(op.to_byte());
        let (regs, n) = self.reg_operands();
        let ghost start = out@;
        let mut k: usize = 0;
        while k < n
            invariant
                k <= n,
                n == regs_of(*self).len(),
                n <= 6,
                forall|j: int| 0 <= j < n ==> regs@[j] == regs_of(*self)[j],
                out@ =~= start + regs_of(*self).subrange(0, k as int),
            decreases n - k,
        {
            out.push(regs[k]);
            k = k + 1;
            assert(out@ =~= start + regs_of(*self).subrange(0, k as int));
        }
        let imm = self.imm_word();
        let w = op.imm_width();
        if w == 2 {
            push_be16(out, imm as u16);
        } else if w == 4 {
            push_be32(out, imm as u32);
        } else if w == 8 {
            push_be64(out, imm);
        }
        assert(regs_of(*self).subrange(0, n as int) =~= regs_of(*self));
        assert(out@ =~= old(out)@ + encoding(*self));
    }

    /// Number of bytes `encode` appends.
    pub fn encoded_len(&self) -> (r: usize)
        ensures
            r == encoding(*self).len(),
    {
        let op = self.opcode();
        1 + op.reg_count() + op.imm_width()
    }
}

/// The big-endian bytes of an immediate of width `w`.
pub open spec fn imm_bytes(w: nat, v: u64) -> Seq<u8> {
    if w == 2 {
        be16(v as u16)
    } else if w == 4 {
        be32(v as u32)
    } else if w == 8 {
        be64(v)
    } else {
        Seq::empty()
    }
}

/// The immediate stored big-endian in the `w` bytes of `s`.
pub open spec fn imm_value(w: nat, s: Seq<u8>) -> u64 {
    if w == 2 {
        word16(s) as u64
    } else if w == 4 {
        word32(s) as u64
    } else if w == 8 {
        word64(s)
    } else {
        0
    }
}

/// The bytes `encode` writes for `i`.
pub open spec fn encoding(i: Instr) -> Seq<u8> {
    seq![opcode_byte(op_of(i))] + regs_of(i) + imm_bytes(imm_width(op_of(i)), imm_of(i))
}

/// Every register operand names one of the `NUM_REGS` registers.
pub open spec fn well_formed(i: Instr) -> bool {
    forall|j: int| 0 <= j < regs_of(i).len() ==> #[trigger] regs_of(i)[j] < NUM_REGS
}

/// The first fault met while reading `n` register operands starting at `at`, if any.
pub open spec fn reg_fault(code: Seq<u8>, at: int, n: nat) -> Option<DecodeError>
    decreases n,
{
    if n == 0 {
        None
    } else if at < 0 || at >= code.len() {
        Some(DecodeError::Truncated)
    } else if code[at] >= NUM_REGS {
        Some(DecodeError::BadRegister(code[at]))
    } else {
        reg_fault(code, at + 1, (n - 1) as nat)
    }
}

/// The instruction encoded at `pc` and its length: the opcode byte, then its register
/// operands (each below `NUM_REGS`), then its big-endian immediate.
pub open spec fn decode_at(code: Seq<u8>, pc: int) -> Result<(Instr, nat), DecodeError> {
    if pc < 0 || pc >= code.len() {
        Err(DecodeError::Truncated)
    } else {
        match byte_opcode(code[pc]) {
            None => Err(DecodeError::UnknownOpcode(code[pc])),
            Some(op) => {
                let n = reg_count(op);
                let w = imm_width(op);
                match reg_fault(code, pc + 1, n) {
                    Some(e) => Err(e),
                    None => if pc + 1 + n + w > code.len() {
                        Err(DecodeError::Truncated)
                    } else {
                        Ok(
                            (
                                build(
                                    op,
                                    code.subrange(pc + 1, pc + 1 + n),
                                    imm_value(w, code.subrange(pc + 1 + n, pc + 1 + n + w)),
                                ),
                                (1 + n + w) as nat,
                            ),
                        )
                    },
                }
            },
        }
    }
}

proof fn lemma_reg_fault_none(code: Seq<u8>, at: int, n: nat)
    requires
        reg_fault(code, at, n) is None,
    ensures
        n > 0 ==> 0 <= at && at + n <= code.len(),
        forall|j: int| at <= j < at + n ==> code[j] < NUM_REGS,
    decreases n,
{
    if n > 0 {
        lemma_reg_fault_none(code, at + 1, (n - 1) as nat);
        assert forall|j: int| at <= j < at + n implies code[j] < NUM_REGS by {
            if j > at {
                assert(at + 1 <= j < at + 1 + (n - 1));
            }
        }
    }
}

proof fn lemma_reg_fault_ok(code: Seq<u8>, at: int, n: nat)
    requires
        0 <= at,
        at + n <= code.len(),
        forall|j: int| at <= j < at + n ==> code[j] < NUM_REGS,
    ensures
        reg_fault(code, at, n) is None,
    decreases n,
{
    if n > 0 {
        lemma_reg_fault_ok(code, at + 1, (n - 1) as nat);
    }
}

/// The leading byte of each opcode names that opcode again, and a byte naming an opcode
/// is that opcode's byte.
pub proof fn lemma_opcode_byte_roundtrip(op: OpCode, b: u8)
    ensures
        byte_opcode(opcode_byte(op)) == Some(op),
        byte_opcode(b) == Some(op) ==> opcode_byte(op) == b,
{
}

/// An instruction is rebuilt from its own parts.
pub proof fn lemma_build_parts(i: Instr)
    ensures
        build(op_of(i), regs_of(i), imm_of(i)) == i,
        regs_of(i).len() == reg_count(op_of(i)),
        imm_bytes(imm_width(op_of(i)), imm_of(i)).len() == imm_width(op_of(i)),
        imm_value(imm_width(op_of(i)), imm_bytes(imm_width(op_of(i)), imm_of(i))) == imm_of(i),
{
    let w = imm_width(op_of(i));
    if w == 2 {
        lemma_word16_be16(imm_of(i) as u16);
    } else if w == 4 {
        lemma_word32_be32(imm_of(i) as u32);
    } else if w == 8 {
        lemma_word64_be64(imm_of(i));
    }
}

/// The register operands of a built instruction are the leading registers it was built from.
pub proof fn lemma_build_regs(op: OpCode, regs: Seq<u8>, imm: u64)
    requires
        regs.len() >= reg_count(op),
    ensures
        op_of(build(op, regs, imm)) == op,
        regs_of(build(op, regs, imm)) =~= regs.subrange(0, reg_count(op) as int),
{
}

/// The parts of a built instruction are the ones it was built from.
pub proof fn lemma_parts_build(op: OpCode, regs: Seq<u8>, imm_src: Seq<u8>)
    requires
        regs.len() == reg_count(op),
        imm_src.len() == imm_width(op),
    ensures
        op_of(build(op, regs, imm_value(imm_width(op), imm_src))) == op,
        regs_of(build(op, regs, imm_value(imm_width(op), imm_src))) =~= regs,
        imm_bytes(imm_width(op), imm_of(build(op, regs, imm_value(imm_width(op), imm_src))))
            =~= imm_src,
{
    let w = imm_width(op);
    if w == 2 {
        lemma_be16_word16(imm_src);
    } else if w == 4 {
        lemma_be32_word32(imm_src);
    } else if w == 8 {
        lemma_be64_word64(imm_src);
    }
}

/// Decoding the encoding of a well-formed instruction, wherever it sits in a stream, gives
/// back that instruction and the length of its encoding.
pub proof fn law_decode_encode(i: Instr, before: Seq<u8>, after: Seq<u8>)
    requires
        well_formed(i),
    ensures
        decode_at(before + encoding(i) + after, before.len() as int) == Ok::<(Instr, nat), DecodeError>(
            (i, encoding(i).len()),
        ),
{
    lemma_build_parts(i);
    let op = op_of(i);
    let code = before + encoding(i) + after;
    let pc = before.len() as int;
    let n = reg_count(op);
    let w = imm_width(op);
    let e = encoding(i);
    assert(e.len() == 1 + n + w);
    assert(code.subrange(pc, pc + e.len()) =~= e);
    assert(code[pc] == opcode_byte(op));
    lemma_opcode_byte_roundtrip(op, 0);
    assert forall|j: int| pc + 1 <= j < pc + 1 + n implies code[j] < NUM_REGS by {
        assert(code[j] == e[j - pc]);
        assert(e[j - pc] == regs_of(i)[j - pc - 1]);
    }
    lemma_reg_fault_ok(code, pc + 1, n);
    assert(code.subrange(pc + 1, pc + 1 + n) =~= regs_of(i));
    assert(code.subrange(pc + 1 + n, pc + 1 + n + w) =~= imm_bytes(w, imm_of(i)));
}

/// What decodes at `pc` is a well-formed instruction whose encoding is exactly the bytes
/// it was read from.
pub proof fn law_encode_decode(code: Seq<u8>, pc: int)
    requires
        decode_at(code, pc) is Ok,
    ensures
        ({
            let (i, n) = decode_at(code, pc)->Ok_0;
            &&& well_formed(i)
            &&& n == encoding(i).len()
            &&& pc + n <= code.len()
            &&& code.subrange(pc, pc + n) =~= encoding(i)
        }),
{
    let op = byte_opcode(code[pc])->Some_0;
    lemma_opcode_byte_roundtrip(op, code[pc]);
    let n = reg_count(op);
    let w = imm_width(op);
    lemma_reg_fault_none(code, pc + 1, n);
    let regs = code.subrange(pc + 1, pc + 1 + n);
    let imm_src = code.subrange(pc + 1 + n, pc + 1 + n + w);
    lemma_parts_build(op, regs, imm_src);
    let i = build(op, regs, imm_value(w, imm_src));
    assert forall|j: int| 0 <= j < regs_of(i).len() implies #[trigger] regs_of(i)[j] < NUM_REGS by {
        assert(regs_of(i)[j] == regs[j]);
        assert(regs[j] == code[pc + 1 + j]);
    }
    assert(code.subrange(pc, pc + 1 + n + w) =~= encoding(i));
}

/// Decode one instruction at `pc`. Returns the instruction and the number of bytes consumed.
pub fn decode(code: &[u8], pc: usize) -> (r: Result<(Instr, usize), DecodeError>)
    ensures
        match decode_at(code@, pc as int) {
            Ok((i, n)) => r == Ok::<(Instr, usize), DecodeError>((i, n as usize)),
            Err(e) => r == Err::<(Instr, usize), DecodeError>(e),
        },
{
    if pc >= code.len() {
        return Err(DecodeError::Truncated);
    }
    let b = code[pc];
    let op = match OpCode::from_byte(b) {
        Some(op) => op,
        None => return Err(DecodeError::UnknownOpcode(b)),
    };
    let n = op.reg_count();
    let w = op.imm_width();
    let len = code.len();
    let mut regs: [u8; 6] = [0u8; 6];
    let mut k: usize = 0;
    while k < n
        invariant
            len == code@.len(),
            byte_opcode(code@[pc as int]) == Some(op),
            k <= n,
            n == reg_count(op),
            n <= 6,
            pc < code@.len(),
            pc + 1 + k <= code@.len(),
            reg_fault(code@, pc + 1, n as nat) == reg_fault(code@, pc + 1 + k, (n - k) as nat),
            forall|j: int| 0 <= j < k ==> regs@[j] == code@[pc + 1 + j],
        decreases n - k,
    {
        let at = pc + 1 + k;
        if at >= len {
            assert(reg_fault(code@, at as int, (n - k) as nat) == Some(DecodeError::Truncated));
            return Err(DecodeError::Truncated);
        }
        let x = code[at];
        if x as usize >= NUM_REGS {
            assert(reg_fault(code@, at as int, (n - k) as nat) == Some(DecodeError::BadRegister(x)));
            return Err(DecodeError::BadRegister(x));
        }
        regs[k] = x;
        k = k + 1;
    }
    let start = pc + 1 + n;
    if w > code.len() - start {
        return Err(DecodeError::Truncated);
    }
    let imm: u64 = if w == 2 {
        read_be16(code, start) as u64
    } else if w == 4 {
        read_be32(code, start) as u64
    } else if w == 8 {
        read_be64(code, start)
    } else {
        0
    };
    let instr = Instr::from_parts(op, &regs, imm);
    proof {
        let s = code@.subrange(pc + 1, pc + 1 + n);
        assert(build(op, regs@, imm) == build(op, s, imm));
    }
    Ok((instr, 1 + n + w))
}


/// Every register operand, field by field, names one of the `NUM_REGS` registers.
pub open spec fn regs_in_range(i: Instr) -> bool {
    match i {
        Instr::Mov { d, a, .. } => d < NUM_REGS && a < NUM_REGS,
        Instr::Ldi { d, .. } => d < NUM_REGS,
        Instr::Ldc { d, .. } => d < NUM_REGS,
        Instr::Add { d, a, b, .. } => d < NUM_REGS && a < NUM_REGS && b < NUM_REGS,
        Instr::Sub { d, a, b, .. } => d < NUM_REGS && a < NUM_REGS && b < NUM_REGS,
        Instr::Mul { d, a, b, .. } => d < NUM_REGS && a < NUM_REGS && b < NUM_REGS,
        Instr::Div { d, a, b, .. } => d < NUM_REGS && a < NUM_REGS && b < NUM_REGS,
        Instr::Rem { d, a, b, .. } => d < NUM_REGS && a < NUM_REGS && b < NUM_REGS,
        Instr::AddW { d, a, b, .. } => d < NUM_REGS && a < NUM_REGS && b < NUM_REGS,
        Instr::SubW { d, a, b, .. } => d < NUM_REGS && a < NUM_REGS && b < NUM_REGS,
        Instr::MulW { d, a, b, .. } => d < NUM_REGS && a < NUM_REGS && b < NUM_REGS,
        Instr::MulHi { d, a, b, .. } => d < NUM_REGS && a < NUM_REGS && b < NUM_REGS,
        Instr::DivW { dlo, dhi, alo, ahi, blo, bhi, .. } => dlo < NUM_REGS && dhi < NUM_REGS && alo < NUM_REGS && ahi < NUM_REGS && blo < NUM_REGS && bhi < NUM_REGS,
        Instr::RemW { dlo, dhi, alo, ahi, blo, bhi, .. } => dlo < NUM_REGS && dhi < NUM_REGS && alo < NUM_REGS && ahi < NUM_REGS && blo < NUM_REGS && bhi < NUM_REGS,
        Instr::And { d, a, b, .. } => d < NUM_REGS && a < NUM_REGS && b < NUM_REGS,
        Instr::Or { d, a, b, .. } => d < NUM_REGS && a < NUM_REGS && b < NUM_REGS,
        Instr::Xor { d, a, b, .. } => d < NUM_REGS && a < NUM_REGS && b < NUM_REGS,
        Instr::Not { d, a, .. } => d < NUM_REGS && a < NUM_REGS,
        Instr::Shl { d, a, b, .. } => d < NUM_REGS && a < NUM_REGS && b < NUM_REGS,
        Instr::Shr { d, a, b, .. } => d < NUM_REGS && a < NUM_REGS && b < NUM_REGS,
        Instr::Eq { d, a, b, .. } => d < NUM_REGS && a < NUM_REGS && b < NUM_REGS,
        Instr::LtU { d, a, b, .. } => d < NUM_REGS && a < NUM_REGS && b < NUM_REGS,
        Instr::GtU { d, a, b, .. } => d < NUM_REGS && a < NUM_REGS && b < NUM_REGS,
        Instr::Push { a, .. } => a < NUM_REGS,
        Instr::Pop { d, .. } => d < NUM_REGS,
        Instr::MLoad { d, a, .. } => d < NUM_REGS && a < NUM_REGS,
        Instr::MStore { a, b, .. } => a < NUM_REGS && b < NUM_REGS,
        Instr::Jz { a, .. } => a < NUM_REGS,
        Instr::Jnz { a, .. } => a < NUM_REGS,
        Instr::SLoad { d, a, .. } => d < NUM_REGS && a < NUM_REGS,
        Instr::SStore { a, b, .. } => a < NUM_REGS && b < NUM_REGS,
        Instr::Send { a, b, c, .. } => a < NUM_REGS && b < NUM_REGS && c < NUM_REGS,
        Instr::Emit { a, b, c, .. } => a < NUM_REGS && b < NUM_REGS && c < NUM_REGS,
        Instr::Hash { a, b, c, .. } => a < NUM_REGS && b < NUM_REGS && c < NUM_REGS,
        Instr::VerifyMl { a, b, c, .. } => a < NUM_REGS && b < NUM_REGS && c < NUM_REGS,
        Instr::VerifySlh { a, b, c, .. } => a < NUM_REGS && b < NUM_REGS && c < NUM_REGS,
        Instr::MerkleVerify { a, b, c, .. } => a < NUM_REGS && b < NUM_REGS && c < NUM_REGS,
        Instr::Kem { a, b, c, .. } => a < NUM_REGS && b < NUM_REGS && c < NUM_REGS,
        Instr::Addr { a, b, c, .. } => a < NUM_REGS && b < NUM_REGS && c < NUM_REGS,
        _ => true,
    }
}

/// A well-formed instruction has each of its register fields in range.
pub proof fn lemma_well_formed_fields(i: Instr)
    requires
        well_formed(i),
    ensures
        regs_in_range(i),
{
    let r = regs_of(i);
    if r.len() > 0 {
        assert(r[0] < NUM_REGS);
    }
    if r.len() > 1 {
        assert(r[1] < NUM_REGS);
    }
    if r.len() > 2 {
        assert(r[2] < NUM_REGS);
    }
    if r.len() > 3 {
        assert(r[3] < NUM_REGS);
    }
    if r.len() > 4 {
        assert(r[4] < NUM_REGS);
    }
    if r.len() > 5 {
        assert(r[5] < NUM_REGS);
    }
}

/// Whether the code decodes instruction after instruction from `pc` up to exactly its end.
pub open spec fn decodes_from(code: Seq<u8>, pc: nat) -> bool
    decreases code.len() - pc,
{
    if pc >= code.len() {
        pc == code.len()
    } else {
        match decode_at(code, pc as int) {
            Ok((_, n)) => n > 0 && decodes_from(code, pc + n),
            Err(_) => false,
        }
    }
}

/// Appending the encoding of a well-formed instruction to code that decodes from `pc` to
/// its end gives code that still does.
pub proof fn lemma_decodes_append(code: Seq<u8>, pc: nat, i: Instr)
    requires
        pc <= code.len(),
        decodes_from(code, pc),
        well_formed(i),
    ensures
        decodes_from(code + encoding(i), pc),
    decreases code.len() - pc,
{
    let e = encoding(i);
    let whole = code + e;
    if pc == code.len() {
        law_decode_encode(i, code, Seq::empty());
        assert(code + e + Seq::<u8>::empty() =~= whole);
        lemma_build_parts(i);
        assert(decodes_from(whole, pc + e.len()));
    } else {
        let (j, n) = decode_at(code, pc as int)->Ok_0;
        law_encode_decode(code, pc as int);
        let before = code.subrange(0, pc as int);
        let after = code.subrange((pc + n) as int, code.len() as int) + e;
        assert(before + encoding(j) + after =~= whole);
        law_decode_encode(j, before, after);
        lemma_decodes_append(code, pc + n, i);
    }
}

/// The opcode byte table, by value: each opcode is encoded by its byte, and that byte decodes
/// back to it. No other byte names an opcode (`lemma_opcode_byte_roundtrip`).
pub proof fn law_opcode_bytes()
    ensures
        opcode_byte(OpCode::Halt) == 0x00u8,
        byte_opcode(0x00u8) == Some(OpCode::Halt),
        opcode_byte(OpCode::Nop) == 0x01u8,
        byte_opcode(0x01u8) == Some(OpCode::Nop),
        opcode_byte(OpCode::Mov) == 0x02u8,
        byte_opcode(0x02u8) == Some(OpCode::Mov),
        opcode_byte(OpCode::Ldi) == 0x03u8,
        byte_opcode(0x03u8) == Some(OpCode::Ldi),
        opcode_byte(OpCode::Ldc) == 0x04u8,
        byte_opcode(0x04u8) == Some(OpCode::Ldc),
        opcode_byte(OpCode::Add) == 0x10u8,
        byte_opcode(0x10u8) == Some(OpCode::Add),
        opcode_byte(OpCode::Sub) == 0x11u8,
        byte_opcode(0x11u8) == Some(OpCode::Sub),
        opcode_byte(OpCode::Mul) == 0x12u8,
        byte_opcode(0x12u8) == Some(OpCode::Mul),
        opcode_byte(OpCode::Div) == 0x13u8,
        byte_opcode(0x13u8) == Some(OpCode::Div),
        opcode_byte(OpCode::Rem) == 0x14u8,
        byte_opcode(0x14u8) == Some(OpCode::Rem),
        opcode_byte(OpCode::AddW) == 0x18u8,
        byte_opcode(0x18u8) == Some(OpCode::AddW),
        opcode_byte(OpCode::SubW) == 0x19u8,
        byte_opcode(0x19u8) == Some(OpCode::SubW),
        opcode_byte(OpCode::MulW) == 0x1au8,
        byte_opcode(0x1au8) == Some(OpCode::MulW),
        opcode_byte(OpCode::MulHi) == 0x1bu8,
        byte_opcode(0x1bu8) == Some(OpCode::MulHi),
        opcode_byte(OpCode::DivW) == 0x1cu8,
        byte_opcode(0x1cu8) == Some(OpCode::DivW),
        opcode_byte(OpCode::RemW) == 0x1du8,
        byte_opcode(0x1du8) == Some(OpCode::RemW),
        opcode_byte(OpCode::And) == 0x20u8,
        byte_opcode(0x20u8) == Some(OpCode::And),
        opcode_byte(OpCode::Or) == 0x21u8,
        byte_opcode(0x21u8) == Some(OpCode::Or),
        opcode_byte(OpCode::Xor) == 0x22u8,
        byte_opcode(0x22u8) == Some(OpCode::Xor),
        opcode_byte(OpCode::Not) == 0x23u8,
        byte_opcode(0x23u8) == Some(OpCode::Not),
        opcode_byte(OpCode::Shl) == 0x24u8,
        byte_opcode(0x24u8) == Some(OpCode::Shl),
        opcode_byte(OpCode::Shr) == 0x25u8,
        byte_opcode(0x25u8) == Some(OpCode::Shr),
        opcode_byte(OpCode::Eq) == 0x28u8,
        byte_opcode(0x28u8) == Some(OpCode::Eq),
        opcode_byte(OpCode::LtU) == 0x29u8,
        byte_opcode(0x29u8) == Some(OpCode::LtU),
        opcode_byte(OpCode::GtU) == 0x2au8,
        byte_opcode(0x2au8) == Some(OpCode::GtU),
        opcode_byte(OpCode::Push) == 0x30u8,
        byte_opcode(0x30u8) == Some(OpCode::Push),
        opcode_byte(OpCode::Pop) == 0x31u8,
        byte_opcode(0x31u8) == Some(OpCode::Pop),
        opcode_byte(OpCode::MLoad) == 0x38u8,
        byte_opcode(0x38u8) == Some(OpCode::MLoad),
        opcode_byte(OpCode::MStore) == 0x39u8,
        byte_opcode(0x39u8) == Some(OpCode::MStore),
        opcode_byte(OpCode::Jmp) == 0x40u8,
        byte_opcode(0x40u8) == Some(OpCode::Jmp),
        opcode_byte(OpCode::Jz) == 0x41u8,
        byte_opcode(0x41u8) == Some(OpCode::Jz),
        opcode_byte(OpCode::Jnz) == 0x42u8,
        byte_opcode(0x42u8) == Some(OpCode::Jnz),
        opcode_byte(OpCode::Call) == 0x43u8,
        byte_opcode(0x43u8) == Some(OpCode::Call),
        opcode_byte(OpCode::Ret) == 0x44u8,
        byte_opcode(0x44u8) == Some(OpCode::Ret),
        opcode_byte(OpCode::SLoad) == 0x50u8,
        byte_opcode(0x50u8) == Some(OpCode::SLoad),
        opcode_byte(OpCode::SStore) == 0x51u8,
        byte_opcode(0x51u8) == Some(OpCode::SStore),
        opcode_byte(OpCode::Send) == 0x60u8,
        byte_opcode(0x60u8) == Some(OpCode::Send),
        opcode_byte(OpCode::Emit) == 0x61u8,
        byte_opcode(0x61u8) == Some(OpCode::Emit),
        opcode_byte(OpCode::Hash) == 0x70u8,
        byte_opcode(0x70u8) == Some(OpCode::Hash),
        opcode_byte(OpCode::VerifyMl) == 0x71u8,
        byte_opcode(0x71u8) == Some(OpCode::VerifyMl),
        opcode_byte(OpCode::VerifySlh) == 0x72u8,
        byte_opcode(0x72u8) == Some(OpCode::VerifySlh),
        opcode_byte(OpCode::MerkleVerify) == 0x73u8,
        byte_opcode(0x73u8) == Some(OpCode::MerkleVerify),
        opcode_byte(OpCode::Kem) == 0x75u8,
        byte_opcode(0x75u8) == Some(OpCode::Kem),
        opcode_byte(OpCode::Addr) == 0x76u8,
        byte_opcode(0x76u8) == Some(OpCode::Addr),
{
}

/// Decoding takes the opcode from the leading byte: whatever decodes at `pc` is an
/// instruction of the opcode that byte names.
pub proof fn law_decoded_opcode(code: Seq<u8>, pc: int)
    ensures
        decode_at(code, pc) matches Ok((i, _)) ==> 0 <= pc < code.len() && byte_opcode(code[pc])
            == Some(op_of(i)),
{
    if let Ok((i, _)) = decode_at(code, pc) {
        let op = byte_opcode(code[pc])->Some_0;
        let n = reg_count(op);
        let w = imm_width(op);
        lemma_build_regs(op, code.subrange(pc + 1, pc + 1 + n), imm_value(w, code.subrange(pc + 1 + n, pc + 1 + n + w)));
    }
}

} // verus!
