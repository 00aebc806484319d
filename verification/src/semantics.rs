//! The meaning of a run: the state of the machine and its meter, what each instruction does
//! to it, and where a run ends.
use vstd::prelude::*;
use crate::bytes::{be32, be64, word64};
use crate::crypto::{
    region, with_reg, hash_op, verify_ml_op, verify_slh_op, merkle_verify_op, kem_op, address_op,
    ML_DSA_SIGNED_BYTES, SLH_DSA_SIGNED_BYTES, MERKLE_HEADER,
};
use crate::interp::Fault;
use crate::isa::{Instr, OpCode, Reg, NUM_REGS, decode_at, op_of};
use crate::meter::{meter_cost, sat_mul, keccak_blocks, HASH_BLOCK, VERIFY_MESSAGE_BLOCK, MERKLE_LEVEL, EFFECT_BYTE, EFFECTS_BYTES_CAP};
use crate::state::{MachineState, STACK_LIMIT, WORD_BYTES, write_bytes, initial_machine};
use crate::primitives::sha3_256_of;
use crate::storage::{Slot, slot_of_bytes, STORAGE_KEY_BYTES};

verus! {

/// A recorded effect, by value.
pub enum EffectView {
    Transfer { to: Seq<u8>, amount: u64 },
    Event { selector: Seq<u8>, data: Seq<u8> },
}

/// The access an entry declared, as the sets the machine checks against.
pub struct ManifestView {
    pub reads: Set<Slot>,
    pub writes: Set<Slot>,
    pub keyed_reads: Set<u64>,
    pub keyed_writes: Set<u64>,
    pub boundaries: Set<u32>,
}

/// Everything a run reads and changes.
pub struct VmState {
    pub code: Seq<u8>,
    pub consts: Seq<u64>,
    pub machine: MachineState,
    pub meter_limit: u64,
    pub meter_used: u64,
    pub storage: Map<Slot, u64>,
    pub effects: Seq<EffectView>,
    pub effects_bytes: u64,
    pub manifest: Option<ManifestView>,
    pub auth_reads: Set<Slot>,
    pub auth_writes: Set<Slot>,
}

/// What a clean halt surfaces.
pub struct OutcomeView {
    pub regs: Seq<u64>,
    pub meter_used: u64,
    pub storage: Map<Slot, u64>,
    pub effects: Seq<EffectView>,
}

/// Where control goes after an instruction.
#[derive(Debug, Clone, Copy, PartialEq, Eq, Structural)]
pub enum Control {
    Next,
    Halt,
    JumpTo(u32),
}

/// The state a run over `code` and `consts` with a meter of `limit` starts from, without an
/// entry manifest.
pub open spec fn initial_state(code: Seq<u8>, consts: Seq<u64>, limit: u64) -> VmState {
    VmState {
        code,
        consts,
        machine: initial_machine(),
        meter_limit: limit,
        meter_used: 0,
        storage: Map::empty(),
        effects: Seq::empty(),
        effects_bytes: 0,
        manifest: None,
        auth_reads: Set::empty(),
        auth_writes: Set::empty(),
    }
}

/// `x - y`, or zero when `y` is larger.
pub open spec fn sat_sub(x: u64, y: u64) -> u64 {
    if x >= y {
        (x - y) as u64
    } else {
        0
    }
}

/// The instructions that only touch registers, the stack and memory.
pub open spec fn is_machine_op(i: Instr) -> bool {
    match i {
        Instr::Mov { .. } | Instr::Ldi { .. } | Instr::Ldc { .. } | Instr::Add { .. } | Instr::Sub {
            ..
        } | Instr::Mul { .. } | Instr::Div { .. } | Instr::Rem { .. } | Instr::AddW { .. }
        | Instr::SubW { .. } | Instr::MulW { .. } | Instr::MulHi { .. } | Instr::DivW { .. }
        | Instr::RemW { .. } | Instr::And { .. } | Instr::Or { .. } | Instr::Xor { .. } | Instr::Not {
            ..
        } | Instr::Shl { .. } | Instr::Shr { .. } | Instr::Eq { .. } | Instr::LtU { .. }
        | Instr::GtU { .. } | Instr::Push { .. } | Instr::Pop { .. } | Instr::MLoad { .. }
        | Instr::MStore { .. } => true,
        _ => false,
    }
}

/// 2^64.
pub open spec fn word_span() -> int {
    0x1_0000_0000_0000_0000
}

/// The 128-bit value whose high and low words are `hi` and `lo`.
pub open spec fn wide(hi: u64, lo: u64) -> int {
    hi * word_span() + lo
}

/// A condition as a word: 1 when it holds, 0 when not.
pub open spec fn flag(b: bool) -> u64 {
    if b {
        1
    } else {
        0
    }
}

/// What an instruction that only touches registers, the stack and memory does.
///
/// DivW and RemW are this library's own 128-bit division: they divide `ahi:alo` by `bhi:blo`,
/// each pair read as high and low words, and write the quotient (DivW) or remainder (RemW) to
/// `dhi:dlo`; a zero divisor faults. The instruction format fixes only their six register
/// operands, so this meaning is chosen here.
pub open spec fn machine_step(m: MachineState, consts: Seq<u64>, i: Instr) -> Result<
    MachineState,
    Fault,
> {
    let r = m.regs;
    match i {
        Instr::Mov { d, a } => Ok(with_reg(m, d, r[a as int])),
        Instr::Ldi { d, imm } => Ok(with_reg(m, d, imm)),
        Instr::Ldc { d, idx } => if (idx as int) < consts.len() {
            Ok(with_reg(m, d, consts[idx as int]))
        } else {
            Err(Fault::BadConst)
        },
        Instr::Add { d, a, b } => if r[a as int] + r[b as int] > u64::MAX {
            Err(Fault::Overflow)
        } else {
            Ok(with_reg(m, d, (r[a as int] + r[b as int]) as u64))
        },
        Instr::Sub { d, a, b } => if r[a as int] < r[b as int] {
            Err(Fault::Overflow)
        } else {
            Ok(with_reg(m, d, (r[a as int] - r[b as int]) as u64))
        },
        Instr::Mul { d, a, b } => if r[a as int] * r[b as int] > u64::MAX {
            Err(Fault::Overflow)
        } else {
            Ok(with_reg(m, d, (r[a as int] * r[b as int]) as u64))
        },
        Instr::Div { d, a, b } => if r[b as int] == 0 {
            Err(Fault::DivByZero)
        } else {
            Ok(with_reg(m, d, r[a as int] / r[b as int]))
        },
        Instr::Rem { d, a, b } => if r[b as int] == 0 {
            Err(Fault::DivByZero)
        } else {
            Ok(with_reg(m, d, r[a as int] % r[b as int]))
        },
        Instr::AddW { d, a, b } => Ok(with_reg(m, d, r[a as int].wrapping_add(r[b as int]))),
        Instr::SubW { d, a, b } => Ok(with_reg(m, d, r[a as int].wrapping_sub(r[b as int]))),
        Instr::MulW { d, a, b } => Ok(with_reg(m, d, r[a as int].wrapping_mul(r[b as int]))),
        Instr::MulHi { d, a, b } => Ok(
            with_reg(m, d, ((r[a as int] * r[b as int]) / word_span()) as u64),
        ),
        Instr::DivW { dlo, dhi, alo, ahi, blo, bhi } => {
            let n = wide(r[ahi as int], r[alo as int]);
            let v = wide(r[bhi as int], r[blo as int]);
            if v == 0 {
                Err(Fault::DivByZero)
            } else {
                let q = n / v;
                Ok(
                    with_reg(
                        with_reg(m, dlo, (q % word_span()) as u64),
                        dhi,
                        (q / word_span()) as u64,
                    ),
                )
            }
        },
        Instr::RemW { dlo, dhi, alo, ahi, blo, bhi } => {
            let n = wide(r[ahi as int], r[alo as int]);
            let v = wide(r[bhi as int], r[blo as int]);
            if v == 0 {
                Err(Fault::DivByZero)
            } else {
                let q = n % v;
                Ok(
                    with_reg(
                        with_reg(m, dlo, (q % word_span()) as u64),
                        dhi,
                        (q / word_span()) as u64,
                    ),
                )
            }
        },
        Instr::And { d, a, b } => Ok(with_reg(m, d, r[a as int] & r[b as int])),
        Instr::Or { d, a, b } => Ok(with_reg(m, d, r[a as int] | r[b as int])),
        Instr::Xor { d, a, b } => Ok(with_reg(m, d, r[a as int] ^ r[b as int])),
        Instr::Not { d, a } => Ok(with_reg(m, d, !r[a as int])),
        Instr::Shl { d, a, b } => Ok(with_reg(m, d, r[a as int] << (r[b as int] & 63u64))),
        Instr::Shr { d, a, b } => Ok(with_reg(m, d, r[a as int] >> (r[b as int] & 63u64))),
        Instr::Eq { d, a, b } => Ok(with_reg(m, d, flag(r[a as int] == r[b as int]))),
        Instr::LtU { d, a, b } => Ok(with_reg(m, d, flag(r[a as int] < r[b as int]))),
        Instr::GtU { d, a, b } => Ok(with_reg(m, d, flag(r[a as int] > r[b as int]))),
        Instr::Push { a } => if m.stack.len() >= STACK_LIMIT {
            Err(Fault::StackOverflow)
        } else {
            Ok(MachineState { stack: m.stack.push(r[a as int]), ..m })
        },
        Instr::Pop { d } => if m.stack.len() == 0 {
            Err(Fault::StackUnderflow)
        } else {
            Ok(with_reg(MachineState { stack: m.stack.drop_last(), ..m }, d, m.stack.last()))
        },
        Instr::MLoad { d, a } => if r[a as int] + WORD_BYTES > m.mem.len() {
            Err(Fault::BadMemory)
        } else {
            Ok(
                with_reg(
                    m,
                    d,
                    word64(m.mem.subrange(r[a as int] as int, r[a as int] + WORD_BYTES)),
                ),
            )
        },
        Instr::MStore { a, b } => if r[a as int] + WORD_BYTES > m.mem.len() {
            Err(Fault::BadMemory)
        } else {
            Ok(
                MachineState {
                    mem: write_bytes(m.mem, r[a as int] as int, be64(r[b as int])),
                    ..m
                },
            )
        },
        _ => Ok(m),
    }
}

/// `s` with its machine replaced.
pub open spec fn with_machine(s: VmState, m: MachineState) -> VmState {
    VmState { machine: m, ..s }
}

/// Charges `amount` to the meter, faulting when it would pass the limit.
pub open spec fn charge(s: VmState, amount: u64) -> Result<VmState, Fault> {
    if s.meter_used + amount > s.meter_limit {
        Err(Fault::OutOfMeter)
    } else {
        Ok(VmState { meter_used: (s.meter_used + amount) as u64, ..s })
    }
}

/// Charges for recording an effect of `n` bytes and counts them against the effects cap.
pub open spec fn charge_effect(s: VmState, n: u64) -> Result<VmState, Fault> {
    if n * EFFECT_BYTE > u64::MAX {
        Err(Fault::OutOfMeter)
    } else {
        match charge(s, (n * EFFECT_BYTE) as u64) {
            Err(f) => Err(f),
            Ok(s1) => if s1.effects_bytes + n > EFFECTS_BYTES_CAP {
                Err(Fault::EffectsTooLarge)
            } else {
                Ok(VmState { effects_bytes: (s1.effects_bytes + n) as u64, ..s1 })
            },
        }
    }
}

/// Whether `target` is a place a jump may land: an instruction boundary under an entry
/// manifest, anywhere inside the code otherwise.
pub open spec fn target_ok(s: VmState, target: u32) -> bool {
    match s.manifest {
        Some(man) => man.boundaries.contains(target),
        None => (target as int) < s.code.len(),
    }
}

/// What a control-flow instruction does. `s.machine.pc` is already past the instruction.
pub open spec fn control_step(s: VmState, i: Instr) -> Result<(VmState, Control), Fault> {
    let m = s.machine;
    match i {
        Instr::Jmp { target } => if target_ok(s, target) {
            Ok((s, Control::JumpTo(target)))
        } else {
            Err(Fault::BadJump)
        },
        Instr::Jz { a, target } => if m.regs[a as int] == 0 {
            if target_ok(s, target) {
                Ok((s, Control::JumpTo(target)))
            } else {
                Err(Fault::BadJump)
            }
        } else {
            Ok((s, Control::Next))
        },
        Instr::Jnz { a, target } => if m.regs[a as int] != 0 {
            if target_ok(s, target) {
                Ok((s, Control::JumpTo(target)))
            } else {
                Err(Fault::BadJump)
            }
        } else {
            Ok((s, Control::Next))
        },
        Instr::Call { target } => if m.stack.len() >= STACK_LIMIT {
            Err(Fault::StackOverflow)
        } else if !target_ok(s, target) {
            Err(Fault::BadJump)
        } else {
            Ok(
                (
                    with_machine(s, MachineState { stack: m.stack.push(m.pc as u64), ..m }),
                    Control::JumpTo(target),
                ),
            )
        },
        Instr::Ret => if m.stack.len() == 0 {
            Err(Fault::StackUnderflow)
        } else {
            let ret = m.stack.last();
            let s1 = with_machine(s, MachineState { stack: m.stack.drop_last(), ..m });
            if ret > u32::MAX || !target_ok(s, ret as u32) {
                Err(Fault::BadJump)
            } else {
                Ok((s1, Control::JumpTo(ret as u32)))
            }
        },
        _ => Ok((s, Control::Next)),
    }
}

/// Whether the entry may read `slot`: a declared read or write, or a key derived from a
/// declared map base. Without a manifest every slot may be read.
pub open spec fn may_read(s: VmState, slot: Slot) -> bool {
    match s.manifest {
        None => true,
        Some(man) => man.reads.contains(slot) || man.writes.contains(slot) || s.auth_reads.contains(
            slot,
        ),
    }
}

/// Whether the entry may write `slot`: a declared write, or a key derived from a declared
/// writable map base. Without a manifest every slot may be written.
pub open spec fn may_write(s: VmState, slot: Slot) -> bool {
    match s.manifest {
        None => true,
        Some(man) => man.writes.contains(slot) || s.auth_writes.contains(slot),
    }
}

/// What SLOAD and SSTORE do: the key is the 32 bytes at the address register.
pub open spec fn storage_step(s: VmState, i: Instr) -> Result<VmState, Fault> {
    let m = s.machine;
    match i {
        Instr::SLoad { d, a } => match region(m, m.regs[a as int], STORAGE_KEY_BYTES as u64) {
            None => Err(Fault::BadMemory),
            Some(key) => {
                let slot = slot_of_bytes(key);
                if !may_read(s, slot) {
                    Err(Fault::UndeclaredSlot)
                } else {
                    let v = if s.storage.contains_key(slot) {
                        s.storage[slot]
                    } else {
                        0
                    };
                    Ok(with_machine(s, with_reg(m, d, v)))
                }
            },
        },
        Instr::SStore { a, b } => match region(m, m.regs[a as int], STORAGE_KEY_BYTES as u64) {
            None => Err(Fault::BadMemory),
            Some(key) => {
                let slot = slot_of_bytes(key);
                if !may_write(s, slot) {
                    Err(Fault::UndeclaredSlot)
                } else {
                    Ok(VmState { storage: s.storage.insert(slot, m.regs[b as int]), ..s })
                }
            },
        },
        _ => Ok(s),
    }
}

/// What SEND and EMIT do: charge per byte, then record the effect.
pub open spec fn effect_step(s: VmState, i: Instr) -> Result<VmState, Fault> {
    let m = s.machine;
    match i {
        Instr::Send { a, b, c } => match region(m, m.regs[a as int], m.regs[b as int]) {
            None => Err(Fault::BadMemory),
            Some(to) => match charge_effect(s, to.len() as u64) {
                Err(f) => Err(f),
                Ok(s1) => Ok(
                    VmState {
                        effects: s1.effects.push(
                            EffectView::Transfer { to, amount: m.regs[c as int] },
                        ),
                        ..s1
                    },
                ),
            },
        },
        Instr::Emit { a, b, c } => match region(m, m.regs[a as int], m.regs[b as int]) {
            None => Err(Fault::BadMemory),
            Some(data) => match charge_effect(s, data.len() as u64) {
                Err(f) => Err(f),
                Ok(s1) => Ok(
                    VmState {
                        effects: s1.effects.push(
                            EffectView::Event { selector: be32(m.regs[c as int] as u32), data },
                        ),
                        ..s1
                    },
                ),
            },
        },
        _ => Ok(s),
    }
}

/// After a HASH, a digest of a preimage whose first word is a declared map base becomes a key
/// the entry may use: readable for a read or write base, writable for a write base.
pub open spec fn taint(s: VmState, preimage: u64, len: u64, out: u64) -> VmState {
    if len < 8 {
        s
    } else {
        match region(s.machine, preimage, 8) {
            None => s,
            Some(head) => {
                let base = word64(head);
                match s.manifest {
                    None => s,
                    Some(man) => {
                        let is_write = man.keyed_writes.contains(base);
                        let is_read = is_write || man.keyed_reads.contains(base);
                        if !is_read {
                            s
                        } else {
                            match region(s.machine, out, STORAGE_KEY_BYTES as u64) {
                                None => s,
                                Some(key) => {
                                    let slot = slot_of_bytes(key);
                                    VmState {
                                        auth_writes: if is_write {
                                            s.auth_writes.insert(slot)
                                        } else {
                                            s.auth_writes
                                        },
                                        auth_reads: s.auth_reads.insert(slot),
                                        ..s
                                    }
                                },
                            }
                        }
                    },
                }
            },
        }
    }
}

/// Runs a machine-level crypto operation on the state's machine.
pub open spec fn lift(s: VmState, r: Result<MachineState, Fault>) -> Result<VmState, Fault> {
    match r {
        Ok(m) => Ok(with_machine(s, m)),
        Err(f) => Err(f),
    }
}

/// What the crypto opcodes do: charge the length-scaled part first, then run the primitive.
pub open spec fn crypto_step(s: VmState, i: Instr) -> Result<VmState, Fault> {
    let m = s.machine;
    match i {
        Instr::Hash { a, b, c } => {
            let len = m.regs[b as int];
            match charge(s, sat_mul(keccak_blocks(len), HASH_BLOCK)) {
                Err(f) => Err(f),
                Ok(s1) => match hash_op(m, a, b, c) {
                    Err(f) => Err(f),
                    Ok(m2) => Ok(
                        taint(with_machine(s1, m2), m.regs[a as int], len, m.regs[c as int]),
                    ),
                },
            }
        },
        Instr::VerifyMl { a, b, c } => {
            let tail = sat_sub(m.regs[b as int], ML_DSA_SIGNED_BYTES);
            match charge(s, sat_mul(keccak_blocks(tail), VERIFY_MESSAGE_BLOCK)) {
                Err(f) => Err(f),
                Ok(s1) => lift(s1, verify_ml_op(m, a, b, c)),
            }
        },
        Instr::VerifySlh { a, b, c } => {
            let tail = sat_sub(m.regs[b as int], SLH_DSA_SIGNED_BYTES);
            match charge(s, sat_mul(keccak_blocks(tail), VERIFY_MESSAGE_BLOCK)) {
                Err(f) => Err(f),
                Ok(s1) => lift(s1, verify_slh_op(m, a, b, c)),
            }
        },
        Instr::MerkleVerify { a, b, c } => {
            let path = sat_sub(m.regs[b as int], MERKLE_HEADER);
            match charge(s, sat_mul(path / 32, MERKLE_LEVEL)) {
                Err(f) => Err(f),
                Ok(s1) => lift(s1, merkle_verify_op(m, a, b, c)),
            }
        },
        Instr::Kem { a, b, c } => lift(s, kem_op(m, a, b, c)),
        Instr::Addr { a, b, c } => lift(s, address_op(m, a, b, c)),
        _ => Ok(s),
    }
}

/// What one decoded instruction does, after its fixed charge and with the program counter
/// already past it.
pub open spec fn exec_instr(s: VmState, i: Instr) -> Result<(VmState, Control), Fault> {
    match i {
        Instr::Halt => Ok((s, Control::Halt)),
        Instr::Nop => Ok((s, Control::Next)),
        Instr::Jmp { .. } | Instr::Jz { .. } | Instr::Jnz { .. } | Instr::Call { .. } | Instr::Ret => {
            control_step(s, i)
        },
        Instr::SLoad { .. } | Instr::SStore { .. } => match storage_step(s, i) {
            Ok(s1) => Ok((s1, Control::Next)),
            Err(f) => Err(f),
        },
        Instr::Send { .. } | Instr::Emit { .. } => match effect_step(s, i) {
            Ok(s1) => Ok((s1, Control::Next)),
            Err(f) => Err(f),
        },
        Instr::Hash { .. } | Instr::VerifyMl { .. } | Instr::VerifySlh { .. } | Instr::MerkleVerify {
            ..
        } | Instr::Kem { .. } | Instr::Addr { .. } => match crypto_step(s, i) {
            Ok(s1) => Ok((s1, Control::Next)),
            Err(f) => Err(f),
        },
        _ => match machine_step(s.machine, s.consts, i) {
            Ok(m) => Ok((with_machine(s, m), Control::Next)),
            Err(f) => Err(f),
        },
    }
}

/// The outcome a clean halt in state `s` surfaces.
pub open spec fn outcome_of(s: VmState) -> OutcomeView {
    OutcomeView {
        regs: s.machine.regs,
        meter_used: s.meter_used,
        storage: s.storage,
        effects: s.effects,
    }
}

/// One step from `s`: decode at the program counter, charge the instruction's fixed cost,
/// move past it, then run it. `Ok(Err(outcome))` is a clean halt, `Ok(Ok(next))` a state to
/// go on from.
#[verifier::opaque]
pub open spec fn step(s: VmState) -> Result<Result<VmState, OutcomeView>, Fault> {
    match decode_at(s.code, s.machine.pc as int) {
        Err(e) => Err(Fault::Decode(e)),
        Ok((instr, len)) => {
            let c = meter_cost(op_of(instr));
            if s.meter_used + c > s.meter_limit {
                Err(Fault::OutOfMeter)
            } else if s.machine.pc + len > u32::MAX {
                Err(Fault::BadJump)
            } else {
                let s1 = VmState {
                    meter_used: (s.meter_used + c) as u64,
                    machine: MachineState { pc: (s.machine.pc + len) as u32, ..s.machine },
                    ..s
                };
                match exec_instr(s1, instr) {
                    Err(f) => Err(f),
                    Ok((s2, Control::Halt)) => Ok(Err(outcome_of(s2))),
                    Ok((s2, Control::Next)) => Ok(Ok(s2)),
                    Ok((s2, Control::JumpTo(t))) => Ok(
                        Ok(with_machine(s2, MachineState { pc: t, ..s2.machine })),
                    ),
                }
            }
        },
    }
}

/// Where a run from `s` ends: its outcome at a clean halt, or the fault that stopped it.
/// Every step but a halt charges at least one unit, so the meter bounds the run.
pub open spec fn run_from(s: VmState) -> Result<OutcomeView, Fault>
    decreases s.meter_limit - s.meter_used,
{
    match step(s) {
        Err(f) => Err(f),
        Ok(Err(out)) => Ok(out),
        Ok(Ok(next)) => if next.meter_limit == s.meter_limit && next.meter_used > s.meter_used
            && next.meter_used <= next.meter_limit {
            run_from(next)
        } else {
            Err(Fault::OutOfMeter)
        },
    }
}

} // verus!

verus! {

/// Charging keeps the limit, never lowers the meter, and never passes the limit.
pub open spec fn meter_kept(s: VmState, s2: VmState) -> bool {
    &&& s2.meter_limit == s.meter_limit
    &&& s2.meter_used >= s.meter_used
    &&& s2.meter_used <= s2.meter_limit
}

proof fn lemma_charge_meter(s: VmState, amount: u64)
    requires
        s.meter_used <= s.meter_limit,
    ensures
        charge(s, amount) matches Ok(s2) ==> meter_kept(s, s2),
{
}

/// No instruction lowers the meter, moves the limit, or passes it.
pub proof fn lemma_exec_instr_meter(s: VmState, i: Instr)
    requires
        s.meter_used <= s.meter_limit,
    ensures
        exec_instr(s, i) matches Ok((s2, _)) ==> meter_kept(s, s2),
{
    let m = s.machine;
    match i {
        Instr::Hash { a, b, c } => {
            lemma_charge_meter(s, sat_mul(keccak_blocks(m.regs[b as int]), HASH_BLOCK));
        },
        Instr::VerifyMl { a, b, c } => {
            lemma_charge_meter(
                s,
                sat_mul(keccak_blocks(sat_sub(m.regs[b as int], ML_DSA_SIGNED_BYTES)), VERIFY_MESSAGE_BLOCK),
            );
        },
        Instr::VerifySlh { a, b, c } => {
            lemma_charge_meter(
                s,
                sat_mul(keccak_blocks(sat_sub(m.regs[b as int], SLH_DSA_SIGNED_BYTES)), VERIFY_MESSAGE_BLOCK),
            );
        },
        Instr::MerkleVerify { a, b, c } => {
            lemma_charge_meter(s, sat_mul(sat_sub(m.regs[b as int], MERKLE_HEADER) / 32, MERKLE_LEVEL));
        },
        Instr::Send { a, b, c } => {
            if let Some(to) = region(m, m.regs[a as int], m.regs[b as int]) {
                lemma_charge_meter(s, (to.len() * EFFECT_BYTE) as u64);
            }
        },
        Instr::Emit { a, b, c } => {
            if let Some(to) = region(m, m.regs[a as int], m.regs[b as int]) {
                lemma_charge_meter(s, (to.len() * EFFECT_BYTE) as u64);
            }
        },
        _ => {},
    }
}

/// A step that neither halts nor faults charges at least one unit, keeps the limit, and
/// stays within it: the meter bounds every run.
pub proof fn lemma_step_meters(s: VmState)
    requires
        s.meter_used <= s.meter_limit,
    ensures
        step(s) matches Ok(Ok(next)) ==> next.meter_limit == s.meter_limit && next.meter_used
            > s.meter_used && next.meter_used <= next.meter_limit,
{
    reveal(step);
    if let Ok((instr, len)) = decode_at(s.code, s.machine.pc as int) {
        let c = meter_cost(op_of(instr));
        crate::meter::law_only_halt_is_free(op_of(instr));
        if s.meter_used + c <= s.meter_limit && s.machine.pc + len <= u32::MAX {
            let s1 = VmState {
                meter_used: (s.meter_used + c) as u64,
                machine: MachineState { pc: (s.machine.pc + len) as u32, ..s.machine },
                ..s
            };
            lemma_exec_instr_meter(s1, instr);
            if instr is Halt {
                assert(exec_instr(s1, instr) == Ok::<(VmState, Control), Fault>((s1, Control::Halt)));
            }
        }
    }
}

} // verus!

verus! {

/// The instruction starts a linear walk from `pc` reaches: it stops at the end of the code,
/// past the 32-bit range, or at the first bytes that do not decode.
pub open spec fn boundary_set(code: Seq<u8>, pc: nat) -> Set<u32>
    decreases code.len() - pc,
{
    if pc >= code.len() || pc > u32::MAX {
        Set::empty()
    } else {
        match decode_at(code, pc as int) {
            Ok((_, n)) => {
                proof {
                    crate::container::lemma_decode_len_positive(code, pc as int);
                }
                boundary_set(code, pc + n).insert(pc as u32)
            },
            Err(_) => Set::empty(),
        }
    }
}

/// The manifest an entry declares, as the sets the machine checks.
pub open spec fn entry_manifest(e: crate::container::EntryView, code: Seq<u8>) -> ManifestView {
    ManifestView {
        reads: e.reads.map_values(|s: u64| crate::abi::scalar_slot(s)).to_set(),
        writes: e.writes.map_values(|s: u64| crate::abi::scalar_slot(s)).to_set(),
        keyed_reads: e.keyed_reads.to_set(),
        keyed_writes: e.keyed_writes.to_set(),
        boundaries: boundary_set(code, 0),
    }
}

/// The state a dispatched entry starts from: the program counter at its offset, the
/// dispatch charge on the meter, and its manifest enforced.
pub open spec fn entry_state(c: crate::container::ContainerView, e: crate::container::EntryView, limit: u64) -> VmState {
    VmState {
        code: c.code,
        consts: c.consts,
        machine: MachineState { pc: e.offset, ..initial_machine() },
        meter_limit: limit,
        meter_used: crate::meter::DISPATCH,
        storage: Map::empty(),
        effects: Seq::empty(),
        effects_bytes: 0,
        manifest: Some(entry_manifest(e, c.code)),
        auth_reads: Set::empty(),
        auth_writes: Set::empty(),
    }
}

} // verus!

verus! {

/// `a` and `b` agree at `slot`: both lack it, or both hold the same value there.
pub open spec fn same_at(a: Map<Slot, u64>, b: Map<Slot, u64>, slot: Slot) -> bool {
    &&& a.contains_key(slot) == b.contains_key(slot)
    &&& a.contains_key(slot) ==> a[slot] == b[slot]
}

/// What one instruction may change of the storage and the manifest checks: it keeps the
/// manifest, changes storage only where the entry may write, and widens the writable keys
/// only through a declared keyed-write base.
pub open spec fn frame_kept(s: VmState, s2: VmState) -> bool {
    &&& s2.manifest == s.manifest
    &&& forall|slot: Slot| !may_write(s, slot) ==> #[trigger] same_at(s.storage, s2.storage, slot)
    &&& (s.manifest matches Some(man) && man.keyed_writes.is_empty()) ==> s2.auth_writes
        == s.auth_writes
}

proof fn lemma_taint_frame(s: VmState, preimage: u64, len: u64, out: u64)
    ensures
        frame_kept(s, taint(s, preimage, len, out)),
{
    let t = taint(s, preimage, len, out);
    assert(t.storage == s.storage);
    if let Some(man) = s.manifest {
        if man.keyed_writes.is_empty() {
            assert forall|b: u64| !man.keyed_writes.contains(b) by {}
        }
    }
    assert forall|slot: Slot| !may_write(s, slot) implies #[trigger] same_at(s.storage, t.storage, slot) by {}
}

proof fn lemma_exec_instr_frame(s: VmState, i: Instr)
    ensures
        exec_instr(s, i) matches Ok((s2, _)) ==> frame_kept(s, s2),
{
    let m = s.machine;
    match i {
        Instr::SStore { a, b } => {
            if let Some(key) = region(m, m.regs[a as int], STORAGE_KEY_BYTES as u64) {
                let slot = slot_of_bytes(key);
                if may_write(s, slot) {
                    let s2 = VmState { storage: s.storage.insert(slot, m.regs[b as int]), ..s };
                    assert forall|x: Slot| !may_write(s, x) implies #[trigger] same_at(s.storage, s2.storage, x) by {
                        assert(x != slot);
                    }
                }
            }
        },
        Instr::Hash { a, b, c } => {
            let len = m.regs[b as int];
            if let Ok(s1) = charge(s, sat_mul(keccak_blocks(len), HASH_BLOCK)) {
                if let Ok(m2) = hash_op(m, a, b, c) {
                    let w = with_machine(s1, m2);
                    lemma_taint_frame(w, m.regs[a as int], len, m.regs[c as int]);
                    let t = taint(w, m.regs[a as int], len, m.regs[c as int]);
                    assert forall|x: Slot| !may_write(s, x) implies #[trigger] same_at(s.storage, t.storage, x) by {
                        assert(may_write(w, x) == may_write(s, x));
                        assert(same_at(w.storage, t.storage, x));
                    }
                }
            }
        },
        _ => {
            if let Ok((s2, _)) = exec_instr(s, i) {
                assert(s2.storage == s.storage);
                assert forall|x: Slot| !may_write(s, x) implies #[trigger] same_at(s.storage, s2.storage, x) by {}
            }
        },
    }
}

/// One step keeps the manifest, changes storage only at slots the entry may write at that
/// point, and, for an entry with no keyed-write base, never widens the writable keys.
pub proof fn law_step_writes_allowed(s: VmState)
    ensures
        step(s) matches Ok(Ok(next)) ==> frame_kept(s, next),
        step(s) matches Ok(Err(out)) ==> forall|slot: Slot| !may_write(s, slot) ==> #[trigger] same_at(
            s.storage,
            out.storage,
            slot,
        ),
{
    reveal(step);
    if let Ok((instr, len)) = decode_at(s.code, s.machine.pc as int) {
        let c = meter_cost(op_of(instr));
        if s.meter_used + c <= s.meter_limit && s.machine.pc + len <= u32::MAX {
            let s1 = VmState {
                meter_used: (s.meter_used + c) as u64,
                machine: MachineState { pc: (s.machine.pc + len) as u32, ..s.machine },
                ..s
            };
            lemma_exec_instr_frame(s1, instr);
            assert forall|x: Slot| may_write(s1, x) == may_write(s, x) by {}
            if let Ok((s2, ctl)) = exec_instr(s1, instr) {
                assert forall|x: Slot| !may_write(s, x) implies #[trigger] same_at(s.storage, s2.storage, x) by {
                    assert(same_at(s1.storage, s2.storage, x));
                }
                if let Control::JumpTo(t) = ctl {
                    let n = with_machine(s2, MachineState { pc: t, ..s2.machine });
                    assert forall|x: Slot| !may_write(s, x) implies #[trigger] same_at(s.storage, n.storage, x) by {
                        assert(same_at(s.storage, s2.storage, x));
                    }
                }
            }
        }
    }
}

/// A run ends within its meter: a clean halt reports a meter reading no lower than where the
/// run started and no higher than the limit.
pub proof fn law_run_within_meter(s: VmState)
    requires
        s.meter_used <= s.meter_limit,
    ensures
        run_from(s) matches Ok(out) ==> s.meter_used <= out.meter_used <= s.meter_limit,
    decreases s.meter_limit - s.meter_used,
{
    lemma_step_meters(s);
    lemma_halt_meter(s);
    if let Ok(Ok(next)) = step(s) {
        law_run_within_meter(next);
    }
}

proof fn lemma_halt_meter(s: VmState)
    requires
        s.meter_used <= s.meter_limit,
    ensures
        step(s) matches Ok(Err(out)) ==> s.meter_used <= out.meter_used <= s.meter_limit,
{
    reveal(step);
    if let Ok((instr, len)) = decode_at(s.code, s.machine.pc as int) {
        let c = meter_cost(op_of(instr));
        if s.meter_used + c <= s.meter_limit && s.machine.pc + len <= u32::MAX {
            let s1 = VmState {
                meter_used: (s.meter_used + c) as u64,
                machine: MachineState { pc: (s.machine.pc + len) as u32, ..s.machine },
                ..s
            };
            lemma_exec_instr_meter(s1, instr);
        }
    }
}

/// The leading eight bytes of a hash preimage `pre` as they read once `digest` has been
/// written `d` bytes before the preimage's start: where the two overlap, the digest's bytes.
pub open spec fn head_after_digest(pre: Seq<u8>, digest: Seq<u8>, d: int) -> Seq<u8> {
    Seq::new(8, |j: int| if 0 <= j + d < digest.len() { digest[j + d] } else { pre[j] })
}

/// `slot` is a key derived from one of `bases`: the slot of the SHA3-256 digest of a preimage
/// of at least eight bytes whose leading word, as it reads after the digest is written (the
/// digest may overlay it), is one of `bases`.
pub open spec fn keyed_slot(bases: Set<u64>, slot: Slot) -> bool {
    exists|pre: Seq<u8>, d: int|
        #![trigger head_after_digest(pre, sha3_256_of(pre)@, d)]
        pre.len() >= 8 && bases.contains(word64(head_after_digest(pre, sha3_256_of(pre)@, d)))
            && slot == slot_of_bytes(sha3_256_of(pre)@)
}

/// The slots an entry under `man` may write: its declared writes, and the keys derived from
/// its keyed-write bases.
pub open spec fn writable(man: ManifestView, slot: Slot) -> bool {
    man.writes.contains(slot) || keyed_slot(man.keyed_writes, slot)
}

/// Every key `s2` may use beyond those of `s` is derived from a base of `man`: a writable one
/// from a keyed-write base, a readable one from any keyed base.
pub open spec fn keys_derived(s: VmState, s2: VmState, man: ManifestView) -> bool {
    &&& forall|x: Slot| #[trigger] s2.auth_writes.contains(x) ==> s.auth_writes.contains(x)
        || keyed_slot(man.keyed_writes, x)
    &&& forall|x: Slot| #[trigger] s2.auth_reads.contains(x) ==> s.auth_reads.contains(x)
        || keyed_slot(man.keyed_reads.union(man.keyed_writes), x)
}

proof fn lemma_hash_taint_keyed(w: VmState, m: MachineState, a: Reg, b: Reg, c: Reg, man: ManifestView)
    requires
        w.manifest == Some(man),
        hash_op(m, a, b, c) == Ok::<MachineState, Fault>(w.machine),
    ensures
        keys_derived(w, taint(w, m.regs[a as int], m.regs[b as int], m.regs[c as int]), man),
{
    let pa = m.regs[a as int];
    let len = m.regs[b as int];
    let out = m.regs[c as int];
    let t = taint(w, pa, len, out);
    let pre = region(m, pa, len)->Some_0;
    let dig = sha3_256_of(pre)@;
    assert(dig.len() == 32);
    assert(w.machine.mem == write_bytes(m.mem, out as int, dig));
    if len >= 8 {
        if let Some(head) = region(w.machine, pa, 8) {
            if let Some(key) = region(w.machine, out, STORAGE_KEY_BYTES as u64) {
                crate::state::law_write_then_region(m.mem, out as int, dig);
                assert(key =~= dig);
                let d = pa - out;
                let h = head_after_digest(pre, dig, d);
                assert forall|j: int| 0 <= j < 8 implies head[j] == h[j] by {
                    if 0 <= j + d < 32 {
                        assert(head[j] == w.machine.mem[pa + j]);
                    } else {
                        crate::state::law_write_frame(m.mem, out as int, dig, pa + j);
                        assert(pre[j] == m.mem[pa + j]);
                    }
                }
                assert(head =~= h);
                let slot = slot_of_bytes(key);
                let base = word64(head);
                assert(pre.len() >= 8 && slot == slot_of_bytes(sha3_256_of(pre)@));
                if man.keyed_writes.contains(base) {
                    assert(keyed_slot(man.keyed_writes, slot));
                }
                if man.keyed_writes.contains(base) || man.keyed_reads.contains(base) {
                    assert(man.keyed_reads.union(man.keyed_writes).contains(base));
                    assert(keyed_slot(man.keyed_reads.union(man.keyed_writes), slot));
                }
            }
        }
    }
}

proof fn lemma_exec_instr_keyed(s: VmState, i: Instr, man: ManifestView)
    requires
        s.manifest == Some(man),
    ensures
        exec_instr(s, i) matches Ok((s2, _)) ==> keys_derived(s, s2, man),
{
    let m = s.machine;
    match i {
        Instr::Hash { a, b, c } => {
            let len = m.regs[b as int];
            if let Ok(s1) = charge(s, sat_mul(keccak_blocks(len), HASH_BLOCK)) {
                if let Ok(m2) = hash_op(m, a, b, c) {
                    let w = with_machine(s1, m2);
                    lemma_hash_taint_keyed(w, m, a, b, c, man);
                }
            }
        },
        _ => {
            if let Ok((s2, _)) = exec_instr(s, i) {
                assert(s2.auth_writes == s.auth_writes && s2.auth_reads == s.auth_reads);
            }
        },
    }
}

proof fn lemma_step_keyed(s: VmState, man: ManifestView)
    requires
        s.manifest == Some(man),
    ensures
        step(s) matches Ok(Ok(next)) ==> keys_derived(s, next, man),
{
    reveal(step);
    if let Ok((instr, len)) = decode_at(s.code, s.machine.pc as int) {
        let c = meter_cost(op_of(instr));
        if s.meter_used + c <= s.meter_limit && s.machine.pc + len <= u32::MAX {
            let s1 = VmState {
                meter_used: (s.meter_used + c) as u64,
                machine: MachineState { pc: (s.machine.pc + len) as u32, ..s.machine },
                ..s
            };
            lemma_exec_instr_keyed(s1, instr, man);
        }
    }
}

/// An entry changes storage only where it may write: at its declared write slots and at keys
/// derived from its keyed-write bases. Whatever its code does, a clean halt leaves every other
/// slot as it found it. (Without keyed-write bases, that is every slot it does not declare.)
pub proof fn law_run_writes_declared(s: VmState, man: ManifestView)
    requires
        s.manifest == Some(man),
        forall|x: Slot| #[trigger] s.auth_writes.contains(x) ==> writable(man, x),
    ensures
        run_from(s) matches Ok(out) ==> forall|slot: Slot| !writable(man, slot) ==> #[trigger] same_at(
            s.storage,
            out.storage,
            slot,
        ),
    decreases s.meter_limit - s.meter_used,
{
    law_step_writes_allowed(s);
    lemma_step_keyed(s, man);
    assert forall|x: Slot| !writable(man, x) implies !may_write(s, x) by {}
    if let Ok(Ok(next)) = step(s) {
        if next.meter_limit == s.meter_limit && next.meter_used > s.meter_used && next.meter_used
            <= next.meter_limit {
            assert forall|x: Slot| #[trigger] next.auth_writes.contains(x) implies writable(man, x) by {}
            law_run_writes_declared(next, man);
            if let Ok(out) = run_from(next) {
                assert forall|x: Slot| !writable(man, x) implies #[trigger] same_at(s.storage, out.storage, x) by {
                    assert(same_at(s.storage, next.storage, x));
                    assert(same_at(next.storage, out.storage, x));
                }
            }
        }
    }
}

} // verus!

verus! {

/// `s` with its storage replaced by `st`.
pub open spec fn with_storage(s: VmState, st: Map<Slot, u64>) -> VmState {
    VmState { storage: st, ..s }
}

/// `a` and `b` agree at every slot of `slots`.
pub open spec fn agree_on(a: Map<Slot, u64>, b: Map<Slot, u64>, slots: Set<Slot>) -> bool {
    forall|x: Slot| slots.contains(x) ==> #[trigger] same_at(a, b, x)
}

/// The slots a manifest declares, read or write.
pub open spec fn declared(man: ManifestView) -> Set<Slot> {
    man.reads.union(man.writes)
}

/// The slots an entry under `man` may read: its declared reads and writes, and the keys
/// derived from any of its keyed bases.
pub open spec fn readable(man: ManifestView) -> Set<Slot> {
    Set::new(
        |x: Slot| declared(man).contains(x) || keyed_slot(man.keyed_reads.union(man.keyed_writes), x),
    )
}

/// An entry under `man` whose every derived readable key is one it may read.
pub open spec fn reads_derived(s: VmState, man: ManifestView) -> bool {
    &&& s.manifest == Some(man)
    &&& forall|x: Slot| #[trigger] s.auth_reads.contains(x) ==> readable(man).contains(x)
}

/// Apart from SLOAD and SSTORE, an instruction neither reads nor writes storage: run on
/// another storage, it does the same and leaves that storage as it was.
proof fn lemma_exec_instr_storage_blind(s: VmState, st: Map<Slot, u64>, i: Instr)
    requires
        !(i is SLoad || i is SStore),
    ensures
        match exec_instr(s, i) {
            Ok((t, c)) => exec_instr(with_storage(s, st), i) == Ok::<(VmState, Control), Fault>(
                (with_storage(t, st), c),
            ),
            Err(f) => exec_instr(with_storage(s, st), i) == Err::<(VmState, Control), Fault>(f),
        },
{
    let s2 = with_storage(s, st);
    let m = s.machine;
    match i {
        Instr::Hash { a, b, c } => {
            let len = m.regs[b as int];
            if let Ok(s1) = charge(s, sat_mul(keccak_blocks(len), HASH_BLOCK)) {
                if let Ok(m2) = hash_op(m, a, b, c) {
                    let w = with_machine(s1, m2);
                    let t = taint(w, m.regs[a as int], len, m.regs[c as int]);
                    let t2 = taint(with_storage(w, st), m.regs[a as int], len, m.regs[c as int]);
                    assert(t2 == with_storage(t, st));
                }
            }
        },
        _ => {},
    }
}

/// One instruction run from two states that differ only in storage, where the storages agree
/// on every slot the entry may read, faults the same way or reaches two states that again
/// differ only in storage and agree on those slots.
proof fn lemma_exec_instr_agree(s1: VmState, st2: Map<Slot, u64>, man: ManifestView, i: Instr)
    requires
        reads_derived(s1, man),
        agree_on(s1.storage, st2, readable(man)),
    ensures
        match exec_instr(s1, i) {
            Ok((t1, c)) => exec_instr(with_storage(s1, st2), i) matches Ok((t2, c2)) && c2 == c && t2
                == with_storage(t1, t2.storage) && reads_derived(t1, man) && agree_on(
                t1.storage,
                t2.storage,
                readable(man),
            ),
            Err(f) => exec_instr(with_storage(s1, st2), i) == Err::<(VmState, Control), Fault>(f),
        },
{
    let s2 = with_storage(s1, st2);
    let m = s1.machine;
    lemma_exec_instr_keyed(s1, i, man);
    assert forall|x: Slot| may_read(s1, x) implies readable(man).contains(x) by {}
    match i {
        Instr::SLoad { d, a } => {
            if let Some(key) = region(m, m.regs[a as int], STORAGE_KEY_BYTES as u64) {
                let slot = slot_of_bytes(key);
                if may_read(s1, slot) {
                    assert(same_at(s1.storage, st2, slot));
                }
            }
        },
        Instr::SStore { a, b } => {
            if let Some(key) = region(m, m.regs[a as int], STORAGE_KEY_BYTES as u64) {
                let slot = slot_of_bytes(key);
                if may_write(s1, slot) {
                    let v = m.regs[b as int];
                    let n1 = s1.storage.insert(slot, v);
                    let n2 = st2.insert(slot, v);
                    assert forall|x: Slot| readable(man).contains(x) implies #[trigger] same_at(n1, n2, x) by {
                        if x != slot {
                            assert(same_at(s1.storage, st2, x));
                        }
                    }
                }
            }
        },
        _ => {
            lemma_exec_instr_storage_blind(s1, st2, i);
        },
    }
    if let Ok((t1, c)) = exec_instr(s1, i) {
        assert forall|x: Slot| #[trigger] t1.auth_reads.contains(x) implies readable(man).contains(x) by {}
    }
}

/// One step from two states that differ only in storage, agreeing on the slots the entry may
/// read: the same fault, the same outcome but for storage, or two next states related the
/// same way.
proof fn lemma_step_agree(s1: VmState, st2: Map<Slot, u64>, man: ManifestView)
    requires
        reads_derived(s1, man),
        agree_on(s1.storage, st2, readable(man)),
    ensures
        match step(s1) {
            Err(f) => step(with_storage(s1, st2)) == Err::<Result<VmState, OutcomeView>, Fault>(f),
            Ok(Err(o1)) => step(with_storage(s1, st2)) matches Ok(Err(o2)) && o2.regs == o1.regs
                && o2.meter_used == o1.meter_used && o2.effects == o1.effects && agree_on(
                o1.storage,
                o2.storage,
                readable(man),
            ),
            Ok(Ok(n1)) => step(with_storage(s1, st2)) matches Ok(Ok(n2)) && n2 == with_storage(
                n1,
                n2.storage,
            ) && reads_derived(n1, man) && agree_on(n1.storage, n2.storage, readable(man)),
        },
{
    reveal(step);
    let s2 = with_storage(s1, st2);
    if let Ok((instr, len)) = decode_at(s1.code, s1.machine.pc as int) {
        let c = meter_cost(op_of(instr));
        if s1.meter_used + c <= s1.meter_limit && s1.machine.pc + len <= u32::MAX {
            let a1 = VmState {
                meter_used: (s1.meter_used + c) as u64,
                machine: MachineState { pc: (s1.machine.pc + len) as u32, ..s1.machine },
                ..s1
            };
            let a2 = VmState {
                meter_used: (s2.meter_used + c) as u64,
                machine: MachineState { pc: (s2.machine.pc + len) as u32, ..s2.machine },
                ..s2
            };
            assert(a2 == with_storage(a1, st2));
            lemma_exec_instr_agree(a1, st2, man, instr);
        }
    }
}

/// The slots an entry may read are all it can see of storage: its declared read and write
/// slots, and the keys derived from its keyed bases. Two runs of it from storages that agree on
/// those slots fault the same way, or halt with the same registers, meter and effects, and
/// storages that again agree on those slots. This is what lets entries that touch disjoint
/// slots run side by side.
pub proof fn law_run_sees_only_declared(s1: VmState, st2: Map<Slot, u64>, man: ManifestView)
    requires
        reads_derived(s1, man),
        agree_on(s1.storage, st2, readable(man)),
    ensures
        match run_from(s1) {
            Err(f) => run_from(with_storage(s1, st2)) == Err::<OutcomeView, Fault>(f),
            Ok(o1) => run_from(with_storage(s1, st2)) matches Ok(o2) && o2.regs == o1.regs
                && o2.meter_used == o1.meter_used && o2.effects == o1.effects && agree_on(
                o1.storage,
                o2.storage,
                readable(man),
            ),
        },
    decreases s1.meter_limit - s1.meter_used,
{
    let s2 = with_storage(s1, st2);
    lemma_step_agree(s1, st2, man);
    if let Ok(Ok(n1)) = step(s1) {
        let n2 = step(s2)->Ok_0->Ok_0;
        if n1.meter_limit == s1.meter_limit && n1.meter_used > s1.meter_used && n1.meter_used
            <= n1.meter_limit {
            law_run_sees_only_declared(n1, n2.storage, man);
            assert(with_storage(n1, n2.storage) == n2);
        }
    }
}

} // verus!

verus! {

/// The length-scaled charge of a crypto instruction in state `s`: per block absorbed for
/// HASH, per block of the message tail for the signature checks, per level of the path for
/// MERKLEVERIFY; nothing for any other instruction.
pub open spec fn scaled_charge(s: VmState, i: Instr) -> u64 {
    let r = s.machine.regs;
    match i {
        Instr::Hash { b, .. } => sat_mul(keccak_blocks(r[b as int]), HASH_BLOCK),
        Instr::VerifyMl { b, .. } => sat_mul(
            keccak_blocks(sat_sub(r[b as int], ML_DSA_SIGNED_BYTES)),
            VERIFY_MESSAGE_BLOCK,
        ),
        Instr::VerifySlh { b, .. } => sat_mul(
            keccak_blocks(sat_sub(r[b as int], SLH_DSA_SIGNED_BYTES)),
            VERIFY_MESSAGE_BLOCK,
        ),
        Instr::MerkleVerify { b, .. } => sat_mul(sat_sub(r[b as int], MERKLE_HEADER) / 32, MERKLE_LEVEL),
        _ => 0,
    }
}

/// The length-scaled part of a crypto instruction is charged before its primitive runs: when
/// the meter cannot cover it the instruction faults out of meter whatever the memory holds,
/// and when it runs the meter has risen by exactly that charge.
pub proof fn law_crypto_charged_before_work(s: VmState, i: Instr)
    requires
        i is Hash || i is VerifyMl || i is VerifySlh || i is MerkleVerify,
    ensures
        s.meter_used + scaled_charge(s, i) > s.meter_limit ==> exec_instr(s, i) == Err::<
            (VmState, Control),
            Fault,
        >(Fault::OutOfMeter),
        exec_instr(s, i) matches Ok((t, _)) ==> t.meter_used == s.meter_used + scaled_charge(s, i),
{
    let m = s.machine;
    if let Instr::Hash { a, b, c } = i {
        let len = m.regs[b as int];
        if let Ok(s1) = charge(s, sat_mul(keccak_blocks(len), HASH_BLOCK)) {
            if let Ok(m2) = hash_op(m, a, b, c) {
                let w = with_machine(s1, m2);
                let t = taint(w, m.regs[a as int], len, m.regs[c as int]);
                assert(t.meter_used == w.meter_used);
            }
        }
    }
}

} // verus!

verus! {

/// Only a clean halt surfaces anything: a step ends the run with an outcome exactly when the
/// instruction at the program counter is HALT and its charge fits the meter, and that outcome
/// is the state as it stood, with nothing more run.
pub proof fn law_only_halt_surfaces(s: VmState)
    ensures
        step(s) matches Ok(Err(o)) ==> decode_at(s.code, s.machine.pc as int) matches Ok((i, _)) && i
            is Halt && o.regs == s.machine.regs && o.meter_used == s.meter_used && o.storage
            == s.storage && o.effects == s.effects,
{
    reveal(step);
    if let Ok((instr, len)) = decode_at(s.code, s.machine.pc as int) {
        let c = meter_cost(op_of(instr));
        if s.meter_used + c <= s.meter_limit && s.machine.pc + len <= u32::MAX {
            let s1 = VmState {
                meter_used: (s.meter_used + c) as u64,
                machine: MachineState { pc: (s.machine.pc + len) as u32, ..s.machine },
                ..s
            };
            crate::meter::law_only_halt_is_free(op_of(instr));
            match instr {
                Instr::Jmp { .. } | Instr::Jz { .. } | Instr::Jnz { .. } | Instr::Call { .. } | Instr::Ret => {
                    assert(!(exec_instr(s1, instr) matches Ok((_, Control::Halt))));
                },
                _ => {},
            }
        }
    }
}

/// The state `n` steps from `s`, when none of those steps halts or faults.
pub open spec fn after_steps(s: VmState, n: nat) -> Option<VmState>
    decreases n,
{
    if n == 0 {
        Some(s)
    } else {
        match step(s) {
            Ok(Ok(next)) => after_steps(next, (n - 1) as nat),
            _ => None,
        }
    }
}

/// A run surfaces storage and effects only at a clean halt. When it ends with an outcome, a
/// state the run reached has HALT at its program counter and the outcome is exactly that
/// state's registers, meter, storage and effects. When it faults, the fault is the one a step
/// from a reached state raised, and the fault is all that comes out: no storage write or
/// effect of the run survives it.
pub proof fn law_run_surfaces_only_at_halt(s: VmState)
    requires
        s.meter_used <= s.meter_limit,
    ensures
        run_from(s) matches Ok(o) ==> exists|n: nat| #[trigger] after_steps(s, n) matches Some(t)
            && decode_at(t.code, t.machine.pc as int) matches Ok((i, _)) && i is Halt && o
            == outcome_of(t),
        run_from(s) matches Err(f) ==> exists|n: nat| #[trigger] after_steps(s, n) matches Some(t)
            && step(t) == Err::<Result<VmState, OutcomeView>, Fault>(f),
    decreases s.meter_limit - s.meter_used,
{
    law_only_halt_surfaces(s);
    lemma_step_meters(s);
    assert(after_steps(s, 0) == Some(s));
    if let Ok(Ok(next)) = step(s) {
        law_run_surfaces_only_at_halt(next);
        match run_from(next) {
            Ok(o) => {
                let n = choose|n: nat| #[trigger] after_steps(next, n) matches Some(t)
                    && decode_at(t.code, t.machine.pc as int) matches Ok((i, _)) && i is Halt && o
                    == outcome_of(t);
                assert(after_steps(s, n + 1) == after_steps(next, n));
            },
            Err(f) => {
                let n = choose|n: nat| #[trigger] after_steps(next, n) matches Some(t) && step(t)
                    == Err::<Result<VmState, OutcomeView>, Fault>(f);
                assert(after_steps(s, n + 1) == after_steps(next, n));
            },
        }
    }
}

} // verus!

verus! {

/// The unsigned comparisons, by what they compute: GTU writes 1 exactly when its first operand
/// is strictly greater than its second as unsigned words, LTU exactly when it is strictly
/// less, EQ exactly when they are equal, and each writes 0 otherwise, touching nothing else.
/// So exactly one of the three gives 1 on any pair of operands, and `x GTU x` is 0.
pub proof fn law_comparisons(m: MachineState, consts: Seq<u64>, d: Reg, a: Reg, b: Reg)
    requires
        m.regs.len() == NUM_REGS,
        d < NUM_REGS,
        a < NUM_REGS,
        b < NUM_REGS,
    ensures
        ({
            let x = m.regs[a as int];
            let y = m.regs[b as int];
            &&& machine_step(m, consts, Instr::GtU { d, a, b }) matches Ok(g) && g
                == (MachineState { regs: m.regs.update(d as int, if x > y { 1u64 } else { 0u64 }), ..m })
            &&& machine_step(m, consts, Instr::LtU { d, a, b }) matches Ok(l) && l
                == (MachineState { regs: m.regs.update(d as int, if x < y { 1u64 } else { 0u64 }), ..m })
            &&& machine_step(m, consts, Instr::Eq { d, a, b }) matches Ok(e) && e
                == (MachineState { regs: m.regs.update(d as int, if x == y { 1u64 } else { 0u64 }), ..m })
            &&& machine_step(m, consts, Instr::GtU { d, a, b })->Ok_0.regs[d as int]
                + machine_step(m, consts, Instr::LtU { d, a, b })->Ok_0.regs[d as int]
                + machine_step(m, consts, Instr::Eq { d, a, b })->Ok_0.regs[d as int] == 1
            &&& a == b ==> machine_step(m, consts, Instr::GtU { d, a, b })->Ok_0.regs[d as int] == 0
        }),
{
}

} // verus!

verus! {

/// `m` with register `d` set to `v` and nothing else changed.
pub open spec fn reg_set(m: MachineState, d: Reg, v: u64) -> MachineState {
    MachineState { regs: m.regs.update(d as int, v), ..m }
}

/// The checked arithmetic, by the integers: ADD, SUB and MUL write the exact sum, difference
/// and product when it is a word, and fault with an overflow when it is not.
pub proof fn law_checked_arithmetic(m: MachineState, consts: Seq<u64>, d: Reg, a: Reg, b: Reg)
    requires
        m.regs.len() == NUM_REGS,
        d < NUM_REGS,
        a < NUM_REGS,
        b < NUM_REGS,
    ensures
        ({
            let x = m.regs[a as int] as int;
            let y = m.regs[b as int] as int;
            &&& x + y <= u64::MAX ==> machine_step(m, consts, Instr::Add { d, a, b })
                == Ok::<MachineState, Fault>(reg_set(m, d, (x + y) as u64))
            &&& x + y > u64::MAX ==> machine_step(m, consts, Instr::Add { d, a, b })
                == Err::<MachineState, Fault>(Fault::Overflow)
            &&& y <= x ==> machine_step(m, consts, Instr::Sub { d, a, b })
                == Ok::<MachineState, Fault>(reg_set(m, d, (x - y) as u64))
            &&& y > x ==> machine_step(m, consts, Instr::Sub { d, a, b })
                == Err::<MachineState, Fault>(Fault::Overflow)
            &&& x * y <= u64::MAX ==> machine_step(m, consts, Instr::Mul { d, a, b })
                == Ok::<MachineState, Fault>(reg_set(m, d, (x * y) as u64))
            &&& x * y > u64::MAX ==> machine_step(m, consts, Instr::Mul { d, a, b })
                == Err::<MachineState, Fault>(Fault::Overflow)
        }),
{
}

/// Division, by what it computes: for a non-zero divisor DIV writes the quotient `q` and REM
/// the remainder `r`, the unique pair with `q * y + r == x` and `r < y`; a zero divisor faults.
/// DIVW and REMW do the same on 128-bit values split over two registers each.
pub proof fn law_division(m: MachineState, consts: Seq<u64>, d: Reg, e: Reg, a: Reg, b: Reg, c: Reg, f: Reg)
    requires
        m.regs.len() == NUM_REGS,
        d < NUM_REGS,
        e < NUM_REGS,
        a < NUM_REGS,
        b < NUM_REGS,
        c < NUM_REGS,
        f < NUM_REGS,
        d != e,
    ensures
        ({
            let x = m.regs[a as int];
            let y = m.regs[b as int];
            let o1 = machine_step(m, consts, Instr::Div { d, a, b })->Ok_0;
            let o2 = machine_step(m, consts, Instr::Rem { d, a, b })->Ok_0;
            &&& y == 0 ==> machine_step(m, consts, Instr::Div { d, a, b }) == Err::<MachineState, Fault>(
                Fault::DivByZero,
            ) && machine_step(m, consts, Instr::Rem { d, a, b }) == Err::<MachineState, Fault>(
                Fault::DivByZero,
            )
            &&& y != 0 ==> (machine_step(m, consts, Instr::Div { d, a, b }) is Ok && machine_step(
                m,
                consts,
                Instr::Rem { d, a, b },
            ) is Ok && o1 == reg_set(m, d, o1.regs[d as int]) && o2 == reg_set(m, d, o2.regs[d as int])
                && o1.regs[d as int] * y + o2.regs[d as int] == x && o2.regs[d as int] < y)
        }),
        ({
            let n = m.regs[b as int] * 0x1_0000_0000_0000_0000int + m.regs[a as int];
            let v = m.regs[f as int] * 0x1_0000_0000_0000_0000int + m.regs[c as int];
            let dw = Instr::DivW { dlo: d, dhi: e, alo: a, ahi: b, blo: c, bhi: f };
            let rw = Instr::RemW { dlo: d, dhi: e, alo: a, ahi: b, blo: c, bhi: f };
            let w1 = machine_step(m, consts, dw)->Ok_0;
            let w2 = machine_step(m, consts, rw)->Ok_0;
            &&& v == 0 ==> machine_step(m, consts, dw) == Err::<MachineState, Fault>(Fault::DivByZero)
                && machine_step(m, consts, rw) == Err::<MachineState, Fault>(Fault::DivByZero)
            &&& v != 0 ==> (machine_step(m, consts, dw) is Ok && machine_step(m, consts, rw) is Ok
                && w1 == reg_set(reg_set(m, d, w1.regs[d as int]), e, w1.regs[e as int]) && w2
                == reg_set(reg_set(m, d, w2.regs[d as int]), e, w2.regs[e as int]) && (w1.regs[e as int]
                * 0x1_0000_0000_0000_0000int + w1.regs[d as int]) * v + (w2.regs[e as int]
                * 0x1_0000_0000_0000_0000int + w2.regs[d as int]) == n && w2.regs[e as int]
                * 0x1_0000_0000_0000_0000int + w2.regs[d as int] < v)
        }),
{
    let x = m.regs[a as int];
    let y = m.regs[b as int];
    if y != 0 {
        vstd::arithmetic::div_mod::lemma_fundamental_div_mod(x as int, y as int);
        vstd::arithmetic::div_mod::lemma_mod_pos_bound(x as int, y as int);
        let q = x / y;
        let r = x % y;
        assert(q as int == (x as int) / (y as int) && r as int == (x as int) % (y as int));
        assert(q * y + r == x) by (nonlinear_arith)
            requires
                x as int == (y as int) * (q as int) + (r as int),
        ;
    }
    let n = wide(m.regs[b as int], m.regs[a as int]);
    let v = wide(m.regs[f as int], m.regs[c as int]);
    if v != 0 {
        assert(v > 0);
        vstd::arithmetic::div_mod::lemma_fundamental_div_mod(n, v);
        vstd::arithmetic::div_mod::lemma_mod_pos_bound(n, v);
        let q = n / v;
        let r = n % v;
        assert(0 <= n < word_span() * word_span()) by (nonlinear_arith)
            requires
                n == m.regs[b as int] * word_span() + m.regs[a as int],
                word_span() == 0x1_0000_0000_0000_0000int,
                m.regs[b as int] <= u64::MAX,
                m.regs[a as int] <= u64::MAX,
        ;
        assert(0 <= q <= n) by (nonlinear_arith)
            requires
                q * v + r == n,
                0 <= r < v,
                0 <= n,
        ;
        vstd::arithmetic::div_mod::lemma_fundamental_div_mod(q, word_span());
        vstd::arithmetic::div_mod::lemma_fundamental_div_mod(r, word_span());
        vstd::arithmetic::div_mod::lemma_mod_pos_bound(q, word_span());
        vstd::arithmetic::div_mod::lemma_mod_pos_bound(r, word_span());
        assert(q / word_span() < word_span()) by (nonlinear_arith)
            requires
                q < word_span() * word_span(),
                q == word_span() * (q / word_span()) + q % word_span(),
                0 <= q % word_span(),
                word_span() > 0,
        ;
        assert(r / word_span() < word_span()) by (nonlinear_arith)
            requires
                r < word_span() * word_span(),
                r == word_span() * (r / word_span()) + r % word_span(),
                0 <= r % word_span(),
                word_span() > 0,
        ;
        assert(0 <= q / word_span()) by (nonlinear_arith)
            requires
                0 <= q,
                word_span() > 0,
        ;
        assert(0 <= r / word_span()) by (nonlinear_arith)
            requires
                0 <= r,
                word_span() > 0,
        ;
    }
}

/// The wrapping arithmetic, by the integers: ADDW, SUBW and MULW write the sum, difference
/// and product reduced modulo 2^64, and MULHI the high word of the 128-bit product.
pub proof fn law_wrapping_arithmetic(m: MachineState, consts: Seq<u64>, d: Reg, a: Reg, b: Reg)
    requires
        m.regs.len() == NUM_REGS,
        d < NUM_REGS,
        a < NUM_REGS,
        b < NUM_REGS,
    ensures
        ({
            let x = m.regs[a as int] as int;
            let y = m.regs[b as int] as int;
            let span = 0x1_0000_0000_0000_0000int;
            &&& machine_step(m, consts, Instr::AddW { d, a, b }) == Ok::<MachineState, Fault>(
                reg_set(m, d, ((x + y) % span) as u64),
            )
            &&& machine_step(m, consts, Instr::SubW { d, a, b }) == Ok::<MachineState, Fault>(
                reg_set(m, d, ((x - y + span) % span) as u64),
            )
            &&& machine_step(m, consts, Instr::MulW { d, a, b }) == Ok::<MachineState, Fault>(
                reg_set(m, d, ((x * y) % span) as u64),
            )
            &&& machine_step(m, consts, Instr::MulHi { d, a, b }) == Ok::<MachineState, Fault>(
                reg_set(m, d, ((x * y) / span) as u64),
            )
        }),
{
}

/// The bitwise instructions: AND, OR, XOR and NOT write the bitwise conjunction, disjunction,
/// exclusive or and complement; SHR writes the first operand divided by two to the power of
/// the shift count taken modulo 64, and SHL the first operand times that power when the
/// product is a word.
pub proof fn law_bitwise(m: MachineState, consts: Seq<u64>, d: Reg, a: Reg, b: Reg)
    requires
        m.regs.len() == NUM_REGS,
        d < NUM_REGS,
        a < NUM_REGS,
        b < NUM_REGS,
    ensures
        ({
            let x = m.regs[a as int];
            let y = m.regs[b as int];
            let sh = (y % 64) as nat;
            &&& machine_step(m, consts, Instr::And { d, a, b }) == Ok::<MachineState, Fault>(
                reg_set(m, d, x & y),
            )
            &&& machine_step(m, consts, Instr::Or { d, a, b }) == Ok::<MachineState, Fault>(
                reg_set(m, d, x | y),
            )
            &&& machine_step(m, consts, Instr::Xor { d, a, b }) == Ok::<MachineState, Fault>(
                reg_set(m, d, x ^ y),
            )
            &&& machine_step(m, consts, Instr::Not { d, a }) == Ok::<MachineState, Fault>(
                reg_set(m, d, !x),
            )
            &&& machine_step(m, consts, Instr::Shr { d, a, b }) == Ok::<MachineState, Fault>(
                reg_set(m, d, (x as nat / vstd::arithmetic::power2::pow2(sh)) as u64),
            )
            &&& x * vstd::arithmetic::power2::pow2(sh) <= u64::MAX ==> machine_step(
                m,
                consts,
                Instr::Shl { d, a, b },
            ) == Ok::<MachineState, Fault>(
                reg_set(m, d, (x * vstd::arithmetic::power2::pow2(sh)) as u64),
            )
        }),
{
    let x = m.regs[a as int];
    let y = m.regs[b as int];
    let s = y & 63u64;
    assert(y & 63u64 == y % 64) by (bit_vector);
    vstd::bits::lemma_u64_shr_is_div(x, s);
    if x * vstd::arithmetic::power2::pow2(s as nat) <= u64::MAX {
        vstd::bits::lemma_u64_shl_is_mul(x, s);
    }
}

/// The stack and memory give back what was put there: a POP right after a PUSH of `x`
/// writes `x` and leaves the stack as it was, and an MLOAD right after an MSTORE of `x` at
/// the same in-bounds address writes `x`.
pub proof fn law_stack_and_memory_round_trip(m: MachineState, consts: Seq<u64>, d: Reg, a: Reg, b: Reg)
    requires
        m.regs.len() == NUM_REGS,
        d < NUM_REGS,
        a < NUM_REGS,
        b < NUM_REGS,
    ensures
        m.stack.len() < STACK_LIMIT ==> (machine_step(m, consts, Instr::Push { a }) is Ok
            && machine_step(machine_step(m, consts, Instr::Push { a })->Ok_0, consts, Instr::Pop { d })
            == Ok::<MachineState, Fault>(reg_set(m, d, m.regs[a as int]))),
        m.regs[a as int] + WORD_BYTES <= m.mem.len() ==> (machine_step(m, consts, Instr::MStore { a, b })
            is Ok && machine_step(machine_step(m, consts, Instr::MStore { a, b })->Ok_0, consts, Instr::MLoad { d, a })
            is Ok && machine_step(
            machine_step(m, consts, Instr::MStore { a, b })->Ok_0,
            consts,
            Instr::MLoad { d, a },
        )->Ok_0.regs[d as int] == m.regs[b as int]),
{
    if m.stack.len() < STACK_LIMIT {
        let m1 = MachineState { stack: m.stack.push(m.regs[a as int]), ..m };
        assert(m1.stack.drop_last() =~= m.stack);
    }
    if m.regs[a as int] + WORD_BYTES <= m.mem.len() {
        crate::state::law_store_then_load(m.mem, m.regs[a as int] as int, m.regs[b as int]);
    }
}

/// The moves: MOV copies a register, LDI writes its immediate, and LDC writes the pool
/// constant it names, faulting when the index is past the pool.
pub proof fn law_moves(m: MachineState, consts: Seq<u64>, d: Reg, a: Reg, imm: u64, idx: u16)
    requires
        m.regs.len() == NUM_REGS,
        d < NUM_REGS,
        a < NUM_REGS,
    ensures
        machine_step(m, consts, Instr::Mov { d, a }) == Ok::<MachineState, Fault>(reg_set(m, d, m.regs[a as int])),
        machine_step(m, consts, Instr::Ldi { d, imm }) == Ok::<MachineState, Fault>(reg_set(m, d, imm)),
        idx < consts.len() ==> machine_step(m, consts, Instr::Ldc { d, idx }) == Ok::<MachineState, Fault>(
            reg_set(m, d, consts[idx as int]),
        ),
        idx >= consts.len() ==> machine_step(m, consts, Instr::Ldc { d, idx }) == Err::<MachineState, Fault>(
            Fault::BadConst,
        ),
{
}

/// The branches, to a target a jump may land on: JMP always jumps there; JZ jumps exactly when
/// its register is zero and JNZ exactly when it is not, and otherwise both go on to the next
/// instruction; none of them changes the state.
pub proof fn law_branches(s: VmState, a: Reg, target: u32)
    requires
        target_ok(s, target),
    ensures
        control_step(s, Instr::Jmp { target }) == Ok::<(VmState, Control), Fault>((s, Control::JumpTo(target))),
        control_step(s, Instr::Jz { a, target }) == Ok::<(VmState, Control), Fault>(
            (s, if s.machine.regs[a as int] == 0 { Control::JumpTo(target) } else { Control::Next }),
        ),
        control_step(s, Instr::Jnz { a, target }) == Ok::<(VmState, Control), Fault>(
            (s, if s.machine.regs[a as int] != 0 { Control::JumpTo(target) } else { Control::Next }),
        ),
{
}

/// A RET after a CALL comes back: from a state whose program counter (already past the CALL)
/// is a place a jump may land, a CALL to an allowed target followed, at that target, by RET
/// jumps back to that program counter with the stack as it was.
pub proof fn law_call_then_return(s: VmState, target: u32)
    requires
        s.machine.stack.len() < STACK_LIMIT,
        target_ok(s, target),
        target_ok(s, s.machine.pc),
    ensures
        control_step(s, Instr::Call { target }) is Ok,
        ({
            let (s1, c1) = control_step(s, Instr::Call { target })->Ok_0;
            let at = with_machine(s1, MachineState { pc: target, ..s1.machine });
            &&& c1 == Control::JumpTo(target)
            &&& control_step(at, Instr::Ret) matches Ok((s2, c2)) && c2 == Control::JumpTo(s.machine.pc)
                && s2.machine.stack == s.machine.stack
        }),
{
    let m = s.machine;
    let m1 = MachineState { stack: m.stack.push(m.pc as u64), ..m };
    assert(m1.stack.drop_last() =~= m.stack);
}

/// Storage gives back what was stored: an SLOAD right after an SSTORE through the same key
/// register, at a slot the entry may read and write, writes the stored word.
pub proof fn law_store_then_sload(s: VmState, d: Reg, a: Reg, b: Reg)
    requires
        s.machine.regs.len() == NUM_REGS,
        d < NUM_REGS,
        a < NUM_REGS,
        b < NUM_REGS,
    ensures
        region(s.machine, s.machine.regs[a as int], STORAGE_KEY_BYTES as u64) matches Some(key) ==> (
        may_write(s, slot_of_bytes(key)) && may_read(s, slot_of_bytes(key)) ==> (storage_step(
            s,
            Instr::SStore { a, b },
        ) is Ok && storage_step(storage_step(s, Instr::SStore { a, b })->Ok_0, Instr::SLoad { d, a })
            is Ok && storage_step(storage_step(s, Instr::SStore { a, b })->Ok_0, Instr::SLoad { d, a })->Ok_0.machine.regs[d as int]
            == s.machine.regs[b as int])),
{
}

} // verus!
