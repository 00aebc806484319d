//! The metered interpreter: its fault and effect model and the run loop.
use vstd::prelude::*;
use std::collections::BTreeSet;
use crate::alu::machine_op;
use crate::bytes::read_be64;
use crate::container::{entries_view, find_entry, first_entry, Container, SELECTOR_BYTES};
use crate::crypto::{self, matches_spec};
use crate::isa::{decode, law_encode_decode, lemma_well_formed_fields, DecodeError, Instr, NUM_REGS, op_of, regs_in_range};
use crate::meter;
use crate::semantics::{
    boundary_set, entry_state,
    lemma_step_meters,
    charge, charge_effect, control_step, crypto_step, effect_step, exec_instr, initial_state,
    is_machine_op, lift, outcome_of, run_from, sat_sub, step, storage_step, taint, target_ok,
    with_machine, Control, EffectView, ManifestView, OutcomeView, VmState,
};
use crate::state::{Machine, MachineState};
use crate::storage::{bytes_slot, Slot, Storage, STORAGE_KEY_BYTES};

verus! {

broadcast use vstd::std_specs::btree::group_btree_axioms;

/// Why a run stopped without halting. A faulted run surfaces no state and no effects.
#[derive(Debug, Clone, Copy, PartialEq, Eq, Structural)]
pub enum Fault {
    OutOfMeter,
    Overflow,
    DivByZero,
    StackOverflow,
    StackUnderflow,
    BadMemory,
    BadJump,
    BadConst,
    UnknownSelector,
    BadScheme,
    EffectsTooLarge,
    UndeclaredSlot,
    CryptoFault,
    Decode(DecodeError),
}

/// A native effect, recorded rather than applied: the host applies it after a clean halt.
#[derive(Debug, Clone, PartialEq, Eq)]
pub enum Effect {
    Transfer { to: Vec<u8>, amount: u64 },
    Event { selector: [u8; 4], data: Vec<u8> },
}

impl View for Effect {
    type V = EffectView;

    open spec fn view(&self) -> EffectView {
        match self {
            Effect::Transfer { to, amount } => EffectView::Transfer { to: to@, amount: *amount },
            Effect::Event { selector, data } => EffectView::Event { selector: selector@, data: data@ },
        }
    }
}

/// The views of a list of effects.
pub open spec fn effects_view(v: Seq<Effect>) -> Seq<EffectView> {
    v.map_values(|e: Effect| e@)
}

/// What a clean halt surfaces: registers, meter used, storage and effects.
#[derive(Debug, Clone, PartialEq, Eq)]
pub struct Outcome {
    pub regs: [u64; NUM_REGS],
    pub meter_used: u64,
    pub storage: Storage,
    pub effects: Vec<Effect>,
}

impl View for Outcome {
    type V = OutcomeView;

    open spec fn view(&self) -> OutcomeView {
        OutcomeView {
            regs: self.regs@,
            meter_used: self.meter_used,
            storage: self.storage@,
            effects: effects_view(self.effects@),
        }
    }
}

/// The declared access of the entry being run.
pub struct Manifest {
    pub reads: BTreeSet<Slot>,
    pub writes: BTreeSet<Slot>,
    pub keyed_reads: BTreeSet<u64>,
    pub keyed_writes: BTreeSet<u64>,
    pub boundaries: BTreeSet<u32>,
}

impl View for Manifest {
    type V = ManifestView;

    open spec fn view(&self) -> ManifestView {
        ManifestView {
            reads: self.reads@,
            writes: self.writes@,
            keyed_reads: self.keyed_reads@,
            keyed_writes: self.keyed_writes@,
            boundaries: self.boundaries@,
        }
    }
}

/// One run of the machine over a program and its constant pool.
pub struct Interpreter<'a> {
    code: &'a [u8],
    consts: &'a [u64],
    machine: Machine,
    meter_limit: u64,
    meter_used: u64,
    storage: Storage,
    effects: Vec<Effect>,
    effects_bytes: u64,
    manifest: Option<Manifest>,
    keyed_authorized_reads: BTreeSet<Slot>,
    keyed_authorized_writes: BTreeSet<Slot>,
}

/// The result of an operation matches its specification: success with exactly the specified
/// state, or the specified fault with the state left as it was.
pub open spec fn state_matches(
    r: Result<(), Fault>,
    before: VmState,
    after: VmState,
    spec: Result<VmState, Fault>,
) -> bool {
    match spec {
        Ok(s) => r is Ok && after == s,
        Err(f) => r == Err::<(), Fault>(f) && after == before,
    }
}

/// `s` with `amount` more on the meter.
pub open spec fn charged(s: VmState, amount: int) -> VmState {
    VmState { meter_used: (s.meter_used + amount) as u64, ..s }
}

/// The result of an operation that charges before its work matches its specification:
/// success with exactly the specified state, or the specified fault with the state left as it
/// was but for what the meter was charged before the fault, which stays charged.
pub open spec fn charged_matches(
    r: Result<(), Fault>,
    before: VmState,
    after: VmState,
    spec: Result<VmState, Fault>,
) -> bool {
    match spec {
        Ok(s) => r is Ok && after == s,
        Err(f) => r == Err::<(), Fault>(f) && after == charged(before, after.meter_used - before.meter_used)
            && before.meter_used <= after.meter_used,
    }
}

impl<'a> View for Interpreter<'a> {
    type V = VmState;

    closed spec fn view(&self) -> VmState {
        VmState {
            code: self.code@,
            consts: self.consts@,
            machine: self.machine@,
            meter_limit: self.meter_limit,
            meter_used: self.meter_used,
            storage: self.storage@,
            effects: effects_view(self.effects@),
            effects_bytes: self.effects_bytes,
            manifest: match self.manifest {
                Some(m) => Some(m@),
                None => None,
            },
            auth_reads: self.keyed_authorized_reads@,
            auth_writes: self.keyed_authorized_writes@,
        }
    }
}

/// `s` with the leading bytes of its memory set to `data`, as much of it as fits.
pub open spec fn memory_loaded(s: VmState, data: Seq<u8>) -> VmState {
    let n = if data.len() < s.machine.mem.len() {
        data.len()
    } else {
        s.machine.mem.len()
    };
    VmState {
        machine: MachineState {
            mem: crate::state::write_bytes(s.machine.mem, 0, data.subrange(0, n as int)),
            ..s.machine
        },
        ..s
    }
}

impl<'a> Interpreter<'a> {
    /// The meter never stands past its limit.
    pub open spec fn wf(&self) -> bool {
        self@.meter_used <= self@.meter_limit
    }

    /// A run of `code` from offset zero, with `consts` as the constant pool and a meter of
    /// `meter_limit`, zeroed registers and memory, empty storage and no entry manifest.
    pub fn new(code: &'a [u8], consts: &'a [u64], meter_limit: u64) -> (r: Self)
        ensures
            r@ == initial_state(code@, consts@, meter_limit),
            r.wf(),
    {
        let r = Interpreter {
            code,
            consts,
            machine: Machine::new(),
            meter_limit,
            meter_used: 0,
            storage: Storage::new(),
            effects: Vec::new(),
            effects_bytes: 0,
            manifest: None,
            keyed_authorized_reads: BTreeSet::new(),
            keyed_authorized_writes: BTreeSet::new(),
        };
        assert(effects_view(r.effects@) =~= Seq::<EffectView>::empty());
        r
    }

    /// The same run, starting from `storage`.
    pub fn with_storage(self, storage: Storage) -> (r: Self)
        ensures
            r@ == (VmState { storage: storage@, ..self@ }),
            r.wf() == self.wf(),
    {
        Interpreter { storage, ..self }
    }

    /// The same run, with the leading bytes of memory set to `data` (as much of it as fits).
    pub fn with_memory(self, data: &[u8]) -> (r: Self)
        ensures
            r@ == memory_loaded(self@, data@),
            r.wf() == self.wf(),
    {
        let mut s = self;
        let size = s.machine.mem.len();
        let n = if data.len() < size {
            data.len()
        } else {
            size
        };
        let ok = s.machine.mem_write(0, &data[0..n]);
        assert(ok);
        s
    }

    fn charge(&mut self, amount: u64) -> (r: Result<(), Fault>)
        ensures
            state_matches(r, old(self)@, final(self)@, charge(old(self)@, amount)),
    {
        if amount > self.meter_limit || self.meter_used > self.meter_limit - amount {
            return Err(Fault::OutOfMeter);
        }
        self.meter_used = self.meter_used + amount;
        Ok(())
    }

    fn charge_effect(&mut self, bytes: usize) -> (r: Result<(), Fault>)
        ensures
            charged_matches(r, old(self)@, final(self)@, charge_effect(old(self)@, bytes as u64)),
            r == Err::<(), Fault>(Fault::OutOfMeter) ==> final(self)@ == old(self)@,
            r == Err::<(), Fault>(Fault::EffectsTooLarge) ==> final(self)@ == charged(
                old(self)@,
                bytes * meter::EFFECT_BYTE,
            ),
    {
        let n = bytes as u64;
        let byte_cost = match n.checked_mul(meter::EFFECT_BYTE) {
            Some(c) => c,
            None => return Err(Fault::OutOfMeter),
        };
        self.charge(byte_cost)?;
        let retained = match self.effects_bytes.checked_add(n) {
            Some(v) => v,
            None => return Err(Fault::EffectsTooLarge),
        };
        if retained > meter::EFFECTS_BYTES_CAP {
            return Err(Fault::EffectsTooLarge);
        }
        self.effects_bytes = retained;
        Ok(())
    }

    fn target_ok(&self, target: u32) -> (r: bool)
        ensures
            r == target_ok(self@, target),
    {
        match &self.manifest {
            Some(man) => man.boundaries.contains(&target),
            None => (target as usize) < self.code.len(),
        }
    }

    fn control(&mut self, i: Instr) -> (r: Result<Control, Fault>)
        requires
            regs_in_range(i),
        ensures
            match control_step(old(self)@, i) {
                Ok((s, c)) => r == Ok::<Control, Fault>(c) && final(self)@ == s,
                Err(f) => r == Err::<Control, Fault>(f),
            },
    {
        match i {
            Instr::Jmp { target } => {
                if !self.target_ok(target) {
                    return Err(Fault::BadJump);
                }
                Ok(Control::JumpTo(target))
            },
            Instr::Jz { a, target } => {
                if self.machine.reg(a) == 0 {
                    if !self.target_ok(target) {
                        return Err(Fault::BadJump);
                    }
                    return Ok(Control::JumpTo(target));
                }
                Ok(Control::Next)
            },
            Instr::Jnz { a, target } => {
                if self.machine.reg(a) != 0 {
                    if !self.target_ok(target) {
                        return Err(Fault::BadJump);
                    }
                    return Ok(Control::JumpTo(target));
                }
                Ok(Control::Next)
            },
            Instr::Call { target } => {
                let ret = self.machine.pc as u64;
                if !self.machine.push(ret) {
                    return Err(Fault::StackOverflow);
                }
                if !self.target_ok(target) {
                    return Err(Fault::BadJump);
                }
                Ok(Control::JumpTo(target))
            },
            Instr::Ret => {
                let ret = match self.machine.pop() {
                    Some(v) => v,
                    None => return Err(Fault::StackUnderflow),
                };
                if ret > u32::MAX as u64 {
                    return Err(Fault::BadJump);
                }
                let target = ret as u32;
                if !self.target_ok(target) {
                    return Err(Fault::BadJump);
                }
                Ok(Control::JumpTo(target))
            },
            _ => Ok(Control::Next),
        }
    }

    fn may_read(&self, slot: &Slot) -> (r: bool)
        ensures
            r == crate::semantics::may_read(self@, *slot),
    {
        match &self.manifest {
            None => true,
            Some(man) => man.reads.contains(slot) || man.writes.contains(slot)
                || self.keyed_authorized_reads.contains(slot),
        }
    }

    fn may_write(&self, slot: &Slot) -> (r: bool)
        ensures
            r == crate::semantics::may_write(self@, *slot),
    {
        match &self.manifest {
            None => true,
            Some(man) => man.writes.contains(slot) || self.keyed_authorized_writes.contains(slot),
        }
    }

    fn storage_op(&mut self, i: Instr) -> (r: Result<(), Fault>)
        requires
            regs_in_range(i),
        ensures
            state_matches(r, old(self)@, final(self)@, storage_step(old(self)@, i)),
    {
        match i {
            Instr::SLoad { d, a } => {
                let slot = match self.machine.mem_region(self.machine.reg(a), STORAGE_KEY_BYTES as u64) {
                    Some(key) => bytes_slot(key),
                    None => return Err(Fault::BadMemory),
                };
                if !self.may_read(&slot) {
                    return Err(Fault::UndeclaredSlot);
                }
                let v = self.storage.value_at(&slot);
                self.machine.set_reg(d, v);
                Ok(())
            },
            Instr::SStore { a, b } => {
                let slot = match self.machine.mem_region(self.machine.reg(a), STORAGE_KEY_BYTES as u64) {
                    Some(key) => bytes_slot(key),
                    None => return Err(Fault::BadMemory),
                };
                let val = self.machine.reg(b);
                if !self.may_write(&slot) {
                    return Err(Fault::UndeclaredSlot);
                }
                self.storage.put(slot, val);
                Ok(())
            },
            _ => Ok(()),
        }
    }

    fn record(&mut self, e: Effect)
        ensures
            final(self)@ == (VmState { effects: old(self)@.effects.push(e@), ..old(self)@ }),
    {
        self.effects.push(e);
        assert(effects_view(self.effects@) =~= effects_view(old(self).effects@).push(e@));
    }

    fn effect_op(&mut self, i: Instr) -> (r: Result<(), Fault>)
        requires
            regs_in_range(i),
        ensures
            charged_matches(r, old(self)@, final(self)@, effect_step(old(self)@, i)),
    {
        match i {
            Instr::Send { a, b, c } => {
                let amount = self.machine.reg(c);
                let to = match self.machine.mem_region(self.machine.reg(a), self.machine.reg(b)) {
                    Some(region) => {
                        let mut v: Vec<u8> = Vec::new();
                        crypto::append(&mut v, region);
                        v
                    },
                    None => return Err(Fault::BadMemory),
                };
                self.charge_effect(to.len())?;
                self.record(Effect::Transfer { to, amount });
                Ok(())
            },
            Instr::Emit { a, b, c } => {
                let word = self.machine.reg(c) as u32;
                let selector: [u8; 4] = [
                    (word >> 24u32) as u8,
                    (word >> 16u32) as u8,
                    (word >> 8u32) as u8,
                    word as u8,
                ];
                assert(selector@ =~= crate::bytes::be32(word));
                let data = match self.machine.mem_region(self.machine.reg(a), self.machine.reg(b)) {
                    Some(region) => {
                        let mut v: Vec<u8> = Vec::new();
                        crypto::append(&mut v, region);
                        v
                    },
                    None => return Err(Fault::BadMemory),
                };
                self.charge_effect(data.len())?;
                self.record(Effect::Event { selector, data });
                Ok(())
            },
            _ => Ok(()),
        }
    }

    fn taint_keyed_from_hash(&mut self, preimage: u64, len: u64, out: u64)
        ensures
            final(self)@ == taint(old(self)@, preimage, len, out),
    {
        if len < 8 {
            return;
        }
        let base = match self.machine.mem_region(preimage, 8) {
            Some(head) => read_be64(head, 0),
            None => return,
        };
        let (is_write, is_read) = match &self.manifest {
            Some(man) => {
                let w = man.keyed_writes.contains(&base);
                (w, w || man.keyed_reads.contains(&base))
            },
            None => return,
        };
        if !is_read {
            return;
        }
        let slot = match self.machine.mem_region(out, STORAGE_KEY_BYTES as u64) {
            Some(key) => bytes_slot(key),
            None => return,
        };
        if is_write {
            self.keyed_authorized_writes.insert(slot);
        }
        self.keyed_authorized_reads.insert(slot);
    }

    fn crypto_op(&mut self, i: Instr) -> (r: Result<(), Fault>)
        requires
            regs_in_range(i),
        ensures
            charged_matches(r, old(self)@, final(self)@, crypto_step(old(self)@, i)),
    {
        match i {
            Instr::Hash { a, b, c } => {
                let preimage = self.machine.reg(a);
                let len = self.machine.reg(b);
                let out = self.machine.reg(c);
                self.charge(meter::hash_variable(len))?;
                crypto::hash(&mut self.machine, a, b, c)?;
                self.taint_keyed_from_hash(preimage, len, out);
                Ok(())
            },
            Instr::VerifyMl { a, b, c } => {
                let tail = self.machine.reg(b).saturating_sub(crypto::ML_DSA_SIGNED_BYTES);
                self.charge(meter::message_variable(tail))?;
                crypto::verify_ml(&mut self.machine, a, b, c)
            },
            Instr::VerifySlh { a, b, c } => {
                let tail = self.machine.reg(b).saturating_sub(crypto::SLH_DSA_SIGNED_BYTES);
                self.charge(meter::message_variable(tail))?;
                crypto::verify_slh(&mut self.machine, a, b, c)
            },
            Instr::MerkleVerify { a, b, c } => {
                let path = self.machine.reg(b).saturating_sub(crypto::MERKLE_HEADER);
                self.charge(meter::merkle_variable(path))?;
                crypto::merkle_verify(&mut self.machine, a, b, c)
            },
            Instr::Kem { a, b, c } => crypto::kem(&mut self.machine, a, b, c),
            Instr::Addr { a, b, c } => crypto::address(&mut self.machine, a, b, c),
            _ => Ok(()),
        }
    }

    fn step(&mut self, i: Instr) -> (r: Result<Control, Fault>)
        requires
            regs_in_range(i),
        ensures
            match exec_instr(old(self)@, i) {
                Ok((s, c)) => r == Ok::<Control, Fault>(c) && final(self)@ == s,
                Err(f) => r == Err::<Control, Fault>(f),
            },
    {
        match i {
            Instr::Halt => Ok(Control::Halt),
            Instr::Nop => Ok(Control::Next),
            Instr::Jmp { .. } | Instr::Jz { .. } | Instr::Jnz { .. } | Instr::Call { .. } | Instr::Ret => {
                self.control(i)
            },
            Instr::SLoad { .. } | Instr::SStore { .. } => {
                self.storage_op(i)?;
                Ok(Control::Next)
            },
            Instr::Send { .. } | Instr::Emit { .. } => {
                self.effect_op(i)?;
                Ok(Control::Next)
            },
            Instr::Hash { .. } | Instr::VerifyMl { .. } | Instr::VerifySlh { .. } | Instr::MerkleVerify {
                ..
            } | Instr::Kem { .. } | Instr::Addr { .. } => {
                self.crypto_op(i)?;
                Ok(Control::Next)
            },
            _ => {
                machine_op(&mut self.machine, self.consts, i)?;
                Ok(Control::Next)
            },
        }
    }

    /// One cycle: decode at the program counter, charge, move past the instruction and run it.
    /// `Ok(true)` is a clean halt.
    fn cycle(&mut self) -> (r: Result<bool, Fault>)
        requires
            old(self).wf(),
        ensures
            match step(old(self)@) {
                Err(f) => r == Err::<bool, Fault>(f),
                Ok(Err(out)) => r == Ok::<bool, Fault>(true) && outcome_of(final(self)@) == out,
                Ok(Ok(next)) => r == Ok::<bool, Fault>(false) && final(self)@ == next,
            },
    {
        proof {
            reveal(step);
        }
        let code_len = self.code.len();
        let pc = self.machine.pc as usize;
        let (instr, len) = match decode(self.code, pc) {
            Ok(d) => d,
            Err(e) => return Err(Fault::Decode(e)),
        };
        proof {
            law_encode_decode(self.code@, pc as int);
            lemma_well_formed_fields(instr);
        }
        let cost = meter::cost(instr.opcode());
        if cost > self.meter_limit - self.meter_used {
            return Err(Fault::OutOfMeter);
        }
        self.meter_used = self.meter_used + cost;
        let next = pc + len;
        if next > u32::MAX as usize {
            return Err(Fault::BadJump);
        }
        self.machine.pc = next as u32;
        match self.step(instr) {
            Err(f) => Err(f),
            Ok(Control::Halt) => Ok(true),
            Ok(Control::Next) => Ok(false),
            Ok(Control::JumpTo(target)) => {
                self.machine.pc = target;
                Ok(false)
            },
        }
    }

    /// Runs until a clean halt or a fault. A halt surfaces the registers, the meter used, the
    /// storage and the recorded effects; a fault surfaces only the fault, so every change the
    /// run made is rolled back.
    pub fn run(self) -> (r: Result<Outcome, Fault>)
        requires
            self.wf(),
        ensures
            match run_from(self@) {
                Ok(o) => r is Ok && r->Ok_0@ == o,
                Err(f) => r == Err::<Outcome, Fault>(f),
            },
    {
        let ghost start = self@;
        let mut s = self;
        loop
            invariant
                start == self@,
                s.wf(),
                run_from(s@) == run_from(start),
            decreases s@.meter_limit - s@.meter_used,
        {
            let ghost before = s@;
            match s.cycle() {
                Err(f) => {
                    assert(run_from(before) == Err::<OutcomeView, Fault>(f));
                    return Err(f);
                },
                Ok(true) => {
                    assert(run_from(before) == Ok::<OutcomeView, Fault>(outcome_of(s@)));
                    let out = Outcome {
                        regs: s.machine.regs,
                        meter_used: s.meter_used,
                        storage: s.storage,
                        effects: s.effects,
                    };
                    assert(out@ == outcome_of(s@));
                    return Ok(out);
                },
                Ok(false) => {
                    proof {
                        lemma_step_meters(before);
                    }
                },
            }
        }
    }
}

/// The offsets where instructions start, walking the code from offset zero until its end,
/// the 32-bit range, or bytes that do not decode.
pub fn boundaries(code: &[u8]) -> (r: BTreeSet<u32>)
    ensures
        r@ == boundary_set(code@, 0),
{
    let mut set: BTreeSet<u32> = BTreeSet::new();
    let mut pc: usize = 0;
    proof {
        assert(set@.union(boundary_set(code@, 0)) =~= boundary_set(code@, 0));
    }
    while pc < code.len()
        invariant
            pc <= code@.len(),
            set@.union(boundary_set(code@, pc as nat)) == boundary_set(code@, 0),
        decreases code@.len() - pc,
    {
        if pc > u32::MAX as usize {
            assert(set@ =~= set@.union(boundary_set(code@, pc as nat)));
            return set;
        }
        match decode(code, pc) {
            Ok((_, len)) => {
                proof {
                    law_encode_decode(code@, pc as int);
                    let rest = boundary_set(code@, (pc + len) as nat);
                    assert(set@.insert(pc as u32).union(rest) =~= set@.union(rest.insert(pc as u32)));
                }
                set.insert(pc as u32);
                pc = pc + len;
            },
            Err(_) => {
                assert(set@ =~= set@.union(boundary_set(code@, pc as nat)));
                return set;
            },
        }
    }
    assert(set@ =~= set@.union(boundary_set(code@, pc as nat)));
    set
}

fn slot_set(slots: &[u64]) -> (r: BTreeSet<Slot>)
    ensures
        r@ == slots@.map_values(|s: u64| crate::abi::scalar_slot(s)).to_set(),
{
    let mut set: BTreeSet<Slot> = BTreeSet::new();
    let mut k: usize = 0;
    while k < slots.len()
        invariant
            k <= slots@.len(),
            set@ == slots@.subrange(0, k as int).map_values(|s: u64| crate::abi::scalar_slot(s)).to_set(),
        decreases slots@.len() - k,
    {
        let key = crate::abi::scalar_key(slots[k]);
        let slot = crate::storage::key_slot(&key);
        set.insert(slot);
        proof {
            let f = |s: u64| crate::abi::scalar_slot(s);
            let before = slots@.subrange(0, k as int).map_values(f);
            let after = slots@.subrange(0, k + 1).map_values(f);
            assert(after =~= before.push(f(slots@[k as int])));
            before.lemma_push_to_set_commute(f(slots@[k as int]));
        }
        k = k + 1;
    }
    assert(slots@.subrange(0, slots@.len() as int) =~= slots@);
    set
}

fn word_set(words: &[u64]) -> (r: BTreeSet<u64>)
    ensures
        r@ == words@.to_set(),
{
    let mut set: BTreeSet<u64> = BTreeSet::new();
    let mut k: usize = 0;
    while k < words.len()
        invariant
            k <= words@.len(),
            set@ == words@.subrange(0, k as int).to_set(),
        decreases words@.len() - k,
    {
        set.insert(words[k]);
        proof {
            assert(words@.subrange(0, k + 1) =~= words@.subrange(0, k as int).push(words@[k as int]));
            words@.subrange(0, k as int).lemma_push_to_set_commute(words@[k as int]);
        }
        k = k + 1;
    }
    assert(words@.subrange(0, words@.len() as int) =~= words@);
    set
}

impl<'a> Interpreter<'a> {
    /// A run of the entry `selector` names: it starts at the entry's offset with the dispatch
    /// charge on the meter, may only touch the storage its manifest declares, and may only
    /// jump to instruction starts.
    pub fn for_entry(container: &'a Container, selector: [u8; SELECTOR_BYTES], meter_limit: u64) -> (r: Result<Self, Fault>)
        ensures
            match first_entry(container@.entries, selector@) {
                None => r == Err::<Self, Fault>(Fault::UnknownSelector),
                Some(k) => if meter::DISPATCH > meter_limit {
                    r == Err::<Self, Fault>(Fault::OutOfMeter)
                } else {
                    r is Ok && r->Ok_0@ == entry_state(container@, container@.entries[k], meter_limit)
                        && r->Ok_0.wf()
                },
            },
    {
        let k = match find_entry(container.entries.as_slice(), &selector) {
            Some(k) => k,
            None => return Err(Fault::UnknownSelector),
        };
        if meter::DISPATCH > meter_limit {
            return Err(Fault::OutOfMeter);
        }
        let entry = &container.entries[k];
        let manifest = Manifest {
            reads: slot_set(entry.access.reads.as_slice()),
            writes: slot_set(entry.access.writes.as_slice()),
            keyed_reads: word_set(entry.access.keyed_reads.as_slice()),
            keyed_writes: word_set(entry.access.keyed_writes.as_slice()),
            boundaries: boundaries(container.code.as_slice()),
        };
        let mut interp = Interpreter::new(container.code.as_slice(), container.consts.as_slice(), meter_limit);
        interp.machine.pc = entry.offset;
        interp.meter_used = meter::DISPATCH;
        interp.manifest = Some(manifest);
        assert(entries_view(container.entries@)[k as int] == container.entries@[k as int]@);
        Ok(interp)
    }
}

} // verus!
