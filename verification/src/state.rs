//! Machine state: registers, program counter, operand stack and linear memory.
use vstd::prelude::*;
use crate::bytes::{be64, word64, lemma_word64_be64, read_be64};
use crate::isa::{Reg, NUM_REGS};

verus! {

/// Most words the operand and call stack can hold.
pub const STACK_LIMIT: usize = 1024;

/// Size of the linear scratch memory, zeroed at entry.
pub const MEM_BYTES: usize = 65536;

/// Width of a memory word.
pub const WORD_BYTES: usize = 8;

/// Registers, program counter, stack and memory of one run.
#[derive(Debug, Clone)]
pub struct Machine {
    pub regs: [u64; NUM_REGS],
    pub pc: u32,
    pub stack: Vec<u64>,
    pub mem: Vec<u8>,
}

/// The abstract state of a machine.
pub struct MachineState {
    pub regs: Seq<u64>,
    pub pc: u32,
    pub stack: Seq<u64>,
    pub mem: Seq<u8>,
}

impl View for Machine {
    type V = MachineState;

    open spec fn view(&self) -> MachineState {
        MachineState { regs: self.regs@, pc: self.pc, stack: self.stack@, mem: self.mem@ }
    }
}

/// `mem` with the bytes `b` written from offset `off` on.
pub open spec fn write_bytes(mem: Seq<u8>, off: int, b: Seq<u8>) -> Seq<u8> {
    mem.subrange(0, off) + b + mem.subrange(off + b.len(), mem.len() as int)
}

/// The state every run starts from: zeroed registers and memory, an empty stack.
pub open spec fn initial_machine() -> MachineState {
    MachineState {
        regs: Seq::new(NUM_REGS as nat, |i: int| 0u64),
        pc: 0,
        stack: Seq::empty(),
        mem: Seq::new(MEM_BYTES as nat, |i: int| 0u8),
    }
}

impl Default for Machine {
    fn default() -> (m: Machine)
        ensures
            m@ == initial_machine(),
    {
        Machine::new()
    }
}

impl Machine {
    /// A machine with zeroed registers and memory and an empty stack.
    pub fn new() -> (m: Machine)
        ensures
            m@ == initial_machine(),
    {
        let m = Machine { regs: [0u64; NUM_REGS], pc: 0, stack: Vec::new(), mem: vec![0u8; MEM_BYTES] };
        assert(m.regs@ =~= initial_machine().regs);
        assert(m.mem@ =~= initial_machine().mem);
        m
    }

    /// The value of register `r`.
    pub fn reg(&self, r: Reg) -> (v: u64)
        requires
            r < NUM_REGS,
        ensures
            v == self.regs@[r as int],
    {
        self.regs[r as usize]
    }

    /// Sets register `r` to `v`, leaving everything else as it was.
    pub fn set_reg(&mut self, r: Reg, v: u64)
        requires
            r < NUM_REGS,
        ensures
            final(self)@ == (MachineState { regs: old(self)@.regs.update(r as int, v), ..old(self)@ }),
    {
        self.regs[r as usize] = v;
    }

    /// Pushes `v` unless the stack already holds `STACK_LIMIT` words; says whether it did.
    pub fn push(&mut self, v: u64) -> (ok: bool)
        ensures
            ok == (old(self)@.stack.len() < STACK_LIMIT),
            ok ==> final(self)@ == (MachineState { stack: old(self)@.stack.push(v), ..old(self)@ }),
            !ok ==> final(self)@ == old(self)@,
    {
        if self.stack.len() >= STACK_LIMIT {
            return false;
        }
        self.stack.push(v);
        true
    }

    /// Pops the top of the stack, `None` when it is empty.
    pub fn pop(&mut self) -> (r: Option<u64>)
        ensures
            old(self)@.stack.len() == 0 ==> r is None && final(self)@ == old(self)@,
            old(self)@.stack.len() > 0 ==> r == Some(old(self)@.stack.last()) && final(self)@ == (
            MachineState { stack: old(self)@.stack.drop_last(), ..old(self)@ }),
    {
        let r = self.stack.pop();
        proof {
            if old(self)@.stack.len() > 0 {
                assert(self.stack@ =~= old(self)@.stack.drop_last());
            }
        }
        r
    }

    /// The big-endian word at `offset`, `None` when the eight bytes do not all lie in memory.
    pub fn mem_load(&self, offset: u64) -> (r: Option<u64>)
        ensures
            r is Some <==> offset + WORD_BYTES <= self.mem@.len(),
            r is Some ==> r->Some_0 == word64(
                self.mem@.subrange(offset as int, offset + WORD_BYTES),
            ),
    {
        let len = self.mem.len();
        if offset >= len as u64 || len - (offset as usize) < WORD_BYTES {
            return None;
        }
        Some(read_be64(self.mem.as_slice(), offset as usize))
    }

    /// The `len` bytes at `offset`, `None` when they do not all lie in memory.
    pub fn mem_region(&self, offset: u64, len: u64) -> (r: Option<&[u8]>)
        ensures
            r is Some <==> offset + len <= self.mem@.len(),
            r is Some ==> r->Some_0@ == self.mem@.subrange(offset as int, offset + len),
    {
        let size = self.mem.len();
        if offset > size as u64 || len > (size as u64) - offset {
            return None;
        }
        let start = offset as usize;
        let end = start + len as usize;
        Some(&self.mem.as_slice()[start..end])
    }

    /// Writes `bytes` at `offset` when they fit in memory; says whether they did.
    pub fn mem_write(&mut self, offset: u64, bytes: &[u8]) -> (ok: bool)
        ensures
            ok <==> offset + bytes@.len() <= old(self)@.mem.len(),
            ok ==> final(self)@ == (MachineState {
                mem: write_bytes(old(self)@.mem, offset as int, bytes@),
                ..old(self)@
            }),
            !ok ==> final(self)@ == old(self)@,
    {
        let size = self.mem.len();
        let n = bytes.len();
        if offset > size as u64 || (n as u64) > (size as u64) - offset {
            return false;
        }
        let start = offset as usize;
        let mut j: usize = 0;
        while j < n
            invariant
                n == bytes@.len(),
                start + n <= size,
                size == old(self)@.mem.len(),
                self.mem@.len() == size,
                j <= n,
                self.regs == old(self).regs,
                self.pc == old(self).pc,
                self.stack@ == old(self)@.stack,
                forall|i: int|
                    0 <= i < size ==> #[trigger] self.mem@[i] == if start <= i < start + j {
                        bytes@[i - start]
                    } else {
                        old(self)@.mem[i]
                    },
            decreases n - j,
        {
            self.mem.set(start + j, bytes[j]);
            j = j + 1;
        }
        assert(self.mem@ =~= write_bytes(old(self)@.mem, offset as int, bytes@));
        true
    }

    /// Stores `v` big-endian at `offset` when the eight bytes fit; says whether they did.
    pub fn mem_store(&mut self, offset: u64, v: u64) -> (ok: bool)
        ensures
            ok <==> offset + WORD_BYTES <= old(self)@.mem.len(),
            ok ==> final(self)@ == (MachineState {
                mem: write_bytes(old(self)@.mem, offset as int, be64(v)),
                ..old(self)@
            }),
            !ok ==> final(self)@ == old(self)@,
    {
        let b: [u8; 8] = [
            (v >> 56u64) as u8,
            (v >> 48u64) as u8,
            (v >> 40u64) as u8,
            (v >> 32u64) as u8,
            (v >> 24u64) as u8,
            (v >> 16u64) as u8,
            (v >> 8u64) as u8,
            v as u8,
        ];
        assert(b@ =~= be64(v));
        self.mem_write(offset, &b)
    }
}

/// A word stored at an offset is the word loaded back from it.
pub proof fn law_store_then_load(mem: Seq<u8>, offset: int, v: u64)
    requires
        0 <= offset,
        offset + WORD_BYTES <= mem.len(),
    ensures
        word64(write_bytes(mem, offset, be64(v)).subrange(offset, offset + WORD_BYTES)) == v,
        write_bytes(mem, offset, be64(v)).len() == mem.len(),
{
    let w = write_bytes(mem, offset, be64(v));
    assert(w.subrange(offset, offset + WORD_BYTES) =~= be64(v));
    lemma_word64_be64(v);
}

/// Bytes written to a region are the bytes read back from it, and memory keeps its size.
pub proof fn law_write_then_region(mem: Seq<u8>, offset: int, b: Seq<u8>)
    requires
        0 <= offset,
        offset + b.len() <= mem.len(),
    ensures
        write_bytes(mem, offset, b).subrange(offset, offset + b.len()) =~= b,
        write_bytes(mem, offset, b).len() == mem.len(),
{
}

/// A write leaves every byte outside its region as it was.
pub proof fn law_write_frame(mem: Seq<u8>, offset: int, b: Seq<u8>, i: int)
    requires
        0 <= offset,
        offset + b.len() <= mem.len(),
        0 <= i < mem.len(),
        i < offset || offset + b.len() <= i,
    ensures
        write_bytes(mem, offset, b)[i] == mem[i],
{
}

} // verus!
