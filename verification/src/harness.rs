//! Random inputs for exercising the decoder and the interpreter: a seeded generator, random
//! byte strings, random well-formed programs and crypto calls over unconstrained memory.
//! Every run here is metered under `GAS_BOUND`, and the bound is proved, not checked.
use vstd::prelude::*;
use vstd::wrapping::u64_specs::{wrapping_add, wrapping_mul};
use crate::interp::{memory_loaded, Interpreter, Outcome, Fault};
use crate::isa::{decode, decodes_from, encoding, lemma_decodes_append, well_formed, Instr, NUM_REGS};
use crate::semantics::{initial_state, law_run_within_meter, run_from};
use crate::state::MEM_BYTES;

verus! {

/// Every run in a batch is metered with this limit.
pub const GAS_BOUND: u64 = 100_000;

/// The state after one step of the generator.
pub open spec fn mix_advance(state: u64) -> u64 {
    wrapping_add(state, 11400714819323198485)
}

/// The word the generator yields from a state it has just stepped to.
pub open spec fn mix_output(state: u64) -> u64 {
    let z1 = wrapping_mul(state ^ (state >> 30u64), 13787848793156543929);
    let z2 = wrapping_mul(z1 ^ (z1 >> 27u64), 10723151780598845931);
    z2 ^ (z2 >> 31u64)
}

/// The state after `k` steps.
pub open spec fn advance_by(state: u64, k: nat) -> u64
    decreases k,
{
    if k == 0 {
        state
    } else {
        mix_advance(advance_by(state, (k - 1) as nat))
    }
}

/// A seeded 64-bit generator: a counter stepped by a fixed odd constant, its words mixed
/// by two multiply-xorshift rounds.
pub struct Rng {
    state: u64,
}

impl View for Rng {
    type V = u64;

    closed spec fn view(&self) -> u64 {
        self.state
    }
}

impl Rng {
    /// A generator in state `seed`.
    pub fn new(seed: u64) -> (r: Rng)
        ensures
            r@ == seed,
    {
        Rng { state: seed }
    }

    /// Steps the generator and yields its next word.
    pub fn next_u64(&mut self) -> (r: u64)
        ensures
            final(self)@ == mix_advance(old(self)@),
            r == mix_output(final(self)@),
    {
        self.state = self.state.wrapping_add(11400714819323198485);
        let mut z = self.state;
        z = (z ^ (z >> 30)).wrapping_mul(13787848793156543929);
        z = (z ^ (z >> 27)).wrapping_mul(10723151780598845931);
        z ^ (z >> 31)
    }

    /// Steps the generator and yields its next word reduced below `n`.
    pub fn below(&mut self, n: u64) -> (r: u64)
        requires
            n > 0,
        ensures
            final(self)@ == mix_advance(old(self)@),
            r == mix_output(final(self)@) % n,
            r < n,
    {
        self.next_u64() % n
    }
}

/// A register number drawn from the generator.
pub fn rand_reg(rng: &mut Rng) -> (r: u8)
    ensures
        final(rng)@ == mix_advance(old(rng)@),
        r == mix_output(final(rng)@) % (NUM_REGS as u64),
        r < NUM_REGS,
{
    rng.below(NUM_REGS as u64) as u8
}

/// Between zero and `max` bytes drawn from the generator: the first word picks the length,
/// each further word gives one byte, its low eight bits.
pub fn rand_bytes(rng: &mut Rng, max: usize) -> (r: Vec<u8>)
    requires
        max < u64::MAX,
    ensures
        r@.len() == mix_output(mix_advance(old(rng)@)) % ((max + 1) as u64),
        r@.len() <= max,
        forall|i: int|
            0 <= i < r@.len() ==> #[trigger] r@[i] == mix_output(advance_by(old(rng)@, (i + 2) as nat)) as u8,
        final(rng)@ == advance_by(old(rng)@, r@.len() + 1),
{
    let ghost s0 = rng@;
    let len = rng.below((max as u64) + 1) as usize;
    let mut out: Vec<u8> = Vec::new();
    let mut k: usize = 0;
    assert(advance_by(s0, 1) == mix_advance(s0)) by {
        assert(advance_by(s0, 0) == s0);
    }
    while k < len
        invariant
            k <= len,
            len <= max,
            len == mix_output(mix_advance(s0)) % ((max + 1) as u64),
            out@.len() == k,
            forall|i: int| 0 <= i < k ==> #[trigger] out@[i] == mix_output(advance_by(s0, (i + 2) as nat)) as u8,
            rng@ == advance_by(s0, (k + 1) as nat),
        decreases len - k,
    {
        let w = rng.next_u64();
        assert(rng@ == advance_by(s0, (k + 2) as nat));
        out.push(w as u8);
        k = k + 1;
    }
    out
}

/// Up to seven constants drawn from the generator: the first word picks how many, each
/// further word is one constant.
pub fn rand_consts(rng: &mut Rng) -> (r: Vec<u64>)
    ensures
        r@.len() == mix_output(mix_advance(old(rng)@)) % 8,
        forall|i: int|
            0 <= i < r@.len() ==> #[trigger] r@[i] == mix_output(advance_by(old(rng)@, (i + 2) as nat)),
        final(rng)@ == advance_by(old(rng)@, r@.len() + 1),
{
    let ghost s0 = rng@;
    let len = rng.below(8) as usize;
    let mut out: Vec<u64> = Vec::new();
    let mut k: usize = 0;
    assert(advance_by(s0, 1) == mix_advance(s0)) by {
        assert(advance_by(s0, 0) == s0);
    }
    while k < len
        invariant
            k <= len,
            len == mix_output(mix_advance(s0)) % 8,
            out@.len() == k,
            forall|i: int| 0 <= i < k ==> #[trigger] out@[i] == mix_output(advance_by(s0, (i + 2) as nat)),
            rng@ == advance_by(s0, (k + 1) as nat),
        decreases len - k,
    {
        let w = rng.next_u64();
        assert(rng@ == advance_by(s0, (k + 2) as nat));
        out.push(w);
        k = k + 1;
    }
    out
}

/// The `j`-th word drawn after the first from state `s`.
pub open spec fn word_at(s: u64, j: nat) -> u64 {
    mix_output(advance_by(s, j + 2))
}

/// The `j`-th register drawn after the first word from state `s`.
pub open spec fn reg_at(s: u64, j: nat) -> u8 {
    (word_at(s, j) % (NUM_REGS as u64)) as u8
}

/// The instruction the generator in state `s` yields, and its state afterwards: the first
/// word picks one of nineteen kinds, further words fill the operands in order. Registers
/// are in range, branch targets below 64, and the last kind is HALT.
pub open spec fn rand_instr_spec(s: u64) -> (Instr, u64) {
    let c = mix_output(advance_by(s, 1)) % 19;

    if c == 0 {
        (Instr::Ldi { d: reg_at(s, 0), imm: word_at(s, 1) }, advance_by(s, 3))
    } else if c == 1 {
        (Instr::Mov { d: reg_at(s, 0), a: reg_at(s, 1) }, advance_by(s, 3))
    } else if c == 2 {
        (Instr::Add { d: reg_at(s, 0), a: reg_at(s, 1), b: reg_at(s, 2) }, advance_by(s, 4))
    } else if c == 3 {
        (Instr::Sub { d: reg_at(s, 0), a: reg_at(s, 1), b: reg_at(s, 2) }, advance_by(s, 4))
    } else if c == 4 {
        (Instr::Mul { d: reg_at(s, 0), a: reg_at(s, 1), b: reg_at(s, 2) }, advance_by(s, 4))
    } else if c == 5 {
        (Instr::Div { d: reg_at(s, 0), a: reg_at(s, 1), b: reg_at(s, 2) }, advance_by(s, 4))
    } else if c == 6 {
        (Instr::AddW { d: reg_at(s, 0), a: reg_at(s, 1), b: reg_at(s, 2) }, advance_by(s, 4))
    } else if c == 7 {
        (Instr::And { d: reg_at(s, 0), a: reg_at(s, 1), b: reg_at(s, 2) }, advance_by(s, 4))
    } else if c == 8 {
        (Instr::Xor { d: reg_at(s, 0), a: reg_at(s, 1), b: reg_at(s, 2) }, advance_by(s, 4))
    } else if c == 9 {
        (Instr::Shl { d: reg_at(s, 0), a: reg_at(s, 1), b: reg_at(s, 2) }, advance_by(s, 4))
    } else if c == 10 {
        (Instr::Eq { d: reg_at(s, 0), a: reg_at(s, 1), b: reg_at(s, 2) }, advance_by(s, 4))
    } else if c == 11 {
        (Instr::Push { a: reg_at(s, 0) }, advance_by(s, 2))
    } else if c == 12 {
        (Instr::Pop { d: reg_at(s, 0) }, advance_by(s, 2))
    } else if c == 13 {
        (Instr::MStore { a: reg_at(s, 0), b: reg_at(s, 1) }, advance_by(s, 3))
    } else if c == 14 {
        (Instr::SStore { a: reg_at(s, 0), b: reg_at(s, 1) }, advance_by(s, 3))
    } else if c == 15 {
        (Instr::SLoad { d: reg_at(s, 0), a: reg_at(s, 1) }, advance_by(s, 3))
    } else if c == 16 {
        (Instr::Jz { a: reg_at(s, 0), target: (word_at(s, 1) % 64) as u32 }, advance_by(s, 3))
    } else if c == 17 {
        (Instr::Jnz { a: reg_at(s, 0), target: (word_at(s, 1) % 64) as u32 }, advance_by(s, 3))
    } else {
        (Instr::Halt, advance_by(s, 1))
    }
}

/// One random instruction of the kinds the batches exercise.
pub fn rand_instr(rng: &mut Rng) -> (r: Instr)
    ensures
        (r, final(rng)@) == rand_instr_spec(old(rng)@),
{
    let ghost s = rng@;
    proof {
        reveal_with_fuel(advance_by, 5);
    }
    match rng.below(19) {
        0 => Instr::Ldi { d: rand_reg(rng), imm: rng.next_u64() },
        1 => Instr::Mov { d: rand_reg(rng), a: rand_reg(rng) },
        2 => Instr::Add { d: rand_reg(rng), a: rand_reg(rng), b: rand_reg(rng) },
        3 => Instr::Sub { d: rand_reg(rng), a: rand_reg(rng), b: rand_reg(rng) },
        4 => Instr::Mul { d: rand_reg(rng), a: rand_reg(rng), b: rand_reg(rng) },
        5 => Instr::Div { d: rand_reg(rng), a: rand_reg(rng), b: rand_reg(rng) },
        6 => Instr::AddW { d: rand_reg(rng), a: rand_reg(rng), b: rand_reg(rng) },
        7 => Instr::And { d: rand_reg(rng), a: rand_reg(rng), b: rand_reg(rng) },
        8 => Instr::Xor { d: rand_reg(rng), a: rand_reg(rng), b: rand_reg(rng) },
        9 => Instr::Shl { d: rand_reg(rng), a: rand_reg(rng), b: rand_reg(rng) },
        10 => Instr::Eq { d: rand_reg(rng), a: rand_reg(rng), b: rand_reg(rng) },
        11 => Instr::Push { a: rand_reg(rng) },
        12 => Instr::Pop { d: rand_reg(rng) },
        13 => Instr::MStore { a: rand_reg(rng), b: rand_reg(rng) },
        14 => Instr::SStore { a: rand_reg(rng), b: rand_reg(rng) },
        15 => Instr::SLoad { d: rand_reg(rng), a: rand_reg(rng) },
        16 => Instr::Jz { a: rand_reg(rng), target: rng.below(64) as u32 },
        17 => Instr::Jnz { a: rand_reg(rng), target: rng.below(64) as u32 },
        _ => Instr::Halt,
    }
}

/// Every instruction the generator yields names registers in range, so it decodes back to
/// itself wherever it is encoded.
pub proof fn law_rand_instr_well_formed(s: u64)
    ensures
        well_formed(rand_instr_spec(s).0),
{
    let i = rand_instr_spec(s).0;
    assert forall|j: int| 0 <= j < crate::isa::regs_of(i).len() implies #[trigger] crate::isa::regs_of(i)[j] < NUM_REGS by {
        assert forall|k: nat| #[trigger] reg_at(s, k) < NUM_REGS by {}
    }
}

/// The bytes of `k` instructions drawn one after another from state `s`, and the state
/// afterwards.
pub open spec fn rand_instrs_spec(s: u64, k: nat) -> (Seq<u8>, u64)
    decreases k,
{
    if k == 0 {
        (Seq::empty(), s)
    } else {
        let (code, s1) = rand_instrs_spec(s, (k - 1) as nat);
        let (i, s2) = rand_instr_spec(s1);
        (code + encoding(i), s2)
    }
}

/// The program the generator in state `s` yields, and its state afterwards: the first word
/// picks up to 47 random instructions, and a HALT ends them.
pub open spec fn rand_program_spec(s: u64) -> (Seq<u8>, u64) {
    let n = mix_output(advance_by(s, 1)) % 48;
    let (code, s2) = rand_instrs_spec(advance_by(s, 1), n as nat);
    (code + encoding(Instr::Halt), s2)
}

/// A random program of well-formed instructions, ending in HALT.
pub fn rand_program(rng: &mut Rng) -> (r: Vec<u8>)
    ensures
        (r@, final(rng)@) == rand_program_spec(old(rng)@),
{
    let ghost s0 = rng@;
    let count = rng.below(48) as usize;
    assert(advance_by(s0, 1) == mix_advance(s0)) by {
        assert(advance_by(s0, 0) == s0);
    }
    let mut code: Vec<u8> = Vec::new();
    let mut k: usize = 0;
    while k < count
        invariant
            k <= count,
            count == mix_output(advance_by(s0, 1)) % 48,
            (code@, rng@) == rand_instrs_spec(advance_by(s0, 1), k as nat),
        decreases count - k,
    {
        let instr = rand_instr(rng);
        instr.encode(&mut code);
        k = k + 1;
    }
    Instr::Halt.encode(&mut code);
    code
}

/// Walks the decoder over `code` from the start until it ends or meets bytes that do not
/// decode.
pub fn decode_sweep(code: &[u8]) {
    let mut pc: usize = 0;
    while pc < code.len()
        invariant
            pc <= code@.len(),
        decreases code@.len() - pc,
    {
        match decode(code, pc) {
            Ok((_, len)) => {
                proof {
                    crate::container::lemma_decode_len_positive(code@, pc as int);
                    crate::isa::law_encode_decode(code@, pc as int);
                }
                pc = pc + len;
            },
            Err(_) => {
                break;
            },
        }
    }
}

/// Decodes and runs one input under `GAS_BOUND`. A run that halts has used no more than the
/// bound: that is proved here, so nothing is checked at run time.
pub fn exercise(code: &[u8], consts: &[u64]) {
    decode_sweep(code);
    let interp = Interpreter::new(code, consts, GAS_BOUND);
    let ghost start = interp@;
    if let Ok(outcome) = interp.run() {
        proof {
            law_run_within_meter(start);
        }
        assert(outcome.meter_used <= GAS_BOUND);
    }
}

/// The crypto call a crypto case makes, by the word that picks it.
pub open spec fn crypto_instr(choice: u64) -> Instr {
    if choice == 0 {
        Instr::Hash { a: 0, b: 1, c: 2 }
    } else if choice == 1 {
        Instr::VerifyMl { a: 0, b: 1, c: 2 }
    } else if choice == 2 {
        Instr::VerifySlh { a: 0, b: 1, c: 2 }
    } else if choice == 3 {
        Instr::MerkleVerify { a: 0, b: 1, c: 2 }
    } else {
        Instr::Kem { a: 0, b: 1, c: 2 }
    }
}

/// The program of a crypto case: the region at offset zero of length `len`, the output at
/// `out`, the call picked by `choice`, then HALT.
pub open spec fn crypto_program(len: u64, out: u64, choice: u64) -> Seq<u8> {
    encoding(Instr::Ldi { d: 0, imm: 0 }) + encoding(Instr::Ldi { d: 1, imm: len }) + encoding(
        Instr::Ldi { d: 2, imm: out },
    ) + encoding(crypto_instr(choice)) + encoding(Instr::Halt)
}

/// One crypto case: memory filled with unconstrained bytes, and a program that calls one
/// crypto instruction over a region of random length and with a random output offset, both
/// within memory.
pub fn rand_crypto_case(rng: &mut Rng) -> (r: (Vec<u8>, Vec<u8>))
    ensures
        r.1@.len() == MEM_BYTES,
        forall|i: int| 0 <= i < MEM_BYTES ==> #[trigger] r.1@[i] == mix_output(advance_by(old(rng)@, (i + 1) as nat)) as u8,
        r.0@ == crypto_program(
            mix_output(advance_by(old(rng)@, (MEM_BYTES + 1) as nat)) % ((MEM_BYTES + 1) as u64),
            mix_output(advance_by(old(rng)@, (MEM_BYTES + 2) as nat)) % ((MEM_BYTES + 1) as u64),
            mix_output(advance_by(old(rng)@, (MEM_BYTES + 3) as nat)) % 5,
        ),
        final(rng)@ == advance_by(old(rng)@, (MEM_BYTES + 3) as nat),
{
    let ghost s0 = rng@;
    let mut mem: Vec<u8> = Vec::new();
    let mut k: usize = 0;
    while k < MEM_BYTES
        invariant
            k <= MEM_BYTES,
            mem@.len() == k,
            forall|i: int| 0 <= i < k ==> #[trigger] mem@[i] == mix_output(advance_by(s0, (i + 1) as nat)) as u8,
            rng@ == advance_by(s0, k as nat),
        decreases MEM_BYTES - k,
    {
        let w = rng.next_u64();
        assert(rng@ == advance_by(s0, (k + 1) as nat));
        mem.push(w as u8);
        k = k + 1;
    }
    let len = rng.below((MEM_BYTES as u64) + 1);
    assert(rng@ == advance_by(s0, (MEM_BYTES + 1) as nat));
    let out = rng.below((MEM_BYTES as u64) + 1);
    assert(rng@ == advance_by(s0, (MEM_BYTES + 2) as nat));
    let choice = rng.below(5);
    assert(rng@ == advance_by(s0, (MEM_BYTES + 3) as nat));
    let crypto = if choice == 0 {
        Instr::Hash { a: 0, b: 1, c: 2 }
    } else if choice == 1 {
        Instr::VerifyMl { a: 0, b: 1, c: 2 }
    } else if choice == 2 {
        Instr::VerifySlh { a: 0, b: 1, c: 2 }
    } else if choice == 3 {
        Instr::MerkleVerify { a: 0, b: 1, c: 2 }
    } else {
        Instr::Kem { a: 0, b: 1, c: 2 }
    };
    let mut code: Vec<u8> = Vec::new();
    Instr::Ldi { d: 0, imm: 0 }.encode(&mut code);
    Instr::Ldi { d: 1, imm: len }.encode(&mut code);
    Instr::Ldi { d: 2, imm: out }.encode(&mut code);
    crypto.encode(&mut code);
    Instr::Halt.encode(&mut code);
    (code, mem)
}

/// Runs one crypto case under `GAS_BOUND` with `mem` as the leading memory. Whatever the
/// bytes, the run ends in an outcome or a fault.
pub fn exercise_crypto(code: &[u8], mem: &[u8]) -> (r: Result<Outcome, Fault>)
    ensures
        match run_from(memory_loaded(initial_state(code@, Seq::empty(), GAS_BOUND), mem@)) {
            Ok(o) => r is Ok && r->Ok_0@ == o,
            Err(f) => r == Err::<Outcome, Fault>(f),
        },
        r matches Ok(o) ==> o.meter_used <= GAS_BOUND,
{
    let no_consts: Vec<u64> = Vec::new();
    let interp = Interpreter::new(code, no_consts.as_slice(), GAS_BOUND).with_memory(mem);
    let ghost start = interp@;
    assert(no_consts@ =~= Seq::<u64>::empty());
    let r = interp.run();
    proof {
        law_run_within_meter(start);
    }
    r
}

proof fn lemma_rand_instrs_decode(s: u64, k: nat)
    ensures
        decodes_from(rand_instrs_spec(s, k).0, 0),
    decreases k,
{
    if k > 0 {
        lemma_rand_instrs_decode(s, (k - 1) as nat);
        let (code, s1) = rand_instrs_spec(s, (k - 1) as nat);
        law_rand_instr_well_formed(s1);
        lemma_decodes_append(code, 0, rand_instr_spec(s1).0);
    }
}

/// Every program the generator yields decodes, instruction after instruction, up to exactly
/// its end.
pub proof fn law_rand_program_decodes(s: u64)
    ensures
        decodes_from(rand_program_spec(s).0, 0),
{
    let n = mix_output(advance_by(s, 1)) % 48;
    let (code, s2) = rand_instrs_spec(advance_by(s, 1), n as nat);
    lemma_rand_instrs_decode(advance_by(s, 1), n as nat);
    assert(well_formed(Instr::Halt));
    lemma_decodes_append(code, 0, Instr::Halt);
}

} // verus!
