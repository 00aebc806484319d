//! A fuzz target over whole containers: random code with jump targets landed on
//! instruction boundaries, random entries and manifests, a random selector, meter, memory and
//! starting storage. Whatever the input, a verified container dispatches and runs within its
//! meter, charges the dispatch, and changes storage only at its entry's declared write slots
//! and the keys derived from its keyed-write bases; these are proved here rather than checked.
use vstd::prelude::*;
use arbitrary::Unstructured;
use crate::abi::scalar_key;
use crate::container::{accepted, lemma_verify_accepted, Container, ContainerView, Entry, EntryView, StateAccess, SELECTOR_BYTES, first_entry, verify_result};
use crate::interp::Interpreter;
use crate::isa::{encoding, Instr, NUM_REGS, well_formed};
use crate::meter::DISPATCH;
use crate::semantics::{entry_manifest, law_run_within_meter, law_run_writes_declared, run_from, same_at, writable, OutcomeView};
use crate::interp::Fault;
use crate::storage::{slot_of_bytes, Slot, Storage, STORAGE_KEY_BYTES};

verus! {

/// Most meter a fuzzed run gets.
pub const METER_CAP: u64 = 100_000;

#[verifier::external_type_specification]
#[verifier::external_body]
pub struct ExUnstructured<'a>(Unstructured<'a>);

#[verifier::external_type_specification]
#[verifier::external_body]
pub struct ExArbitraryError(arbitrary::Error);

/// The bytes an `Unstructured` has left to hand out, in order.
pub uninterp spec fn unstructured_data(u: Unstructured) -> Seq<u8>;

/// How many bytes it takes to write `x`: none for zero.
pub open spec fn byte_len(x: nat) -> nat
    decreases x,
{
    if x == 0 {
        0
    } else {
        1 + byte_len(x / 256)
    }
}

/// The value of bytes read big-endian.
pub open spec fn be_value(s: Seq<u8>) -> nat
    decreases s.len(),
{
    if s.len() == 0 {
        0
    } else {
        be_value(s.drop_last()) * 256 + s.last() as nat
    }
}

/// The value `Unstructured::int_in_range` yields over `lo..=hi` when `data` is what it has
/// left, and how many of those bytes it takes: none when the range holds one value; otherwise
/// as many leading bytes as the width `hi - lo` has (fewer where `data` runs out), read
/// big-endian, reduced modulo the number of values in the range, and added to `lo`.
#[verifier::opaque]
pub open spec fn int_in_range_of(data: Seq<u8>, lo: usize, hi: usize) -> (usize, nat) {
    if lo == hi {
        (lo, 0)
    } else {
        let width = (hi - lo) as nat;
        let n = if byte_len(width) <= data.len() {
            byte_len(width)
        } else {
            data.len()
        };
        let v = be_value(data.subrange(0, n as int));
        let offset = if width == usize::MAX {
            v
        } else {
            v % (width + 1)
        };
        ((lo + offset) as usize, n)
    }
}

/// The first `n` bytes of `data`, padded with zeros where it holds fewer.
#[verifier::opaque]
pub open spec fn padded(data: Seq<u8>, n: nat) -> Seq<u8> {
    Seq::new(n, |i: int| if i < data.len() { data[i] } else { 0u8 })
}

/// What is left of `data` after its first `n` bytes are taken: nothing, where it holds fewer.
#[verifier::opaque]
pub open spec fn after(data: Seq<u8>, n: nat) -> Seq<u8> {
    if n <= data.len() {
        data.subrange(n as int, data.len() as int)
    } else {
        Seq::empty()
    }
}

/// The value of bytes read little-endian.
pub open spec fn le_value(s: Seq<u8>) -> nat
    decreases s.len(),
{
    if s.len() == 0 {
        0
    } else {
        (s[0] as nat) + 256 * le_value(s.drop_first())
    }
}

/// A range draw over `lo..=hi` from `data`, and what is left.
pub open spec fn range_draw(data: Seq<u8>, lo: usize, hi: usize) -> (usize, Seq<u8>) {
    (int_in_range_of(data, lo, hi).0, after(data, int_in_range_of(data, lo, hi).1))
}

/// `n` bytes drawn from `data`, zero past its end, and what is left.
pub open spec fn bytes_draw(data: Seq<u8>, n: nat) -> (Seq<u8>, Seq<u8>) {
    (padded(data, n), after(data, n))
}

/// A byte drawn from `data`, and what is left.
pub open spec fn u8_draw(data: Seq<u8>) -> (u8, Seq<u8>) {
    (padded(data, 1)[0], after(data, 1))
}

/// A little-endian `u16` drawn from `data`, and what is left.
pub open spec fn u16_draw(data: Seq<u8>) -> (u16, Seq<u8>) {
    (le_value(padded(data, 2)) as u16, after(data, 2))
}

/// A little-endian `u32` drawn from `data`, and what is left.
pub open spec fn u32_draw(data: Seq<u8>) -> (u32, Seq<u8>) {
    (le_value(padded(data, 4)) as u32, after(data, 4))
}

/// A little-endian `u64` drawn from `data`, and what is left.
pub open spec fn u64_draw(data: Seq<u8>) -> (u64, Seq<u8>) {
    (le_value(padded(data, 8)) as u64, after(data, 8))
}

/// A flag drawn from `data`, the low bit of a byte, and what is left.
pub open spec fn bool_draw(data: Seq<u8>) -> (bool, Seq<u8>) {
    (padded(data, 1)[0] % 2 == 1, after(data, 1))
}

/// A register number drawn from `data`, a byte reduced below `NUM_REGS`, and what is left.
pub open spec fn reg_draw(data: Seq<u8>) -> (u8, Seq<u8>) {
    ((u8_draw(data).0 % (NUM_REGS as u8)) as u8, u8_draw(data).1)
}

proof fn lemma_padded_len(data: Seq<u8>, n: nat)
    ensures
        padded(data, n).len() == n,
{
    reveal(padded);
}

/// Calls `arbitrary::Unstructured::int_in_range` over `lo..=hi`. Trusted: for a non-empty
/// range (an empty one panics, and `requires` leaves it out) the source always returns `Ok`
/// with a value in the range, the one `int_in_range_of` computes from the leading bytes of
/// what `u` has left, and drops the bytes it read.
#[verifier::external_body]
fn int_in_range(u: &mut Unstructured, lo: usize, hi: usize) -> (r: Result<usize, arbitrary::Error>)
    requires
        lo <= hi,
    ensures
        r is Ok,
        r is Ok ==> lo <= r->Ok_0 <= hi,
        r is Ok ==> r->Ok_0 == int_in_range_of(unstructured_data(*old(u)), lo, hi).0,
        unstructured_data(*final(u)) == after(
            unstructured_data(*old(u)),
            int_in_range_of(unstructured_data(*old(u)), lo, hi).1,
        ),
{
    u.int_in_range(lo..=hi)
}

/// Calls `arbitrary::Unstructured::arbitrary::<u8>`. Trusted: the source fills a one-byte
/// buffer (`fill_buffer`: the next byte, or zero when none is left) and always returns `Ok`.
#[verifier::external_body]
fn draw_u8(u: &mut Unstructured) -> (r: Result<u8, arbitrary::Error>)
    ensures
        r is Ok,
        r is Ok ==> (r->Ok_0, unstructured_data(*final(u))) == u8_draw(unstructured_data(*old(u))),
{
    u.arbitrary::<u8>()
}

/// Calls `arbitrary::Unstructured::arbitrary::<u16>`. Trusted: the source fills a two-byte
/// buffer as for `u8` and reads it little-endian; always `Ok`.
#[verifier::external_body]
fn draw_u16(u: &mut Unstructured) -> (r: Result<u16, arbitrary::Error>)
    ensures
        r is Ok,
        r is Ok ==> (r->Ok_0, unstructured_data(*final(u))) == u16_draw(unstructured_data(*old(u))),
{
    u.arbitrary::<u16>()
}

/// Calls `arbitrary::Unstructured::arbitrary::<u32>`. Trusted: four bytes, as for `u16`.
#[verifier::external_body]
fn draw_u32(u: &mut Unstructured) -> (r: Result<u32, arbitrary::Error>)
    ensures
        r is Ok,
        r is Ok ==> (r->Ok_0, unstructured_data(*final(u))) == u32_draw(unstructured_data(*old(u))),
{
    u.arbitrary::<u32>()
}

/// Calls `arbitrary::Unstructured::arbitrary::<u64>`. Trusted: eight bytes, as for `u16`.
#[verifier::external_body]
fn draw_u64(u: &mut Unstructured) -> (r: Result<u64, arbitrary::Error>)
    ensures
        r is Ok,
        r is Ok ==> (r->Ok_0, unstructured_data(*final(u))) == u64_draw(unstructured_data(*old(u))),
{
    u.arbitrary::<u64>()
}

/// Calls `arbitrary::Unstructured::arbitrary::<bool>`. Trusted: the source draws a `u8` and
/// yields its low bit; always `Ok`.
#[verifier::external_body]
fn draw_bool(u: &mut Unstructured) -> (r: Result<bool, arbitrary::Error>)
    ensures
        r is Ok,
        r is Ok ==> (r->Ok_0, unstructured_data(*final(u))) == bool_draw(unstructured_data(*old(u))),
{
    u.arbitrary::<bool>()
}

/// Calls `arbitrary::Unstructured::fill_buffer` on `n` zeroed bytes. Trusted: the source
/// copies as many of the bytes left as fit, leaves the rest of the buffer zero, drops what it
/// copied, and always returns `Ok`.
#[verifier::external_body]
fn fill(u: &mut Unstructured, n: usize) -> (r: Result<Vec<u8>, arbitrary::Error>)
    ensures
        r is Ok,
        r is Ok ==> (r->Ok_0@, unstructured_data(*final(u))) == bytes_draw(
            unstructured_data(*old(u)),
            n as nat,
        ),
{
    let mut buf = vec![0u8; n];
    match u.fill_buffer(&mut buf) {
        Ok(()) => Ok(buf),
        Err(e) => Err(e),
    }
}

/// A register number drawn from `u`.
fn reg(u: &mut Unstructured) -> (r: Result<u8, arbitrary::Error>)
    ensures
        r matches Ok(v) && v < NUM_REGS,
        r is Ok ==> (r->Ok_0, unstructured_data(*final(u))) == reg_draw(unstructured_data(*old(u))),
{
    let b = draw_u8(u)?;
    Ok(b % (NUM_REGS as u8))
}

/// The instruction `gen_instr` draws from `data` for a pool of `n` constants, and what is
/// left: a range draw below 42 picks the kind, then each operand is drawn in order, a
/// register as a byte reduced below `NUM_REGS`, an immediate or a target little-endian; a
/// constant index is reduced into the pool, and with no pool the kind gives NOP.
pub open spec fn gen_instr_spec(data: Seq<u8>, n: nat) -> (Instr, Seq<u8>) {
    let (kind, d0) = range_draw(data, 0, 41);
    if kind == 0 {
        (Instr::Halt, d0)
    } else if kind == 1 {
        (Instr::Nop, d0)
    } else if kind == 2 {
        let (x0, d1) = reg_draw(d0);
        let (x1, d2) = reg_draw(d1);
        (Instr::Mov { d: x0, a: x1 }, d2)
    } else if kind == 3 {
        let (x0, d1) = reg_draw(d0);
        let (x1, d2) = u64_draw(d1);
        (Instr::Ldi { d: x0, imm: x1 }, d2)
    } else if kind == 4 {
        if n == 0 {
            (Instr::Nop, d0)
        } else {
            let (x0, d1) = reg_draw(d0);
            let (x1, d2) = u16_draw(d1);
            (Instr::Ldc { d: x0, idx: ((x1 as int) % (n as int)) as u16 }, d2)
        }
    } else if kind == 5 {
        let (x0, d1) = reg_draw(d0);
        let (x1, d2) = reg_draw(d1);
        let (x2, d3) = reg_draw(d2);
        (Instr::Add { d: x0, a: x1, b: x2 }, d3)
    } else if kind == 6 {
        let (x0, d1) = reg_draw(d0);
        let (x1, d2) = reg_draw(d1);
        let (x2, d3) = reg_draw(d2);
        (Instr::Sub { d: x0, a: x1, b: x2 }, d3)
    } else if kind == 7 {
        let (x0, d1) = reg_draw(d0);
        let (x1, d2) = reg_draw(d1);
        let (x2, d3) = reg_draw(d2);
        (Instr::Mul { d: x0, a: x1, b: x2 }, d3)
    } else if kind == 8 {
        let (x0, d1) = reg_draw(d0);
        let (x1, d2) = reg_draw(d1);
        let (x2, d3) = reg_draw(d2);
        (Instr::Div { d: x0, a: x1, b: x2 }, d3)
    } else if kind == 9 {
        let (x0, d1) = reg_draw(d0);
        let (x1, d2) = reg_draw(d1);
        let (x2, d3) = reg_draw(d2);
        (Instr::Rem { d: x0, a: x1, b: x2 }, d3)
    } else if kind == 10 {
        let (x0, d1) = reg_draw(d0);
        let (x1, d2) = reg_draw(d1);
        let (x2, d3) = reg_draw(d2);
        (Instr::AddW { d: x0, a: x1, b: x2 }, d3)
    } else if kind == 11 {
        let (x0, d1) = reg_draw(d0);
        let (x1, d2) = reg_draw(d1);
        let (x2, d3) = reg_draw(d2);
        (Instr::SubW { d: x0, a: x1, b: x2 }, d3)
    } else if kind == 12 {
        let (x0, d1) = reg_draw(d0);
        let (x1, d2) = reg_draw(d1);
        let (x2, d3) = reg_draw(d2);
        (Instr::MulW { d: x0, a: x1, b: x2 }, d3)
    } else if kind == 13 {
        let (x0, d1) = reg_draw(d0);
        let (x1, d2) = reg_draw(d1);
        let (x2, d3) = reg_draw(d2);
        (Instr::MulHi { d: x0, a: x1, b: x2 }, d3)
    } else if kind == 14 {
        let (x0, d1) = reg_draw(d0);
        let (x1, d2) = reg_draw(d1);
        let (x2, d3) = reg_draw(d2);
        (Instr::And { d: x0, a: x1, b: x2 }, d3)
    } else if kind == 15 {
        let (x0, d1) = reg_draw(d0);
        let (x1, d2) = reg_draw(d1);
        let (x2, d3) = reg_draw(d2);
        (Instr::Or { d: x0, a: x1, b: x2 }, d3)
    } else if kind == 16 {
        let (x0, d1) = reg_draw(d0);
        let (x1, d2) = reg_draw(d1);
        let (x2, d3) = reg_draw(d2);
        (Instr::Xor { d: x0, a: x1, b: x2 }, d3)
    } else if kind == 17 {
        let (x0, d1) = reg_draw(d0);
        let (x1, d2) = reg_draw(d1);
        (Instr::Not { d: x0, a: x1 }, d2)
    } else if kind == 18 {
        let (x0, d1) = reg_draw(d0);
        let (x1, d2) = reg_draw(d1);
        let (x2, d3) = reg_draw(d2);
        (Instr::Shl { d: x0, a: x1, b: x2 }, d3)
    } else if kind == 19 {
        let (x0, d1) = reg_draw(d0);
        let (x1, d2) = reg_draw(d1);
        let (x2, d3) = reg_draw(d2);
        (Instr::Shr { d: x0, a: x1, b: x2 }, d3)
    } else if kind == 20 {
        let (x0, d1) = reg_draw(d0);
        let (x1, d2) = reg_draw(d1);
        let (x2, d3) = reg_draw(d2);
        (Instr::Eq { d: x0, a: x1, b: x2 }, d3)
    } else if kind == 21 {
        let (x0, d1) = reg_draw(d0);
        let (x1, d2) = reg_draw(d1);
        let (x2, d3) = reg_draw(d2);
        (Instr::LtU { d: x0, a: x1, b: x2 }, d3)
    } else if kind == 22 {
        let (x0, d1) = reg_draw(d0);
        let (x1, d2) = reg_draw(d1);
        let (x2, d3) = reg_draw(d2);
        (Instr::GtU { d: x0, a: x1, b: x2 }, d3)
    } else if kind == 23 {
        let (x0, d1) = reg_draw(d0);
        (Instr::Push { a: x0 }, d1)
    } else if kind == 24 {
        let (x0, d1) = reg_draw(d0);
        (Instr::Pop { d: x0 }, d1)
    } else if kind == 25 {
        let (x0, d1) = reg_draw(d0);
        let (x1, d2) = reg_draw(d1);
        (Instr::MLoad { d: x0, a: x1 }, d2)
    } else if kind == 26 {
        let (x0, d1) = reg_draw(d0);
        let (x1, d2) = reg_draw(d1);
        (Instr::MStore { a: x0, b: x1 }, d2)
    } else if kind == 27 {
        let (x0, d1) = u32_draw(d0);
        (Instr::Jmp { target: x0 }, d1)
    } else if kind == 28 {
        let (x0, d1) = reg_draw(d0);
        let (x1, d2) = u32_draw(d1);
        (Instr::Jz { a: x0, target: x1 }, d2)
    } else if kind == 29 {
        let (x0, d1) = reg_draw(d0);
        let (x1, d2) = u32_draw(d1);
        (Instr::Jnz { a: x0, target: x1 }, d2)
    } else if kind == 30 {
        let (x0, d1) = u32_draw(d0);
        (Instr::Call { target: x0 }, d1)
    } else if kind == 31 {
        (Instr::Ret, d0)
    } else if kind == 32 {
        let (x0, d1) = reg_draw(d0);
        let (x1, d2) = reg_draw(d1);
        (Instr::SLoad { d: x0, a: x1 }, d2)
    } else if kind == 33 {
        let (x0, d1) = reg_draw(d0);
        let (x1, d2) = reg_draw(d1);
        (Instr::SStore { a: x0, b: x1 }, d2)
    } else if kind == 34 {
        let (x0, d1) = reg_draw(d0);
        let (x1, d2) = reg_draw(d1);
        let (x2, d3) = reg_draw(d2);
        (Instr::Send { a: x0, b: x1, c: x2 }, d3)
    } else if kind == 35 {
        let (x0, d1) = reg_draw(d0);
        let (x1, d2) = reg_draw(d1);
        let (x2, d3) = reg_draw(d2);
        (Instr::Emit { a: x0, b: x1, c: x2 }, d3)
    } else if kind == 36 {
        let (x0, d1) = reg_draw(d0);
        let (x1, d2) = reg_draw(d1);
        let (x2, d3) = reg_draw(d2);
        (Instr::Hash { a: x0, b: x1, c: x2 }, d3)
    } else if kind == 37 {
        let (x0, d1) = reg_draw(d0);
        let (x1, d2) = reg_draw(d1);
        let (x2, d3) = reg_draw(d2);
        (Instr::VerifyMl { a: x0, b: x1, c: x2 }, d3)
    } else if kind == 38 {
        let (x0, d1) = reg_draw(d0);
        let (x1, d2) = reg_draw(d1);
        let (x2, d3) = reg_draw(d2);
        (Instr::MerkleVerify { a: x0, b: x1, c: x2 }, d3)
    } else if kind == 39 {
        let (x0, d1) = reg_draw(d0);
        let (x1, d2) = reg_draw(d1);
        let (x2, d3) = reg_draw(d2);
        (Instr::VerifySlh { a: x0, b: x1, c: x2 }, d3)
    } else if kind == 40 {
        let (x0, d1) = reg_draw(d0);
        let (x1, d2) = reg_draw(d1);
        let (x2, d3) = reg_draw(d2);
        (Instr::Kem { a: x0, b: x1, c: x2 }, d3)
    } else {
        let (x0, d1) = reg_draw(d0);
        let (x1, d2) = reg_draw(d1);
        let (x2, d3) = reg_draw(d2);
        (Instr::Addr { a: x0, b: x1, c: x2 }, d3)
    }
}

/// Whether a constant-pool index in `i` lies within a pool of `n` constants.
pub open spec fn within_pool(i: Instr, n: nat) -> bool {
    i matches Instr::Ldc { idx, .. } ==> idx < n
}

/// One random instruction of any kind: registers in range and constant indices within a
/// pool of `n_consts`; jump targets are arbitrary until they are landed on boundaries.
#[verifier::rlimit(60)]
pub fn gen_instr(u: &mut Unstructured, n_consts: usize) -> (r: Result<Instr, arbitrary::Error>)
    ensures
        r matches Ok(i) && well_formed(i) && within_pool(i, n_consts as nat),
        r is Ok ==> (r->Ok_0, unstructured_data(*final(u))) == gen_instr_spec(
            unstructured_data(*old(u)),
            n_consts as nat,
        ),
{
    let kind = int_in_range(u, 0, 41)?;
    let instr = match kind {
        0 => Instr::Halt,
        1 => Instr::Nop,
        2 => Instr::Mov { d: reg(u)?, a: reg(u)? },
        3 => Instr::Ldi { d: reg(u)?, imm: draw_u64(u)? },
        4 => {
            if n_consts == 0 {
                Instr::Nop
            } else {
                let d = reg(u)?;
                let raw = draw_u16(u)?;
                Instr::Ldc { d, idx: ((raw as usize) % n_consts) as u16 }
            }
        },
        5 => Instr::Add { d: reg(u)?, a: reg(u)?, b: reg(u)? },
        6 => Instr::Sub { d: reg(u)?, a: reg(u)?, b: reg(u)? },
        7 => Instr::Mul { d: reg(u)?, a: reg(u)?, b: reg(u)? },
        8 => Instr::Div { d: reg(u)?, a: reg(u)?, b: reg(u)? },
        9 => Instr::Rem { d: reg(u)?, a: reg(u)?, b: reg(u)? },
        10 => Instr::AddW { d: reg(u)?, a: reg(u)?, b: reg(u)? },
        11 => Instr::SubW { d: reg(u)?, a: reg(u)?, b: reg(u)? },
        12 => Instr::MulW { d: reg(u)?, a: reg(u)?, b: reg(u)? },
        13 => Instr::MulHi { d: reg(u)?, a: reg(u)?, b: reg(u)? },
        14 => Instr::And { d: reg(u)?, a: reg(u)?, b: reg(u)? },
        15 => Instr::Or { d: reg(u)?, a: reg(u)?, b: reg(u)? },
        16 => Instr::Xor { d: reg(u)?, a: reg(u)?, b: reg(u)? },
        17 => Instr::Not { d: reg(u)?, a: reg(u)? },
        18 => Instr::Shl { d: reg(u)?, a: reg(u)?, b: reg(u)? },
        19 => Instr::Shr { d: reg(u)?, a: reg(u)?, b: reg(u)? },
        20 => Instr::Eq { d: reg(u)?, a: reg(u)?, b: reg(u)? },
        21 => Instr::LtU { d: reg(u)?, a: reg(u)?, b: reg(u)? },
        22 => Instr::GtU { d: reg(u)?, a: reg(u)?, b: reg(u)? },
        23 => Instr::Push { a: reg(u)? },
        24 => Instr::Pop { d: reg(u)? },
        25 => Instr::MLoad { d: reg(u)?, a: reg(u)? },
        26 => Instr::MStore { a: reg(u)?, b: reg(u)? },
        27 => Instr::Jmp { target: draw_u32(u)? },
        28 => Instr::Jz { a: reg(u)?, target: draw_u32(u)? },
        29 => Instr::Jnz { a: reg(u)?, target: draw_u32(u)? },
        30 => Instr::Call { target: draw_u32(u)? },
        31 => Instr::Ret,
        32 => Instr::SLoad { d: reg(u)?, a: reg(u)? },
        33 => Instr::SStore { a: reg(u)?, b: reg(u)? },
        34 => Instr::Send { a: reg(u)?, b: reg(u)?, c: reg(u)? },
        35 => Instr::Emit { a: reg(u)?, b: reg(u)?, c: reg(u)? },
        36 => Instr::Hash { a: reg(u)?, b: reg(u)?, c: reg(u)? },
        37 => Instr::VerifyMl { a: reg(u)?, b: reg(u)?, c: reg(u)? },
        38 => Instr::MerkleVerify { a: reg(u)?, b: reg(u)?, c: reg(u)? },
        39 => Instr::VerifySlh { a: reg(u)?, b: reg(u)?, c: reg(u)? },
        40 => Instr::Kem { a: reg(u)?, b: reg(u)?, c: reg(u)? },
        _ => Instr::Addr { a: reg(u)?, b: reg(u)?, c: reg(u)? },
    };
    Ok(instr)
}

/// The target `t` landed on one of `starts`.
pub open spec fn landed(t: u32, starts: Seq<u32>) -> u32 {
    starts[(t as int) % (starts.len() as int)]
}

/// `i` with its jump or call target landed on one of `starts`.
pub open spec fn remapped(i: Instr, starts: Seq<u32>) -> Instr {
    match i {
        Instr::Jmp { target } => Instr::Jmp { target: landed(target, starts) },
        Instr::Jz { a, target } => Instr::Jz { a, target: landed(target, starts) },
        Instr::Jnz { a, target } => Instr::Jnz { a, target: landed(target, starts) },
        Instr::Call { target } => Instr::Call { target: landed(target, starts) },
        _ => i,
    }
}

/// Lands the jump or call target of `instr` on one of `starts`.
pub fn remap_target(instr: &mut Instr, starts: &[u32])
    requires
        starts@.len() > 0,
    ensures
        *final(instr) == remapped(*old(instr), starts@),
{
    let n = starts.len();
    match *instr {
        Instr::Jmp { target } => {
            *instr = Instr::Jmp { target: starts[(target as usize) % n] };
        },
        Instr::Jz { a, target } => {
            *instr = Instr::Jz { a, target: starts[(target as usize) % n] };
        },
        Instr::Jnz { a, target } => {
            *instr = Instr::Jnz { a, target: starts[(target as usize) % n] };
        },
        Instr::Call { target } => {
            *instr = Instr::Call { target: starts[(target as usize) % n] };
        },
        _ => {},
    }
}

/// `k` little-endian words drawn one after another from `data`, and what is left.
pub open spec fn u64_draws(data: Seq<u8>, k: nat) -> (Seq<u64>, Seq<u8>)
    decreases k,
{
    if k == 0 {
        (Seq::empty(), data)
    } else {
        let (vs, d1) = u64_draws(data, (k - 1) as nat);
        let (v, d2) = u64_draw(d1);
        (vs.push(v), d2)
    }
}

/// The slots `gen_slots` draws from `data`, and what is left: a range draw up to 6 for how
/// many, then each slot little-endian.
pub open spec fn slots_draw(data: Seq<u8>) -> (Seq<u64>, Seq<u8>) {
    let (n, d0) = range_draw(data, 0, 6);
    u64_draws(d0, n as nat)
}

/// Storage after `k` keys, each 32 bytes then a little-endian word, are drawn from `data`
/// and held one after another, and what is left.
pub open spec fn storage_draws(data: Seq<u8>, k: nat) -> (Map<Slot, u64>, Seq<u8>)
    decreases k,
{
    if k == 0 {
        (Map::empty(), data)
    } else {
        let (m, d1) = storage_draws(data, (k - 1) as nat);
        let (key, d2) = bytes_draw(d1, STORAGE_KEY_BYTES as nat);
        let (v, d3) = u64_draw(d2);
        (m.insert(slot_of_bytes(key), v), d3)
    }
}

/// The storage `gen_storage` draws from `data`, and what is left: a range draw up to 6 for
/// how many keys, then each key and its word.
pub open spec fn storage_draw(data: Seq<u8>) -> (Map<Slot, u64>, Seq<u8>) {
    let (n, d0) = range_draw(data, 0, 6);
    storage_draws(d0, n as nat)
}

/// Up to six slots drawn from `u`.
pub fn gen_slots(u: &mut Unstructured) -> (r: Result<Vec<u64>, arbitrary::Error>)
    ensures
        r matches Ok(v) && v@.len() <= 6,
        r is Ok ==> (r->Ok_0@, unstructured_data(*final(u))) == slots_draw(unstructured_data(*old(u))),
{
    let n = int_in_range(u, 0, 6)?;
    let ghost d0 = unstructured_data(*u);
    let mut out: Vec<u64> = Vec::new();
    let mut k: usize = 0;
    while k < n
        invariant
            k <= n <= 6,
            out@.len() == k,
            (out@, unstructured_data(*u)) == u64_draws(d0, k as nat),
        decreases n - k,
    {
        let v = draw_u64(u)?;
        out.push(v);
        k = k + 1;
    }
    Ok(out)
}

/// Up to six storage keys, each with a word, drawn from `u`.
pub fn gen_storage(u: &mut Unstructured) -> (r: Result<Storage, arbitrary::Error>)
    ensures
        r is Ok,
        r is Ok ==> (r->Ok_0@, unstructured_data(*final(u))) == storage_draw(unstructured_data(*old(u))),
{
    let n = int_in_range(u, 0, 6)?;
    let ghost d0 = unstructured_data(*u);
    let mut storage = Storage::new();
    let mut k: usize = 0;
    while k < n
        invariant
            k <= n,
            (storage@, unstructured_data(*u)) == storage_draws(d0, k as nat),
        decreases n - k,
    {
        let ghost d1 = unstructured_data(*u);
        let bytes = fill(u, STORAGE_KEY_BYTES)?;
        proof {
            lemma_padded_len(d1, STORAGE_KEY_BYTES as nat);
        }
        let key: [u8; STORAGE_KEY_BYTES] = [
            bytes[0], bytes[1], bytes[2], bytes[3], bytes[4], bytes[5], bytes[6], bytes[7],
            bytes[8], bytes[9], bytes[10], bytes[11], bytes[12], bytes[13], bytes[14], bytes[15],
            bytes[16], bytes[17], bytes[18], bytes[19], bytes[20], bytes[21], bytes[22], bytes[23],
            bytes[24], bytes[25], bytes[26], bytes[27], bytes[28], bytes[29], bytes[30], bytes[31],
        ];
        assert(key@ =~= bytes@);
        let v = draw_u64(u)?;
        storage.insert(key, v);
        k = k + 1;
    }
    Ok(storage)
}

/// `k` instructions drawn one after another from `data` for a pool of `n` constants, and
/// what is left.
pub open spec fn instr_draws(data: Seq<u8>, k: nat, n: nat) -> (Seq<Instr>, Seq<u8>)
    decreases k,
{
    if k == 0 {
        (Seq::empty(), data)
    } else {
        let (is, d1) = instr_draws(data, (k - 1) as nat, n);
        let (i, d2) = gen_instr_spec(d1, n);
        (is.push(i), d2)
    }
}

/// Where each of `is` starts when they are laid out one after another, and the offset past
/// the last; offsets stop growing at `u32::MAX`.
pub open spec fn start_offsets(is: Seq<Instr>) -> (Seq<u32>, u32)
    decreases is.len(),
{
    if is.len() == 0 {
        (Seq::empty(), 0)
    } else {
        let (st, off) = start_offsets(is.drop_last());
        let next = off + encoding(is.last()).len();
        (st.push(off), if next > u32::MAX { u32::MAX } else { next as u32 })
    }
}

/// The encodings of `is`, one after another, each with its target landed on `starts`.
pub open spec fn landed_code(is: Seq<Instr>, starts: Seq<u32>) -> Seq<u8>
    decreases is.len(),
{
    if is.len() == 0 {
        Seq::empty()
    } else {
        landed_code(is.drop_last(), starts) + encoding(remapped(is.last(), starts))
    }
}

/// An entry drawn from `data`, and what is left: a four-byte selector, a flag, then an offset
/// that the flag lands on one of `starts` or leaves as drawn, then its read, write, keyed
/// read and keyed write slots.
pub open spec fn entry_draw(data: Seq<u8>, starts: Seq<u32>) -> (EntryView, Seq<u8>) {
    let (sel, d1) = bytes_draw(data, SELECTOR_BYTES as nat);
    let (at_start, d2) = bool_draw(d1);
    let (p, d3) = u32_draw(d2);
    let (reads, d4) = slots_draw(d3);
    let (writes, d5) = slots_draw(d4);
    let (keyed_reads, d6) = slots_draw(d5);
    let (keyed_writes, d7) = slots_draw(d6);
    (
        EntryView {
            selector: sel,
            offset: if at_start { landed(p, starts) } else { p },
            reads,
            writes,
            keyed_reads,
            keyed_writes,
        },
        d7,
    )
}

/// `k` entries drawn one after another from `data`, and what is left.
pub open spec fn entry_draws(data: Seq<u8>, k: nat, starts: Seq<u32>) -> (Seq<EntryView>, Seq<u8>)
    decreases k,
{
    if k == 0 {
        (Seq::empty(), data)
    } else {
        let (es, d1) = entry_draws(data, (k - 1) as nat, starts);
        let (e, d2) = entry_draw(d1, starts);
        (es.push(e), d2)
    }
}

/// The container `drive` draws from `data`, and what is left: up to 8 constants, up to 48
/// instructions and a HALT with their targets landed on instruction starts, then up to 8
/// entries.
pub open spec fn container_draw(data: Seq<u8>) -> (ContainerView, Seq<u8>) {
    let (nc, d1) = range_draw(data, 0, 8);
    let (cs, d2) = u64_draws(d1, nc as nat);
    let (ni, d3) = range_draw(d2, 0, 48);
    let (gen, d4) = instr_draws(d3, ni as nat, nc as nat);
    let is = gen.push(Instr::Halt);
    let starts = start_offsets(is).0;
    let (ne, d5) = range_draw(d4, 0, 8);
    let (es, d6) = entry_draws(d5, ne as nat, starts);
    (ContainerView { code: landed_code(is, starts), consts: cs, entries: es }, d6)
}

/// What `drive` leaves of `data`: it draws a container and, when the verifier accepts it, a
/// selector (one of its entries' or four drawn bytes), a meter, up to 2048 bytes of memory
/// and a starting storage.
pub open spec fn drive_rest(data: Seq<u8>) -> Seq<u8> {
    let (c, d6) = container_draw(data);
    if !accepted(c) {
        d6
    } else {
        let d7 = if c.entries.len() > 0 && bool_draw(d6).0 {
            u32_draw(bool_draw(d6).1).1
        } else if c.entries.len() > 0 {
            bytes_draw(bool_draw(d6).1, SELECTOR_BYTES as nat).1
        } else {
            bytes_draw(d6, SELECTOR_BYTES as nat).1
        };
        let d8 = u64_draw(d7).1;
        let (ml, d9) = range_draw(d8, 0, 2048);
        storage_draw(bytes_draw(d9, ml as nat).1).1
    }
}

proof fn lemma_encoding_short(i: Instr)
    ensures
        encoding(i).len() <= 15,
{
    crate::isa::lemma_build_parts(i);
}

/// Builds one container from `u` and, when the deploy-time verifier accepts it, dispatches
/// one of its entries (or an unknown selector) with a random meter, memory and starting
/// storage. A run that halts has stayed within its meter and was charged the dispatch, and
/// every slot outside its entry's declared writes and the keys derived from its keyed-write
/// bases holds what it held before: all three are proved below, so nothing is checked at run time. No
/// input makes it fail; it takes from `u` exactly the bytes `drive_rest` leaves out.
#[verifier::rlimit(60)]
pub fn drive(u: &mut Unstructured) -> (r: Result<(), arbitrary::Error>)
    ensures
        r is Ok,
        unstructured_data(*final(u)) == drive_rest(unstructured_data(*old(u))),
{
    let ghost d0 = unstructured_data(*u);
    let n_consts = int_in_range(u, 0, 8)?;
    let ghost d1 = unstructured_data(*u);
    let mut consts: Vec<u64> = Vec::new();
    let mut k: usize = 0;
    while k < n_consts
        invariant
            k <= n_consts,
            consts@.len() == k,
            (consts@, unstructured_data(*u)) == u64_draws(d1, k as nat),
        decreases n_consts - k,
    {
        let v = draw_u64(u)?;
        consts.push(v);
        k = k + 1;
    }

    let n_instr = int_in_range(u, 0, 48)?;
    let ghost d3 = unstructured_data(*u);
    let mut instrs: Vec<Instr> = Vec::new();
    k = 0;
    while k < n_instr
        invariant
            k <= n_instr <= 48,
            consts@.len() == n_consts,
            instrs@.len() == k,
            (instrs@, unstructured_data(*u)) == instr_draws(d3, k as nat, n_consts as nat),
        decreases n_instr - k,
    {
        let i = gen_instr(u, consts.len())?;
        instrs.push(i);
        k = k + 1;
    }
    instrs.push(Instr::Halt);
    let ghost is = instrs@;
    let ghost d4 = unstructured_data(*u);

    let mut starts: Vec<u32> = Vec::new();
    let mut off: u32 = 0;
    k = 0;
    assert(is.subrange(0, 0) =~= Seq::<Instr>::empty());
    while k < instrs.len()
        invariant
            k <= instrs@.len(),
            instrs@ == is,
            starts@.len() == k,
            (starts@, off) == start_offsets(is.subrange(0, k as int)),
        decreases instrs@.len() - k,
    {
        proof {
            lemma_encoding_short(is[k as int]);
            assert(is.subrange(0, k + 1).drop_last() =~= is.subrange(0, k as int));
        }
        starts.push(off);
        off = off.saturating_add(instrs[k].encoded_len() as u32);
        k = k + 1;
    }
    assert(is.subrange(0, is.len() as int) =~= is);
    let ghost st = starts@;
    k = 0;
    while k < instrs.len()
        invariant
            k <= instrs@.len(),
            instrs@.len() == is.len(),
            starts@ == st,
            st.len() == is.len(),
            st.len() > 0,
            forall|j: int| 0 <= j < k ==> #[trigger] instrs@[j] == remapped(is[j], st),
            forall|j: int| k <= j < is.len() ==> #[trigger] instrs@[j] == is[j],
        decreases instrs@.len() - k,
    {
        let mut instr = instrs[k];
        remap_target(&mut instr, starts.as_slice());
        instrs.set(k, instr);
        k = k + 1;
    }
    let mut code: Vec<u8> = Vec::new();
    k = 0;
    assert(landed_code(is.subrange(0, 0), st) =~= Seq::<u8>::empty());
    while k < instrs.len()
        invariant
            k <= instrs@.len(),
            instrs@.len() == is.len(),
            forall|j: int| 0 <= j < is.len() ==> #[trigger] instrs@[j] == remapped(is[j], st),
            code@ == landed_code(is.subrange(0, k as int), st),
        decreases instrs@.len() - k,
    {
        assert(is.subrange(0, k + 1).drop_last() =~= is.subrange(0, k as int));
        instrs[k].encode(&mut code);
        k = k + 1;
    }
    assert(is.subrange(0, is.len() as int) =~= is);

    let n_entries = int_in_range(u, 0, 8)?;
    let ghost d5 = unstructured_data(*u);
    let mut entries: Vec<Entry> = Vec::new();
    k = 0;
    assert(crate::container::entries_view(entries@) =~= Seq::<crate::container::EntryView>::empty());
    while k < n_entries
        invariant
            k <= n_entries,
            starts@ == st,
            st.len() > 0,
            entries@.len() == k,
            (crate::container::entries_view(entries@), unstructured_data(*u)) == entry_draws(d5, k as nat, st),
        decreases n_entries - k,
    {
        let ghost e0 = unstructured_data(*u);
        let sel = fill(u, SELECTOR_BYTES)?;
        proof {
            lemma_padded_len(e0, SELECTOR_BYTES as nat);
        }
        let selector: [u8; SELECTOR_BYTES] = [sel[0], sel[1], sel[2], sel[3]];
        assert(selector@ =~= sel@);
        let at_start = draw_bool(u)?;
        let pick = draw_u32(u)?;
        let offset = if at_start {
            starts[(pick as usize) % starts.len()]
        } else {
            pick
        };
        let reads = gen_slots(u)?;
        let writes = gen_slots(u)?;
        let keyed_reads = gen_slots(u)?;
        let keyed_writes = gen_slots(u)?;
        let ghost before = entries@;
        entries.push(Entry { selector, offset, access: StateAccess { reads, writes, keyed_reads, keyed_writes } });
        assert(crate::container::entries_view(entries@) =~= crate::container::entries_view(before).push(
            entries@[k as int]@,
        ));
        k = k + 1;
    }

    let container = Container::new(code, consts, entries);
    proof {
        lemma_verify_accepted(container);
        assert(container@ == container_draw(d0).0);
    }
    if container.verify().is_err() {
        return Ok(());
    }

    let selector: [u8; SELECTOR_BYTES] = if container.entries.len() > 0 && draw_bool(u)? {
        let pick = draw_u32(u)?;
        container.entries[(pick as usize) % container.entries.len()].selector
    } else {
        let ghost e0 = unstructured_data(*u);
        let sel = fill(u, SELECTOR_BYTES)?;
        proof {
            lemma_padded_len(e0, SELECTOR_BYTES as nat);
        }
        [sel[0], sel[1], sel[2], sel[3]]
    };

    let meter_limit = draw_u64(u)? % (METER_CAP + 1);
    let mem_len = int_in_range(u, 0, 2048)?;
    let mem = fill(u, mem_len)?;
    let initial = gen_storage(u)?;
    assert(unstructured_data(*u) == drive_rest(d0));

    let interp = match Interpreter::for_entry(&container, selector, meter_limit) {
        Ok(interp) => interp,
        Err(_) => {
            return Ok(());
        },
    };
    let ghost before = initial@;
    let interp = interp.with_storage(initial).with_memory(mem.as_slice());
    let ghost start = interp@;
    let outcome = match interp.run() {
        Ok(outcome) => outcome,
        Err(_) => {
            return Ok(());
        },
    };
    proof {
        law_run_within_meter(start);
        let e = container@.entries[first_entry(container@.entries, selector@)->Some_0];
        let man = entry_manifest(e, container@.code);
        assert(start.auth_writes =~= Set::<Slot>::empty());
        law_run_writes_declared(start, man);
        assert(start.storage == before);
        assert(run_from(start) == Ok::<OutcomeView, Fault>(outcome@));
        assert forall|slot: Slot| !writable(man, slot) implies #[trigger] same_at(
            before,
            outcome.storage@,
            slot,
        ) by {
            assert(same_at(start.storage, outcome@.storage, slot));
        }
    }
    assert(outcome.meter_used <= meter_limit);
    assert(outcome.meter_used >= DISPATCH);
    Ok(())
}

} // verus!
