//! The instructions that only touch registers, the stack and memory.
use vstd::prelude::*;
use crate::crypto::matches_spec;
use crate::interp::Fault;
use crate::isa::{Instr, regs_in_range};
use crate::semantics::{is_machine_op, machine_step, word_span, wide};
use crate::state::Machine;

verus! {

fn set(m: &mut Machine, d: u8, v: u64) -> (r: Result<(), Fault>)
    requires
        d < 16,
    ensures
        r is Ok,
        final(m)@ == crate::crypto::with_reg(old(m)@, d, v),
{
    m.set_reg(d, v);
    Ok(())
}

/// The high word of the full product of `x` and `y`.
fn mul_high(x: u64, y: u64) -> (r: u64)
    ensures
        r == ((x * y) / word_span()) as u64,
{
    assert((x as int) * (y as int) <= 0xffff_ffff_ffff_ffff * 0xffff_ffff_ffff_ffff) by (nonlinear_arith)
        requires
            x <= 0xffff_ffff_ffff_ffff,
            y <= 0xffff_ffff_ffff_ffff,
    ;
    assert((x as int) * (y as int) >= 0) by (nonlinear_arith);
    let p: u128 = (x as u128) * (y as u128);
    let h = p / 0x1_0000_0000_0000_0000u128;
    assert(h < 0x1_0000_0000_0000_0000);
    h as u64
}

/// The quotient or remainder of two 128-bit values given as word pairs, as its low and
/// high words; `None` when the divisor is zero.
fn wide_div(ahi: u64, alo: u64, bhi: u64, blo: u64, rem: bool) -> (r: Option<(u64, u64)>)
    ensures
        wide(bhi, blo) == 0 ==> r is None,
        wide(bhi, blo) != 0 ==> r == Some(
            ({
                let q = if rem {
                    wide(ahi, alo) % wide(bhi, blo)
                } else {
                    wide(ahi, alo) / wide(bhi, blo)
                };
                ((q % word_span()) as u64, (q / word_span()) as u64)
            }),
        ),
{
    let n: u128 = (ahi as u128) * 0x1_0000_0000_0000_0000u128 + (alo as u128);
    let v: u128 = (bhi as u128) * 0x1_0000_0000_0000_0000u128 + (blo as u128);
    if v == 0 {
        return None;
    }
    let q: u128 = if rem {
        n % v
    } else {
        n / v
    };
    assert(q <= n) by (nonlinear_arith)
        requires
            v > 0,
            q == if rem {
                n % v
            } else {
                n / v
            },
    ;
    let lo = (q % 0x1_0000_0000_0000_0000u128) as u64;
    let hi = (q / 0x1_0000_0000_0000_0000u128) as u64;
    Some((lo, hi))
}

fn shift_amount(y: u64) -> (r: u64)
    ensures
        r == y & 63u64,
        r < 64,
{
    let r = y & 63u64;
    assert(y & 63u64 < 64) by (bit_vector);
    r
}

/// Runs an instruction that only touches registers, the stack and memory.
pub fn machine_op(m: &mut Machine, consts: &[u64], i: Instr) -> (r: Result<(), Fault>)
    requires
        is_machine_op(i),
        regs_in_range(i),
    ensures
        matches_spec(r, old(m)@, final(m)@, machine_step(old(m)@, consts@, i)),
{
    match i {
        Instr::Mov { d, a } => {
            let v = m.reg(a);
            set(m, d, v)
        },
        Instr::Ldi { d, imm } => set(m, d, imm),
        Instr::Ldc { d, idx } => {
            if (idx as usize) < consts.len() {
                set(m, d, consts[idx as usize])
            } else {
                Err(Fault::BadConst)
            }
        },
        Instr::Add { d, a, b } => match m.reg(a).checked_add(m.reg(b)) {
            Some(v) => set(m, d, v),
            None => Err(Fault::Overflow),
        },
        Instr::Sub { d, a, b } => match m.reg(a).checked_sub(m.reg(b)) {
            Some(v) => set(m, d, v),
            None => Err(Fault::Overflow),
        },
        Instr::Mul { d, a, b } => match m.reg(a).checked_mul(m.reg(b)) {
            Some(v) => set(m, d, v),
            None => Err(Fault::Overflow),
        },
        Instr::Div { d, a, b } => {
            let y = m.reg(b);
            if y == 0 {
                Err(Fault::DivByZero)
            } else {
                let v = m.reg(a) / y;
                set(m, d, v)
            }
        },
        Instr::Rem { d, a, b } => {
            let y = m.reg(b);
            if y == 0 {
                Err(Fault::DivByZero)
            } else {
                let v = m.reg(a) % y;
                set(m, d, v)
            }
        },
        Instr::AddW { d, a, b } => {
            let v = m.reg(a).wrapping_add(m.reg(b));
            set(m, d, v)
        },
        Instr::SubW { d, a, b } => {
            let v = m.reg(a).wrapping_sub(m.reg(b));
            set(m, d, v)
        },
        Instr::MulW { d, a, b } => {
            let v = m.reg(a).wrapping_mul(m.reg(b));
            set(m, d, v)
        },
        Instr::MulHi { d, a, b } => {
            let v = mul_high(m.reg(a), m.reg(b));
            set(m, d, v)
        },
        Instr::DivW { dlo, dhi, alo, ahi, blo, bhi } => {
            match wide_div(m.reg(ahi), m.reg(alo), m.reg(bhi), m.reg(blo), false) {
                None => Err(Fault::DivByZero),
                Some((lo, hi)) => {
                    m.set_reg(dlo, lo);
                    set(m, dhi, hi)
                },
            }
        },
        Instr::RemW { dlo, dhi, alo, ahi, blo, bhi } => {
            match wide_div(m.reg(ahi), m.reg(alo), m.reg(bhi), m.reg(blo), true) {
                None => Err(Fault::DivByZero),
                Some((lo, hi)) => {
                    m.set_reg(dlo, lo);
                    set(m, dhi, hi)
                },
            }
        },
        Instr::And { d, a, b } => {
            let v = m.reg(a) & m.reg(b);
            set(m, d, v)
        },
        Instr::Or { d, a, b } => {
            let v = m.reg(a) | m.reg(b);
            set(m, d, v)
        },
        Instr::Xor { d, a, b } => {
            let v = m.reg(a) ^ m.reg(b);
            set(m, d, v)
        },
        Instr::Not { d, a } => {
            let v = !m.reg(a);
            set(m, d, v)
        },
        Instr::Shl { d, a, b } => {
            let v = m.reg(a) << shift_amount(m.reg(b));
            set(m, d, v)
        },
        Instr::Shr { d, a, b } => {
            let v = m.reg(a) >> shift_amount(m.reg(b));
            set(m, d, v)
        },
        Instr::Eq { d, a, b } => {
            let v: u64 = if m.reg(a) == m.reg(b) {
                1
            } else {
                0
            };
            set(m, d, v)
        },
        Instr::LtU { d, a, b } => {
            let v: u64 = if m.reg(a) < m.reg(b) {
                1
            } else {
                0
            };
            set(m, d, v)
        },
        Instr::GtU { d, a, b } => {
            let v: u64 = if m.reg(a) > m.reg(b) {
                1
            } else {
                0
            };
            set(m, d, v)
        },
        Instr::Push { a } => {
            let v = m.reg(a);
            if m.push(v) {
                Ok(())
            } else {
                Err(Fault::StackOverflow)
            }
        },
        Instr::Pop { d } => match m.pop() {
            Some(v) => set(m, d, v),
            None => Err(Fault::StackUnderflow),
        },
        Instr::MLoad { d, a } => match m.mem_load(m.reg(a)) {
            Some(v) => set(m, d, v),
            None => Err(Fault::BadMemory),
        },
        Instr::MStore { a, b } => {
            if m.mem_store(m.reg(a), m.reg(b)) {
                Ok(())
            } else {
                Err(Fault::BadMemory)
            }
        },
        _ => Ok(()),
    }
}

} // verus!
