use qtv_vm::state::{Machine, MEM_BYTES, STACK_LIMIT, WORD_BYTES};

#[test]
fn new_is_zeroed() {
    let m = Machine::new();
    assert_eq!(m.pc, 0);
    assert!(m.stack.is_empty());
    assert_eq!(m.mem.len(), MEM_BYTES);
    assert!(m.regs.iter().all(|&w| w == 0));
    assert!(m.mem.iter().all(|&b| b == 0));
}

#[test]
fn registers_round_trip() {
    let mut m = Machine::new();
    m.set_reg(3, 42);
    assert_eq!(m.reg(3), 42);
    assert_eq!(m.reg(4), 0);
}

#[test]
fn stack_respects_limit() {
    let mut m = Machine::new();
    for i in 0..STACK_LIMIT {
        assert!(m.push(i as u64));
    }
    assert!(!m.push(0));
    assert_eq!(m.pop(), Some((STACK_LIMIT - 1) as u64));
}

#[test]
fn byte_region_round_trip_and_bounds() {
    let mut m = Machine::new();
    assert!(m.mem_write(10, &[1, 2, 3, 4]));
    assert_eq!(m.mem_region(10, 4), Some(&[1, 2, 3, 4][..]));
    assert_eq!(m.mem_region(0, MEM_BYTES as u64), Some(&m.mem[..]));
    assert_eq!(m.mem_region(MEM_BYTES as u64, 1), None);
    assert_eq!(m.mem_region(0, MEM_BYTES as u64 + 1), None);
    assert!(!m.mem_write(MEM_BYTES as u64, &[1]));
    assert!(!m.mem_write(u64::MAX, &[1]));
    assert_eq!(m.mem_region(4, 0), Some(&[][..]));
}

#[test]
fn memory_round_trip_and_bounds() {
    let mut m = Machine::new();
    assert!(m.mem_store(0, 72623859790382856));
    assert_eq!(m.mem_load(0), Some(72623859790382856));
    assert_eq!(m.mem_load((MEM_BYTES - WORD_BYTES + 1) as u64), None);
    assert!(!m.mem_store(u64::MAX, 1));
}

#[test]
fn a_store_leaves_the_bytes_around_it_alone() {
    let mut m = Machine::new();
    assert!(m.mem_write(0, &[9; 24]));
    assert!(m.mem_store(8, 0x0102_0304_0506_0708));
    assert_eq!(m.mem_region(0, 8), Some(&[9u8; 8][..]));
    assert_eq!(m.mem_region(8, 8), Some(&[1, 2, 3, 4, 5, 6, 7, 8][..]));
    assert_eq!(m.mem_region(16, 8), Some(&[9u8; 8][..]));
    assert_eq!(m.mem_load((MEM_BYTES - WORD_BYTES) as u64), Some(0));
}

#[test]
fn an_empty_stack_pops_nothing() {
    let mut m = Machine::new();
    assert_eq!(m.pop(), None);
    assert!(m.push(5));
    assert!(m.push(6));
    assert_eq!(m.pop(), Some(6));
    assert_eq!(m.pop(), Some(5));
    assert_eq!(m.pop(), None);
}
