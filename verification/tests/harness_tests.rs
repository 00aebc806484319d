use arbitrary::Unstructured;
use qtv_vm::entry_fuzz::{drive, gen_instr, gen_slots, remap_target};
use qtv_vm::harness::{
    decode_sweep, exercise, exercise_crypto, rand_bytes, rand_consts, rand_crypto_case, rand_instr,
    rand_program, Rng, GAS_BOUND,
};
use qtv_vm::isa::{decode, Instr};
use qtv_vm::state::MEM_BYTES;

#[test]
fn the_generator_yields_the_splitmix_sequence() {
    let mut rng = Rng::new(0);
    assert_eq!(rng.next_u64(), 0xe220a8397b1dcdaf);
    assert_eq!(rng.next_u64(), 0x6e789e6aa1b965f4);
    assert_eq!(rng.next_u64(), 0x06c45d188009454f);
    let mut a = Rng::new(42);
    let mut b = Rng::new(42);
    for _ in 0..100 {
        assert_eq!(a.below(1000), b.below(1000));
    }
}

#[test]
fn random_programs_decode_end_to_end_and_end_in_halt() {
    let mut rng = Rng::new(7);
    for _ in 0..200 {
        let code = rand_program(&mut rng);
        let mut pc = 0usize;
        let mut last = None;
        while pc < code.len() {
            let (instr, used) = decode(&code, pc).expect("a generated program decodes");
            last = Some(instr);
            pc += used;
        }
        assert_eq!(pc, code.len());
        assert_eq!(last, Some(Instr::Halt));
    }
}

#[test]
fn random_instructions_keep_branch_targets_short() {
    let mut rng = Rng::new(3);
    for _ in 0..500 {
        match rand_instr(&mut rng) {
            Instr::Jz { target, .. } | Instr::Jnz { target, .. } => assert!(target < 64),
            _ => {}
        }
    }
}

#[test]
fn random_bytes_and_constants_stay_within_their_sizes() {
    let mut rng = Rng::new(11);
    for _ in 0..200 {
        assert!(rand_bytes(&mut rng, 256).len() <= 256);
        assert!(rand_consts(&mut rng).len() < 8);
    }
}

#[test]
fn a_small_batch_of_random_inputs_runs_within_the_bound() {
    let mut rng = Rng::new(72623859790382856);
    for i in 0..300 {
        let consts = rand_consts(&mut rng);
        let code = if i % 2 == 0 { rand_bytes(&mut rng, 256) } else { rand_program(&mut rng) };
        decode_sweep(&code);
        exercise(&code, &consts);
    }
}

#[test]
fn crypto_cases_fill_memory_and_stay_metered() {
    let mut rng = Rng::new(1311768467463790320);
    for _ in 0..4 {
        let (code, mem) = rand_crypto_case(&mut rng);
        assert_eq!(mem.len(), MEM_BYTES);
        if let Ok(out) = exercise_crypto(&code, &mem) {
            assert!(out.meter_used <= GAS_BOUND);
        }
    }
}

#[test]
fn targets_land_on_the_given_starts() {
    let starts = [0u32, 10, 15];
    let mut j = Instr::Jmp { target: 7 };
    remap_target(&mut j, &starts);
    assert_eq!(j, Instr::Jmp { target: 10 });
    let mut c = Instr::Call { target: 5 };
    remap_target(&mut c, &starts);
    assert_eq!(c, Instr::Call { target: 15 });
    let mut other = Instr::Nop;
    remap_target(&mut other, &starts);
    assert_eq!(other, Instr::Nop);
}

#[test]
fn generated_instructions_fit_the_constant_pool() {
    let data: Vec<u8> = (0..4096u32).map(|i| (i * 31 % 251) as u8).collect();
    let mut u = Unstructured::new(&data);
    for _ in 0..200 {
        match gen_instr(&mut u, 3).expect("gen") {
            Instr::Ldc { idx, .. } => assert!(idx < 3),
            _ => {}
        }
    }
    let mut u = Unstructured::new(&data);
    assert!(gen_slots(&mut u).expect("slots").len() <= 6);
}

#[test]
fn container_cases_run_on_arbitrary_bytes() {
    let mut rng = Rng::new(99);
    for _ in 0..100 {
        let data = rand_bytes(&mut rng, 2048);
        let mut u = Unstructured::new(&data);
        assert!(drive(&mut u).is_ok());
    }
}

#[test]
fn slots_are_a_count_then_little_endian_words() {
    let mut data = vec![2u8];
    data.extend_from_slice(&1u64.to_le_bytes());
    data.extend_from_slice(&2u64.to_le_bytes());
    data.push(0xee);
    let mut u = Unstructured::new(&data);
    assert_eq!(gen_slots(&mut u).expect("slots"), vec![1, 2]);
    assert_eq!(u.len(), 1);
    let mut u = Unstructured::new(&[9, 5]);
    assert_eq!(gen_slots(&mut u).expect("slots"), vec![5, 0]);
    assert!(u.is_empty());
}

#[test]
fn instructions_are_a_kind_then_their_operands_in_order() {
    let mut u = Unstructured::new(&[5, 17, 2, 3, 0xaa]);
    assert_eq!(gen_instr(&mut u, 0).expect("gen"), Instr::Add { d: 1, a: 2, b: 3 });
    assert_eq!(u.len(), 1);
    let mut u = Unstructured::new(&[4, 1, 0x05, 0x01]);
    assert_eq!(gen_instr(&mut u, 3).expect("gen"), Instr::Ldc { d: 1, idx: 261 % 3 });
    let mut u = Unstructured::new(&[4, 1, 0x05, 0x01]);
    assert_eq!(gen_instr(&mut u, 0).expect("gen"), Instr::Nop);
    assert_eq!(u.len(), 3);
    let mut u = Unstructured::new(&[27, 0x10, 0, 0, 0]);
    assert_eq!(gen_instr(&mut u, 0).expect("gen"), Instr::Jmp { target: 16 });
}

#[test]
fn storage_is_a_count_then_keys_with_words() {
    let mut data = vec![1u8];
    let key = [7u8; 32];
    data.extend_from_slice(&key);
    data.extend_from_slice(&99u64.to_le_bytes());
    let mut u = Unstructured::new(&data);
    let storage = qtv_vm::entry_fuzz::gen_storage(&mut u).expect("storage");
    assert_eq!(storage.len(), 1);
    assert_eq!(storage.get(&key), Some(&99));
    assert!(u.is_empty());
}

#[test]
fn a_rejected_container_takes_no_bytes_past_its_entries() {
    // No constants, no instructions, one entry whose offset is past the code.
    let mut data = vec![0u8, 0u8, 1u8];
    data.extend_from_slice(&[1, 2, 3, 4]);
    data.push(0);
    data.extend_from_slice(&100u32.to_le_bytes());
    data.extend_from_slice(&[0, 0, 0, 0]);
    data.extend_from_slice(&[0xab; 5]);
    let mut u = Unstructured::new(&data);
    assert!(drive(&mut u).is_ok());
    assert_eq!(u.len(), 5);
}

#[test]
fn the_memory_length_is_two_bytes_read_big_endian() {
    // No constants, no instructions, no entries: the container is a lone HALT and is
    // accepted; then four selector bytes, eight meter bytes, the memory length over
    // 0..=2048 (two bytes, 0x0005), five bytes of memory and a zero storage count.
    let mut data = vec![0u8, 0, 0];
    data.extend_from_slice(&[9, 9, 9, 9]);
    data.extend_from_slice(&1000u64.to_le_bytes());
    data.extend_from_slice(&[0x00, 0x05]);
    data.extend_from_slice(&[1, 2, 3, 4, 5]);
    data.push(0);
    data.extend_from_slice(&[0xee, 0xee]);
    let mut u = Unstructured::new(&data);
    assert!(drive(&mut u).is_ok());
    assert_eq!(u.len(), 2);
}
