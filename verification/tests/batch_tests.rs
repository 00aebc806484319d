use qtv_vm::harness::{exercise, exercise_crypto, rand_bytes, rand_consts, rand_crypto_case, rand_program, Rng, GAS_BOUND};

fn run_batch(seed: u64, count: usize) {
    let mut rng = Rng::new(seed ^ 11936128518282651045);
    for i in 0..count {
        let consts = rand_consts(&mut rng);
        let code = if i % 2 == 0 { rand_bytes(&mut rng, 256) } else { rand_program(&mut rng) };
        exercise(&code, &consts);
    }
}

fn run_crypto_batch(seed: u64, count: usize) {
    let mut rng = Rng::new(seed ^ 2870177450012600261);
    for _ in 0..count {
        let (code, mem) = rand_crypto_case(&mut rng);
        if let Ok(out) = exercise_crypto(&code, &mem) {
            assert!(out.meter_used <= GAS_BOUND);
        }
    }
}

#[test]
fn batch_never_panics() {
    run_batch(72623859790382856, 5000);
}

#[test]
fn batch_is_deterministic_across_seeds() {
    run_batch(1, 500);
    run_batch(2, 500);
    run_batch(u64::MAX, 500);
}

#[test]
fn crypto_batch_never_panics() {
    run_crypto_batch(1311768467463790320, 256);
}
