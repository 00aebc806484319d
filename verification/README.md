# qtv_vm

A deterministic, metered register machine with post-quantum primitives as instructions,
written in Verus: every function of the library carries a contract, and Verus proves it.

Sixteen 64-bit registers, 64 KiB of scratch memory zeroed at entry, a bounded stack, a fixed
byte encoding and one fixed cost per instruction. A run decodes, charges and executes until a
clean halt, which surfaces registers, meter, storage and recorded effects, or until a fault,
which surfaces nothing. Contracts live in a container format of code, constants and entries;
each entry declares the storage it may read and write, and the interpreter enforces it.

## Layout

- `src/` — the library.
  - `isa`: opcodes, instructions, their encoding and the decoder; encode and decode are
    proved inverse.
  - `state`: registers, stack and memory.
  - `semantics`: the meaning of a run as spec functions (`step`, `run_from`), and the laws
    that hold of every run: it ends within its meter, an entry changes only the slots it
    may write and sees nothing of storage outside the slots it may read (its declared
    slots and the keys derived from its declared map bases), and storage and effects come
    out only at a clean halt.
  - `alu`, `crypto`, `interp`: the interpreter, proved to compute `run_from`.
  - `container`: the canonical serialization (proved one-to-one), identifier, selectors,
    and the deploy-time verifier.
  - `gas`, `meter`: the cost schedules.
  - `storage`, `abi`, `bytes`: keys, slots and big-endian words.
  - `primitives`: the calls into `sha3`, `ml-dsa`, `slh-dsa` and `ml-kem`; their results
    are named, not proved.
  - `assembler`: a text assembler for test programs, specified as a two-pass grammar.
  - `harness`, `entry_fuzz`: random programs and containers for fuzzing, with the fuzzing
    properties proved rather than checked.
- `tests/` — tests against the compiled library, with the real primitive crates linked.
- `app/` — the fuzz driver: batches of random inputs, run under `catch_unwind`.
