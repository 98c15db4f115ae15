# icsprism

Tooling for fuzzing PLC programs written in IEC 61131-3 Structured Text and
compiled to LLVM IR.

- `src/` is the verified library: IR text scanning, struct layout and field
  models, C harness generation, data-dependence graphs and the distances drawn
  from them, state bucketing, heartbeat lines, input planning and the byte-level
  mutators. Every public function carries a contract checked by Verus; the
  `lemma_*` proof functions state properties that span several calls.
- `app/` holds the command-line driver: argument handling, file and FFI I/O,
  LLVM module loading, the fuzzing loops, and the floating-point weighting code.
  It hands plain values to the library and acts on what comes back.
- `tests/` runs the library on concrete inputs.
