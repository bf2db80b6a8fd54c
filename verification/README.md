# cdm_linker

The linker driver of the CdM-16 Rust target and the CdM-16 runtime routines,
written in Verus.

- `src/` is the verified library: how input files are sorted (assembly,
  objects, archives, bitcode), where intermediate files go, which tool runs
  come in which order with which arguments, the `cdm-none` target
  description, and the runtime's integer arithmetic (shift-and-add
  multiplication, restoring division, 64-bit word-wise addition, subtraction
  and negation) and memory routines.
- `app/` is the `cdm-linker` program: command line parsing, the file system,
  running `llc` and `cocas`, and logging.
- `tests/` runs the library on concrete inputs.
