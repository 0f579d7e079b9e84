# pattern_sygus

A verified library that turns the lowering rules of an ISLE program into
SyGuS grammar productions, and extracts small data-flow patterns from
Cranelift functions.

- `src/` is the library, verified with Verus:
  - `isle.rs` and `ir.rs` hold the parts of an ISLE program and of a
    Cranelift function that the library reads;
  - `sygus.rs` builds productions from pattern trees, `rules.rs` builds the
    trees from ISLE patterns and runs over a whole program;
  - `extractor.rs` finds the patterns of a function;
  - `sygus_laws.rs` and `extractor_laws.rs` prove what holds of every
    result;
  - `opcode.rs` asks `cranelift_codegen` whether a name is an opcode.
- `app/` reads Cranelift's own data structures into the library's types,
  prints, and implements `Display` and `Debug`.
- `tests/` runs the library on concrete inputs.
