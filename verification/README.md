# jvm_codegen

The JVM back end of a small compiler: it turns the compiler's functions and
data section into a Java class file, with its behaviour stated in contracts
and proved.

- `src/bytes.rs`: big-endian output of bytes, words and double words.
- `src/ir.rs`: the compiler's intermediate representation that the back end reads.
- `src/class_file.rs`: constant-pool entries, their encoding, and the generator
  state (constant pool, methods, data-section strings) with interning.
- `src/codegen.rs`: loading and storing operands, functions, the data section,
  the class header and body, and the whole program; each is specified by a
  spec function of its inputs.
- `src/laws.rs`: properties across operations (interning, encoding, references
  that resolve in the pool).
- `app/lib.rs`: the trace, the error messages, and writing the class file.
