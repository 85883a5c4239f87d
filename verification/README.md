# pysub_compiler

A compiler for the pysub smart-contract language and for YAML manifests of DSL modules,
producing WebAssembly modules for the Axiom runtime, written in Verus.

- `src/` is the verified library:
  - `parser.rs` normalizes indentation into braces; `ast.rs` builds the program;
    `semantics.rs` checks it; `lower.rs` lowers it to the IR of `ir.rs`.
  - `dsl.rs` parses DSL modules; `manifest.rs` lowers a manifest's modules to the IR, with
    deterministic storage encodings from `serialize.rs` placed by a data allocator.
  - `codegen_wasm.rs` selects instructions and lays out the module; `encoder.rs` is the
    boundary with `wasm_encoder`.
  - `metadata.rs` describes a compiled module; `abi.rs` holds the runtime export names.
- `app/main.rs` is the command-line program: file I/O, YAML and JSON, signing.
- `tests/` runs the library against the expected behaviour.
