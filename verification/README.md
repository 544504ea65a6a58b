# solc_bytecode

Bytecode as the Solidity compiler reports it, with verified linking of libraries.

An object of bytecode is either fully linked bytes or hex text that still holds
placeholders for library addresses (`__$<hash>$__`, or the older `__<file>:<Library>___…__`).
Linking replaces every placeholder of a library by the lowercase hex of its address and
drops the library from the link references; once no reference is left, the text is read as
hex, and the bytecode is fully linked.

Layout:

- `src/` is the library, verified with Verus.
  - `object.rs`: the bytecode object, linking by placeholder, resolving hex text.
  - `bytecode.rs`, `deployed.rs`: bytecode with its link references, and the compact and
    deployed forms, with conversions between them.
  - `str_map.rs`: the string-keyed map that holds link references (kept ordered by key).
  - `text.rs`: search, replacement and splitting on character sequences.
  - `multi_replace.rs`: several replacements done in one scan, and how single replacements
    combine into it (used to show that linking two libraries commutes).
  - `hex.rs`, `placeholder.rs`: what hex text and placeholders are, and the calls into
    `alloy_primitives` and `foundry_compilers_core` that compute them.
  - `laws.rs`: properties that hold across calls (linking reports exactly whether the
    bytecode is then fully linked, linking twice is linking once, linking two libraries
    commutes, written bytecode reads back, conversions round-trip, …).
- `app/` holds the serde form of the types and conversions from `alloy_primitives` types.
- `tests/` runs the library on concrete values.
