# stef_parser

Verified building blocks of the stef schema tooling, written in Verus.

- `src/literals.rs` — literal values (`true`, `false`, integers, floating
  point numbers, strings with escapes, byte lists).
- `src/types.rs` — type references (`u32`, `vec<T>`, `hash_map<K, V>`,
  tuples, arrays, outside types with module paths and type arguments).
- `src/consts.rs` — constant declarations `const NAME: type = literal;`.
- `src/decode.rs`, `src/definition.rs` — generation of the Rust source of
  `stef::Decode` implementations for structs and enums.
- `src/ast.rs` — the schema parts that the parsers produce and the generator
  reads.
- `src/text.rs`, `src/strings.rs`, `src/tokens.rs`, `src/error.rs` — character
  classes and numbers, string building, token text, and the error model.

Every parser takes the input as a slice of characters and a start position,
and is proved equal to a grammar written as spec functions: the value it
returns, the position after it, and on failure the exact error and whether it
can be backtracked from. Positions in errors count characters.

`app/` holds the command line tool (`check`, `format`), which reads files and
reports errors with `miette`.
