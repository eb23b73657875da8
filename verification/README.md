# struct_macros

The logic behind a set of struct derive macros (SQL methods, parser enums,
cipher helpers) and a path-enum attribute, written as a Verus library.

- `src/` computes, from a plain model of the input (`model::StructDef`,
  `paths::PathEntry`), exactly what is emitted: SQL statements, method names
  and bound fields (`sql`), enum and variant names and retain rules
  (`parser`), cipher helper names (`cipher`), and the path enum's variants in
  their sorted order (`ident`, `paths`, `order`). Every function carries a
  contract; the proof functions state the library's laws.
- `app/` reads `syn` input into that model, walks directories, and writes the
  planned items back out as tokens with `quote`.
- `tests/` exercise the library on concrete values.
