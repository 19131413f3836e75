# koi

The logic of a small game-engine toolkit, written in Verus: each function
carries a `requires` / `ensures` contract and Verus proves the body meets it.

Modules under `src/`:

- `kmath`: integer vectors and shapes (balls, lines, segments, bounding
  boxes) with their laws (cross product, box join).
- `kudo`: an entity-component world (archetypes, queries, filters), the
  merge of sorted entity lists, and the text of the `Component` impls that
  the derive writes.
- `kserde`: a JSON writer and reader, a value of any JSON kind (`Thing`),
  and the text of the `Serialize` / `Deserialize` impls that the derive
  writes.
- `kreflect`: a tokenizer and parser for Rust item declarations, printing
  of the parsed items, and the conversion of a token stream into tokens.
- `kgltf`: reading and writing the GLB container; reading a JSON schema
  (such as those of the glTF specification) into a `Schema`
  (`schema_reader`); the Rust type of each schema (`rust_types`, with
  `heck` for the case of names) and the Rust source text generated for the
  named types (`generator`).
- `kgraphics`: the parts of the graphics layer that compute (pixel formats,
  image flipping, a bump allocator, pipeline settings).
- `kphysics`: a fixed-capacity vector.
- `ktasks`: the bookkeeping of task handles.
- `ktracing_allocator`: the counting done by a tracing allocator.

`tests/` runs the library on concrete values. `app/` holds what Verus does
not take: the calls into outside crates that do I/O or ask the machine,
the reading of schema files from disk, and the arithmetic on floats.

Numbers keep the text they were read with: limits and defaults of a schema
are `JsonNumber`s, and the generated code writes a default number as it
was read (where a float would have printed `1.0` as `1`). The physics
step, the simplex solver and the OpenGL calls work on floats or on a
graphics context and stay out of the library.
