# memoria_derived

The Derived layer of a local-first memory runtime: everything that can be
rebuilt from authoritative Memory revisions. It turns a revision's IR into
projections (structure, time, relations, entities, explicit tags, lexical
text, provider-safe embedding and rerank views), keys them by content
hashes, tracks which artifacts a change invalidates, plans manifest
publication and garbage collection, encodes vector payloads and ANN delta
segments, and keeps the tag dictionary and the space-local tag
association graph.

## Layout

- `src/` — the verified library. Every public function carries a
  `requires`/`ensures` contract proved by Verus (trait methods such as
  `eq` and `from` are specified through their `*SpecImpl` companions);
  the laws that relate
  several functions are public proof functions named `law_*`.
  The only trusted items wrap SHA-256 (`digest.rs`) and three standard
  string and character routines (`text.rs`).
- `tests/` — tests of the library on concrete values.
- `app/` — the I/O around it: the SQLite catalog (rusqlite), objects on
  disk, the usearch vector index, the tantivy lexical index, the
  scheduler thread and the base build. Floating-point scoring and
  weights live there too; the library decides, the app reads and writes.
