# trending-watcher

The curation rules of the LMmaster trending watcher, verified with Verus.

- `src/` — the library: model metadata (`types`), license tiers, GGUF mirror
  detection, the parameter-count token and the queue rule (`filter`), the
  markdown issue report (`report`), URL building, HTTP status handling and
  retry headers (`fetch`), reading of response bodies (`parse`), errors
  (`error`), run settings (`cli`) and character-level text helpers (`text`).
  Every function carries a contract; the laws are `pub proof fn law_*`.
- `app/` — the command-line program: HTTP with `reqwest`, Parquet with
  `parquet`/`arrow-array`, serde forms of the data, logging, and the
  floating-point score arithmetic.
- `tests/` — tests of the library.
