# relaygraph

relaygraph builds a graph of repository resources from YAML sidecars
(`<file>.relaygraph.yaml`), checks it against plugin rules, and answers
trace, export, cache and link-editing requests.

Layout:

- `src/` is the library, written in Verus. Every function there carries a
  contract and is proved: sidecar and plugin validation, graph assembly and
  link resolution, traversal and tracing, the export document, relation
  freshness, the text edits that add, remove, update and acknowledge links,
  path-hint synchronisation, sidecar initialisation and generation, the cache
  rows and cache schema checks, and output-path guarding. `src/laws.rs` holds
  the properties that span several functions; `src/agreement.rs` proves that
  tracing the cache rows of a graph visits what tracing the graph visits.
- The calls into `globset`, `serde_json` and `sha2`, and a few std
  conversions, stand behind small trusted wrappers whose contracts say what
  the library relies on.
- `app/` is the command-line program: argument parsing, Git and filesystem
  access, YAML parsing, SQLite reads and writes, and printing. It hands plain
  values to the library and acts on what comes back.
- `tests/` runs the library on concrete inputs.
