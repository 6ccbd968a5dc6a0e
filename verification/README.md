# silent_cartographer

A code graph for Rust and Python workspaces: a semantic index is joined against the workspace's
own syntax, and what aligns becomes symbols, occurrences and typed edges (`contains`, `uses`,
`imports`, `type_hierarchy`) kept in a SQLite store, with the join's accounting and every refusal
kept inspectable.

## Layout

- `src/` — the verified library. Every function carries a contract proved by Verus.
  - `graph/plan.rs` plans a whole build from an index model and the sources: identities, the
    join's cases (per symbol and per duplicate group), the join with its alias pass and
    syntax-only count, symbol and occurrence rows, edges, discrepancies and metadata.
  - `graph/join.rs`, `graph/rules.rs`, `graph/twins.rs` hold the alignment rules and the join's
    passes; `graph/edges.rs`, `graph/hierarchy.rs`, `graph/ingest.rs` derive what a build persists;
    `graph/distance.rs` answers the dependents of a set of seeds within a horizon.
  - `graph/tree.rs` reads tree-sitter syntax trees; `graph/range.rs` normalizes index positions
    onto byte spans; `identity.rs` projects descriptors onto canonical identities.
  - `git.rs`, `commands.rs`, `manifest.rs` hold the decisions behind the command line.
- `app/` — the program around the library: argument handling, the store's SQL, git and analyzer
  processes, and JSON output.
- `tests/` — tests of the library on concrete values.

## Not included

The semantic corpus's chunking and embeddings need a tokenizer and an embedding model runtime,
and the index readers for the analyzers' output formats are not part of this program; the `build`
command therefore refuses live indexing, and a build from a pre-produced index goes through
`build_from_index` in `app/commands.rs`. The declaration tiers (signature and interface text) and
the Rust test-attribute and test-configuration syntax are not read, so symbol rows carry no
definition content and Rust symbols no test rule.
