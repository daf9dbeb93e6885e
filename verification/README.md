# wtcd

A repository semantic mirror: for every source file a machine-oriented
markdown mirror (front matter header plus eight fixed sections), module
mirrors, a routing index for task-to-file lookup, knowledge documents, and a
drift analysis with a merge policy that keeps the mirrors in step with the code.

## Layout

- `src/` — the library, verified with Verus.
  - `text`, `order`, `paths`: strings, orderings and paths as specified values.
  - `syntax`, `decls`: syntax trees as node lists (parsed by tree-sitter behind
    trusted wrappers) and the declaration shapes the adapters share.
  - `ts_adapter`, `py_adapter`, `go_adapter`, `c_adapter`, `cpp_adapter`,
    `csharp_adapter`, `dart_adapter`, `rust_adapter`, `swift_adapter`,
    `zig_adapter`, `registry`: the language adapters and their registry.
  - `fingerprint`, `template`, `front_matter`, `mirror_io`: fingerprints,
    mirror text, reading a header back, the manual appendix, orphans.
  - `depgraph`, `index`, `modules`, `knowledge`: the dependency graph, the
    routing index and queries, module aggregation, knowledge documents.
  - `diff_types`, `classifier`, `analyzer`, `gate`, `pipeline`, `scope`,
    `config`, `stamps`, `error`: drift analysis, the merge policy, the run
    pipeline's decisions, scanning scope and configuration.
- `tests/` — the test suite.
- `app/` — the command-line program and the MCP server: argument handling,
  file and git access, serialisation.

The laws the library keeps are public proof functions named `law_*`.
