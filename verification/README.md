# dify_console

A command-line tool that exports application DSLs (workflows, chatflows and
other app modes) from a Dify console to local YAML files and imports them
back, with per-environment app-id mappings, replace rules applied before an
import, optional publishing of imported workflows, and a cache of console
logins.

The decisions of the tool are a library verified with Verus; the program
around it performs the I/O.

## Layout

- `src/` — the verified library.
  - `text.rs`: character-level string helpers (trim, split, lines, join,
    replace) with exact specifications.
  - `json.rs`: the JSON document model, and its exchange with `serde_json`.
  - `strmap.rs`: a map keyed by strings, viewed as a `Map`.
  - `dsl.rs`: mode folders, file names of exported apps, and the metadata
    scan of a DSL document.
  - `replace.rs`: replace rules and their application to a YAML document.
  - `session.rs`: the login cache.
  - `dify_api.rs`: what goes into each console request and what is read from
    each answer (login cookies, tag lookup, app listing pages, exports,
    imports).
  - `config.rs`: one environment of the mapping file.
  - `order.rs`: the order in which a directory's DSL files are imported.
  - `commands/`: the decisions of the `export` and `import` commands.
  - `cli.rs`: the parsed command line.
- `tests/` — tests of the library on concrete values.
- `app/` — the program: argument parsing, HTTP requests, terminal prompts,
  files on disk, and the loops that drive the library.

Contracts are stated over mathematical views (`Seq<char>` for text, `Map`
for the mappings and the cache, a JSON model for documents). Where an outside
crate computes something that takes pages to state (YAML and JSON text,
regular-expression replacement), its result is named in the contracts rather
than restated; base64 encoding is stated in full.
