# gql_codegen_core

The verified core of SGC, a GraphQL code generator for TypeScript. Every
function under `src/` carries a contract that Verus proves; `app/` is the
command-line program around it (arguments, files, terminal).

## Layout

- `src/extract.rs`, `src/scanner.rs`: finding GraphQL documents in
  JavaScript and TypeScript sources (`gql` and `graphql` tagged templates,
  templates after a `/* GraphQL */` comment), as slices of the source text.
- `src/documents/`: which files the document patterns select, and collecting
  the operations and fragments of the loaded documents (parsed with
  `apollo-compiler`), the first of each name winning.
- `src/schema.rs`: building and validating the schema; its errors as
  diagnostics.
- `src/casing/`: naming conventions and the case transforms.
- `src/config.rs`, `src/codegen.rs`: configuration values, option merging and
  the plan of each output.
- `src/cache.rs`, `src/glob_cache.rs`: the cache's freshness decisions.
- `src/diagnostic/`: diagnostics and their rendering.
- `src/cli/`: the decisions of the command line (log levels, messages, output
  path templates).
- `src/globs.rs`, `src/paths.rs`, `src/text.rs`, `src/fs.rs`: the calls into
  `globset`, `std::path` and `str` that the logic rests on, each with the
  contract it is trusted to meet, and an in-memory file system.

`tests/` exercises the library on concrete values.

The TypeScript generators that the outputs name are not part of this
project's sources, so the command line plans each output (its generators
and their merged options) but cannot run them: a configuration that names
a generator ends with "generator … is not available". Diagnostics render a
source snippet from the text they carry (`inline_source`); there is no
cache of loaded files to look a location's text up in.
