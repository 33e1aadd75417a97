# seamctl

Tooling for seam records: JSON descriptions of the boundaries between
components.

- `src/` is the verified library: which files are seam records and in which
  order they are read (`discovery`), the policy rules (`policy`), JSON and
  JSON Schema handling (`json`), the check, made before a schema is
  compiled, that following its references comes to an end, so that
  compiling and validating with it stop (`refs`; a schema where some chain
  of references could go round for ever is refused), the JSON documents the library writes (`jsonout`),
  the bookkeeping and outcome of a validation
  (`validate`), the component/seam dependency graph and its JSON and DOT
  renderings (`graph`), and the command dispatch (`cli`).
- `app/` is the `seamctl` program: argument parsing, walking and reading the
  file system, decoding records, printing and writing output.
- `tests/` exercises the library.
