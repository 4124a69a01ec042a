# openscad_mcp

An OpenSCAD server for the Model Context Protocol, with its logic verified
by Verus.

- `src/` is the verified library: command-line and parameter parsing, the
  tool registry, the reading of JSON-RPC requests and the text of their
  answers, what each tool call is to do with every path it names checked
  first, the reading of `include`/`use` statements, the dependency
  graph and its cycle check, the search for circular includes as a state
  machine, cache keys, paths, expiry and eviction order, the sorting of
  directory listings, and the classification of OpenSCAD's diagnostics.
  Each public function states what it returns in its `ensures`, except
  the server and cache counters kept in shared atomics, whose values other
  threads may change at any time and which vstd does not model; the laws
  that relate several functions are public proof functions named `law_*`.
- `app/` is the program around it: standard input and output, the file
  system, the environment, running OpenSCAD, JSON and floating point.
- `tests/` exercises the library on concrete values.

The few calls into other crates that the logic makes (`regex`, `serde_json`,
`sha2`, and `str::to_lowercase`) go through small trusted wrappers whose
doc comments say what is assumed of them.
