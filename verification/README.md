# Traza

The logic of Traza, a datastore for traces of agents, as a library in Verus:
every function states what it returns, and Verus proves that it does.

- `src/` is the library. Public functions carry exact contracts over views of
  their arguments. Functions named `law_*` state what holds across functions.
- `app/` is ordinary Rust around it: sockets, files, processes, and whatever is
  floating point.
  It turns the lines of the logs into records; the library finds the lines,
  and says what the records come to and what a torn log needs. The query and
  storage benchmarks read the models that their corpora call from
  `docs/benchmarks/query-models.txt` and `docs/benchmarks/storage-models.txt`,
  one name per line.
- `tests/` runs the library on concrete values.

The library calls `serde_json` for parsing. What is taken on trust about it, and
about the few functions of the standard library that are called through
wrappers, stands above each wrapper in `json.rs`, `text.rs` and `http.rs`.
