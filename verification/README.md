# greppy

The logic of the `greppy` tools as a verified library: grep/ripgrep
argument handling, edit plans with certificates and an all-or-nothing
multi-file journal, structured-data edits, `greppy changes`, `greppy map`,
`greppy verify` test-run classification, GGUF model parsing and the choice
of performance cores for native inference.

## Layout

- `src/` is the library. Every function in it carries a `requires` /
  `ensures` contract proved by Verus; the public proof functions state the
  properties that hold across calls (round trips, idempotence, what a
  refused or dry-run plan publishes, what recovery restores).
  - text, strutil, spans, base64url, hash: characters, `/`-separated paths,
    definition spans, base64url and SHA-256 hex.
  - handle, certificate, plan, txn, journal, data, ensure: edit handles,
    certificates, plan resolution, in-memory application, journal recovery
    and publication as a state machine, `$.a.b[2]` data paths,
    `ensure-import`.
  - rg: recognising ripgrep-style invocations and translating them to grep.
  - changes, map, testrun, verify, workspace: the reports of the
    `changes`, `map` and `verify` commands and the store layout.
  - gguf, tensor, kargs, cuda, cpu_features, performance, query_cache: the
    native-inference side: model files, tensor descriptors, kernel records,
    CUDA status codes,
    CPU selection and query keys.
- `tests/` runs the library on concrete values.
- `app/` is the command-line program around the library: argument parsing,
  git and process calls, the file system, memory maps, thread pools and
  JSON/TOML output. It only reads, writes and converts; every decision is a
  call into the library.

Verify with Verus on `src/lib.rs`; the tests and `app/` build with cargo.
