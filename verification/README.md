# Synapse

A bridge between processes of different languages: shared memory, lock-free rings, and a schema
language (`.bridge`) whose types have the same layout in Rust, Python and C++.

- `src/` is the library, verified with Verus. It works on regions given as byte slices, and makes
  the decisions of the protocols: rings, control block, bridge ends, typed channels and their
  registry, latest-value slots, heartbeats and shutdown, waiting, creating and opening shared
  memory, and the schema compiler (lexer, parser, layout, code generation).
- `tests/` are its tests.
- `app/` is the program around it: mapped memory, atomic operations, futexes, files, the command
  line and the Python module.

The rings and slots are proved correct for one process at a time on a region, and, in `spsc` and
`seqlock`, for two sides that work at the same time, step by step in any order.
