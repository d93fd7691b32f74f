# bench_tools

The logic of a cross-language benchmark suite, written in Verus and proved
against its contracts: the Rust benchmark kernels (sorting, hashing, string,
CPU, crypto and concurrency kernels, the matrix transpose) and the decisions
of the tools around them (task tables, reading benchmark output, the SQL text
of the statistics queries, ordering and grouping result rows, and what each
key does on the two terminal screens).

- `src/` — the verified library. Each module opens with a note on what it
  holds; the proof functions marked `pub` state the library's laws (sorts
  agree, XOR with a key undoes itself, an escaped name reads back from its
  SQL literal, selections move and come back, two outputs joined by a
  newline read as both, every `bench` task is a runner task, and so on).
- `tests/` — tests of the library on concrete values.
- `app/` — the programs: the `runner`, `store`, `bench` and `monitor` tools
  (SQLite storage, process spawning, terminal drawing) and the timed
  benchmark programs, with the floating-point kernels. The program is picked
  by its file name or its first argument.
