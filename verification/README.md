# runner

The verified core of a benchmark runner, and the program around it.

Several runners, one per machine, go through the same list of spawns in step: they find
each other, agree on a log folder, measure how far their clocks are apart, and wait for
each other before and after every spawn. An interrupted run can be resumed; spawns that
are complete on every runner are then skipped.

## Layout

- `src/` holds the logic: reading and checking a config, expanding variants into
  spawns, command lines, discovery and barriers, framing on the links between runners,
  clock measurements, progress and termination, manifests of a resumed run, and what the
  operator gets to see. All of it is verified with Verus against its contracts.
- `tests/` runs the library.
- `app/` is the program: sockets, files, processes, threads and the clock. It carries out
  what the library decides and turns JSON and TOML into the library's values.

## Conventions

- Times and spans are whole nanoseconds (`src/time.rs`).
- Sets and maps of names are kept in the order of the names (`src/names.rs`), so that
  every listing comes out the same on every runner.
- A phase of the coordination is a function from what is known and an event to the next
  step (`src/protocol.rs`); the program sends, receives and keeps time.
