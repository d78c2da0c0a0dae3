# agent store

A store of memories, tasks and run metrics for agents, with a knowledge index,
a dialogue client and a tool server on top of the same commands.

- `src/` is the library: every rule of the store, verified with Verus. Start with
  `store.rs` (what the store holds and how it changes), `store_laws.rs` (what
  every change keeps), `ranking.rs` (how a recall orders what it finds),
  `forward.rs` and `forward_laws.rs` (commands as tool calls and back) and
  `server.rs` (which tools are offered and refused).
- `app/` is the program around it: arguments, SQLite, HTTP, files, and everything
  in floating point.
- `tests/` holds the library's tests.

The library keeps the store in memory. The program reads the database into it,
lets the library decide, and writes back what changed. Floating-point scores reach
the library as integers in the same order (`store::Rank`), with the texts that show
them.
