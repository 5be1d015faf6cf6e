# durable_workflow

Workflows that survive the process they run in. A run's history holds what it has
asked for (activities, timers, children, change markers) and what has come of it.
Whenever something new is in the history, the workflow is replayed from its start and
what it asks for beyond the history is committed.

- `src/` is the library, verified with Verus: replay and the means of a workflow
  (`workflow`), the decisions of the engine (`engine`), what a store reads and writes
  (`store`), and a chat, a small calculator and the views of a desktop shell on top.
  It computes on plain values; the laws stand in `workflow/laws.rs`,
  `engine/laws.rs`, `store/model.rs` and beside the functions they are about.
- `app/` is ordinary Rust around it: workflows as async functions, the background
  loops, a store on SQLite, and the window.
- `tests/` runs the library, with a store in memory.

What the library takes on trust are three calls: `serde_json` writes a string as JSON
(`json::quote`), `serde_json` reads a document and writes it again (`json::compact`),
and `uuid` makes a random id (`engine::ids::fresh_id`).
