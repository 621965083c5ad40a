# laba_core

GitHub backend driven through the `gh` CLI, verified with Verus: my open issues
and pull requests in one de-duplicated list, my notifications with links that a
browser can open, and marking notifications read.

- `src/` is the verified library. `backend.rs` holds the operations; `runner.rs`
  the `GhRunner` trait they ask `gh` through; `tasks.rs`, `notifications.rs`,
  `runs.rs` and `snapshots.rs` say what the output of `gh` means and which run
  lists are reused between polls; `task_laws.rs` and `run_laws.rs` state what
  holds of them together.
- What is believed without proof stands in `json.rs` (`serde_json`), `clock.rs`
  (`chrono`) and `text.rs` (`String::from_utf8_lossy`), each with what it claims.
- `app/` spawns the real `gh` and keeps the caches for the life of the process.
- `tests/` runs the library on fixtures.
