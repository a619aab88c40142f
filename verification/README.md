# vibe_kanban

The decision logic of a kanban server for coding agents, as a library verified with Verus:
milestone plans (validation, normalization, preview, layout), task and attempt lifecycle,
archive and restore of milestones, idempotent requests, queued follow-up messages, log
history paging, file ranking and its statistics cache, approval matching, redaction of
secrets, path resolution inside workspace roots, and the `VK_NEXT:` turn markers.

- `src/` — the verified library. Public functions state their results in `ensures`, except
  where the result is a reading of the clock or of the machine (`now_*`, `Environment::new`):
  those hand the reading to a verified function with an exact contract (`to_unix_*`,
  `Environment::from_parts`). The `law_*` proof functions state properties that relate
  several calls. Calls into outside
  crates (clock, `os_info`, `sha2`, `shlex`, `mime_guess`) go through small trusted wrappers
  whose doc comments say what is claimed of them.
- `tests/` — tests of the library on concrete values.
- `app/` — ordinary Rust around the library: environment variables, process-wide caches,
  filesystem lookups, JSON decoding, and helpers for tests that change the environment.
