# tokora

The input layer of a token parser, verified with Verus: a lexer over a byte source, a token
cache in front of it, checkpoints tracked by a live-checkpoint lineage, session points and
transactions for speculation, a recursion budget and an item budget, recovery scans, an
operator-precedence parser, a bounded preview sink, and a resumable parse session whose byte
budget bounds cumulative work across attempts.

## Layout

- `src/` — the library; every function is verified. `src/input.rs` holds the input, its
  mathematical model (`InputModel`) and the handle `InputRef`; the modules under `src/input/`
  add consuming and peeking, speculation, transactions, recursive descent, recovery scans and
  diagnostics. The public proof functions named `law_*` state the properties that relate
  several operations.
- `src/window.rs` — the one place the library calls the `generic-arraydeque` crate, behind
  trusted wrappers whose contracts restate that crate's documented behaviour.
- `tests/` — tests run against the compiled library.
- `app/` — host-side glue Verus does not see: a `thiserror` copy of the session refusal, the
  bridge from `Debug` formatting into the preview sink, and peeks into a type-sized window.
