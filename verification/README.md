# appscale_core

The core of the AppScale engine, a cross-platform UI engine driven by a React
reconciler, written as a Verus library: every function in `src/` carries a
contract that Verus proves, and the laws that hold across calls are stated
as public proof functions next to the code they speak of.

## Layout

- `src/` — the verified library.
  - `tree.rs`, `tree/walk.rs` — the shadow tree and walks down it.
  - `navigation.rs`, `accessibility.rs`, `events.rs`, `scheduler.rs` —
    navigation stacks, focus order, event propagation, the frame work queue.
  - `plugins.rs`, `modules.rs`, `bridge.rs` — plugins, native modules and the
    calls that JavaScript makes into the engine.
  - `storage.rs`, `storage/table.rs` — namespaced key-value, secure and file
    storage.
  - `cloud.rs`, `cloud/version.rs` — build pipelines, bundle versions and OTA
    decisions.
  - `ai.rs`, `ai/` — checks on generated IR batches, layout hints, training
    snapshots and session statistics.
  - `devtools.rs` — the profiler's frame window and the IR recorder.
  - `views.rs`, `views/children.rs` — the in-memory native view registry.
  - `components.rs`, `platform.rs` — the component catalogue and the shared
    platform vocabulary.
  - `cli.rs`, `cli/templates.rs` — the command-line tool's rules, and every
    file it writes.
  - `text.rs` — character-level helpers.
- `tests/` — tests run against the compiled library.
- `app/` — the parts that do input and output or compute in floating point:
  the `appscale` command, layout through Taffy, platform bridges, the FFI
  surface, and JSON encoding.
