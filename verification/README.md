# armature_testing

Testing utilities for web applications, written in Verus: the library's
behaviour is stated in `requires`/`ensures` contracts and proved.

## Layout

- `src/` — the verified library.
  - `assertions.rs` — assertions on test responses (status ranges, headers,
    body text, content types).
  - `test_client.rs` — recorded responses, `TestResponse` accessors, and the
    test request builder (query string in insertion order).
  - `test_app.rs` — which module of a module graph to wire on each visit,
    and the order a whole graph is wired in: each module once, imports and
    re-exports first, with a nesting cap.
  - `mock.rs` — mock services, mock controllers and spies that record calls.
  - `contract.rs` — consumer-driven contracts and their verification
    against actual responses.
  - `docker.rs` — container configuration, `docker` command lines, the
    steps of starting a container, and the readiness-wait decisions.
  - `integration.rs` — fixture runs (setup, test, teardown) and hooked
    runs (before hooks, body, after hooks) as state machines, and database
    seeders.
  - `load.rs` — load-test statistics (nearest-rank quantiles), per-worker
    request quotas and pacing, and stress-test levels.
  - `string_map.rs`, `json.rs`, `text.rs` — an insertion-ordered string map,
    JSON documents checked by `serde_json`, and text helpers.
- `app/` — the parts that touch the outside world: contract files on disk,
  the `docker` command line, async load and stress runs on Tokio, database
  fixtures driven through an async trait, serde conversions, mocks and spies
  whose clones share one call log, and displayable error types.
- `tests/` — tests of the library.
