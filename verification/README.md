# clickhousex

A ClickHouse HTTP adapter (default port 8123) whose core is verified with Verus.

## Layout

- `src/` — the verified library. Verus checks every function in it; the public ones, and
  most private helpers, carry `requires` / `ensures` contracts over mathematical models
  (`Seq`, `Map`, `int`, views of the data types). The few calls into std and the outside
  crates sit behind small trusted wrappers whose contracts say what that code does.
  Times are whole milliseconds (`u64`): `timeout`, `connect_timeout`, `acquire_timeout`
  and the retry delays; `app/` turns them into `Duration`s.
  - `config.rs`, `env.rs`, `toml_text.rs`, `render.rs` — configuration: defaults,
    builder, environment snapshot, TOML text, validation, redacted rendering.
  - `sql.rs`, `insert.rs`, `rows.rs` — query URLs, identifier and parameter checks,
    insert planning (row and byte chunking), `TabSeparated` parsing.
  - `response.rs`, `error.rs`, `tls.rs` — failure classification (HTTP status and
    ClickHouse error code, transport failures), bounded error capture, and the TLS
    material: which PEM files are read, and the client identity and CA certificate
    that `reqwest` parses from their bytes.
  - `retry.rs`, `pool.rs`, `types.rs` — retry policy with jittered exponential backoff,
    the retry decisions, and the permit / counter bookkeeping of a pool or client.
  - `text.rs` — character-level helpers (trimming, splitting, decimal numbers).
- `app/` — the runtime around the library: `reqwest` for HTTP, `tokio` for permits and
  timers, the process environment and files, and copies of the types that need
  `serde` or `thiserror` derives.
- `tests/` — tests of the library on concrete values.

Laws that span several functions (for instance that a batch insert sends every row
exactly once and in order, or that the rendering of a configuration does not depend on
its password) are public proof functions next to the functions they speak of.

Reads (`query`, `query_text`, `query_with_params`, `ping`) are retried on transient
failures under the configured `RetryConfig`; writes are never retried. The retry budget
is a verified property of `RetryRun` (each `after_failure` either stops or grants one
more attempt, never past `max_retries + 1` attempts in all) and of the spec model
`calls_made`, and `lemma_run_follows_budget` shows that a read following `RetryRun`
makes exactly the calls of that model; the loop in `app/` that awaits the calls and sleeps between them follows
`RetryRun`'s decisions and is not itself verified.

TOML configuration is read in `src/` (`toml_text.rs`); the plain-HTTP allowlist is
passed to `from_toml` by the caller rather than read from the environment there.
