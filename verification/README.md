# lamport-sdk

A toolkit for Solana token launchpads, written in Verus.

- `src/` is the verified library: the public-key text check, configuration
  (with a verified reader of unsigned decimal numbers), the SDK error type,
  request counters, connection-pool limits, a time-to-live cache driven by a
  caller-supplied clock, the backoff schedule of the retry helpers, the
  health-check report, exact display of sub-SOL amounts, and a builder of
  unsigned transactions over `solana-sdk` types.
- `app/` holds what touches the outside world: environment variables, the
  RPC client, async retry loops and sleeps, the HTTP handler, the clock behind
  the shared cache, floating-point amounts and the serde/clap/thiserror faces
  of the library's types.
- `tests/` exercises the library on concrete values.
