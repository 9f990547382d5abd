# bobby

The decision-making core of Bobby, a pipeline that finds landmark selfies on
Bluesky, prunes and scores them, and publishes the best as feeds — written in
Verus. Every function of the library is proved against its contract, except
the few small trusted wrappers around outside calls (`String::push`,
`chrono::TimeDelta::seconds`, `md5::compute`, and the `qrcode` SVG renderer),
whose contracts are believed.

## Layout

- `src/` — the verified library.
  - `text`, `keyed` — character-level string helpers and text-keyed
    association lists, with their specifications.
  - `limit`, `order`, `spec`, `published_list`, `catalog` — list windows,
    orders and names (`v3-quality-48h`), parsing and rendering, with
    round-trip laws.
  - `published`, `publisher`, `ranking`, `statistics`, `store_commands` — what a
    publish cycle computes: presentation order and window, existence
    enrichment, statistics, and the store commands that replace a list
    atomically (with a model of the store proving what a later read returns).
  - `fallback`, `source`, `retry` — reading: the fallback chain over older
    lists, the feed skeleton and the live images, and the retry budget for
    transient read failures.
  - `preview` — the montage's tile selection, signature and shelf layout.
  - `qr` — the site's QR code.
  - `prune` — the pruning pipeline's tallies, metadata-stage messages,
    resume cursor, summary cadence, telemetry deltas and statistics records.
  - `refine` — refinement batches, their watermark, per-tick tallies and
    telemetry deltas.
  - `metrics` — turning cumulative totals into counter increments.
- `tests/` — tests of the library's behaviour on concrete values.
- `app/` — the shell: store and network I/O, async plumbing, telemetry
  instruments, image pixels and floating-point maths.
