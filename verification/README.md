# metis

A basketball statistics library: seasons, leagues and stat coverage windows,
the migration plan of the statistics store, season rollups of box scores and
on/off splits of lineup stints. The library in `src/` is verified with Verus;
`app/` is the command-line program that runs it against a DuckDB store.

## Layout

- `src/season.rs`, `src/league.rs`, `src/coverage.rs` — seasons and their
  labels, per-league game structure, coverage windows of statistics.
- `src/migrations.rs` — which `.sql` migration files to apply, in what order;
  migrating twice is a no-op.
- `src/aggregate.rs` — grouped `SUM` / `COUNT(DISTINCT ..)` aggregation with SQL
  NULL rules.
- `src/rollup.rs`, `src/compute.rs` — player and team season totals, the
  season-rollup outcome and its errors.
- `src/on_off.rs` — on-court and off-court totals per player, team and season
  type; net-rating parts.
- `src/ids.rs`, `src/model.rs`, `src/text.rs` — composite ids, dimension rows,
  decimal rendering.
- `app/` — the store (DuckDB connection, SQL queries, repositories), the
  fractional parts of the statistics (minutes, per-game values, ratings), the
  serializable copies of the value types and the `metis-cli` program.
