# myfin

The core of a personal A-share screening and backtesting toolkit, written in Verus.

- `src/` is the library. Its logic is checked by Verus against contracts: dates and
  month arithmetic, symbol normalisation, the data-source registry and its fallback
  chains, dataset layout and storage queries, the sync and staging manifests, the
  sync routing decisions, month-end rebalancing and position allocation for the
  backtest, announcement visibility, the configuration's range rules, and the
  Markdown report builder with the screening and backtest reports. `src/laws.rs` holds the properties that span functions.
- `tests/` runs the library on concrete values.
- `app/` is the command-line program around it: file and network I/O, the DuckDB
  store, the HTTP adapters, and the floating-point screening and statistics.
