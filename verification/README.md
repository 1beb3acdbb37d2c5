# heatpump_analysis

Thermal and hot-water analysis of a heat-pump installation, split into a verified core and
the plumbing around it.

- `src/` is the core, written in Verus. Every function carries a contract that Verus proves:
  - `time`: instants, RFC 3339 and PostgreSQL `timestamptz` text;
  - `text`: string helpers and integer parsing;
  - `flux`: InfluxDB annotated-CSV responses, read into rows of named cells;
  - `topics`, `dhw`: routing of MQTT topics and measurements to TimescaleDB tables, the SQL
    that reads them, and the tags of hot-water line-protocol records;
  - `influx`, `queries`, `history`, `charges`: the Flux scripts of the series, summary,
    threshold and hot-water-charge queries, and the values read back from their results;
  - `periods`, `diagnostics`, `operational`: periods recovered from state changes, cooldown
    periods from status codes, and operating-state segments;
  - `heating`: controller mode changes, preheat detection, waking hours and report windows;
  - `series`, `order`: canonical time series, last-known-value lookup and time ordering;
  - `samples`, `draws`: time-value samples read from query rows, and the hot-water charges
    and draws found on a ten-second grid;
  - `snapshot`, `digest`: the human sign-off, safe relative paths and SHA-256 checks of
    reproducibility snapshots;
  - `config`, `geometry`: configuration defaults and validation windows.
- `app/` holds what the core does not model: HTTP and PostgreSQL access, files, the
  environment, serde types for output, and the floating-point physics and summaries.
- `tests/` exercises the core on concrete values.

Calls into `chrono`, `csv` and `sha2` stand behind a few trusted wrappers whose contracts
say what those crates return; everything built on them is proved.
