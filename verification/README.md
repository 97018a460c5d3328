# EasyLog

A multi-log analyzer with a dedicated dashboard for every log type: it ingests
logs over syslog, stores the parsed events in DuckDB, and serves a live dashboard
per log type.

- `src/` is the verified core, in Verus: routing of received messages, the
  writer's batches and transactions, the UDP receive buffer, and the figures of
  the Apache dashboard.
- `app/` is the service around it: sockets, tasks, the database and the web
  handler.
- `tests/` runs the core with its outside crates linked.

Figures are computed in integer arithmetic. `src/double.rs` states binary64
rounding and proves that the code follows it; that the text is the one floating
point gives is sampled in `tests/figures.rs`, not proved.
