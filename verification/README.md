# claude_meter

A local collector for coding-assistant telemetry. It receives OTLP
metrics over HTTP/protobuf, stores them in SQLite and prints usage
reports (tokens, cost, sessions, lines, active time).

## Layout

- `src/` — the library, verified with Verus:
  - `text.rs`: decimal rendering of integers, Unicode whitespace trimming,
    repetition and padding helpers.
  - `duration.rs`: retention durations (`30d`, `6m`, `1y`), the purge
    confirmation, time windows.
  - `report.rs`: thousands separators, durations as `1h 2m 3s`, shortened
    session ids, the summary block and the three report tables.
  - `table.rs`: the tables are drawn by `comfy_table`; its calls are
    trusted items with contracts over the table's style, header and rows.
  - `otlp.rs`: the metrics export as plain values, attribute lookup, the
    extra attributes and the entries of their JSON object, series keys of
    cumulative sums, the rows an export yields, which delta points are
    kept, the accepted content types.
  - `otel.rs`: decoding a request body with `prost` into the
    `opentelemetry_proto` message, reading it as plain values, and
    `ingest`, which answers a request: refused media type, undecodable
    body, or the rows it yields.
- `app/` — the program: command line, HTTP server, SQLite queries, and the
  floating-point parts (data point values, the cumulative-to-delta
  tracker, costs, JSON text with doubles).
- `tests/` — tests of the library on concrete values.
