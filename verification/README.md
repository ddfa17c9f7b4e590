# rolly

Lightweight observability for Rust: spans, logs and metrics as OTLP protobuf, written by hand and
proved with Verus.

- `src/` is the library. Every function in it is verified against its contract.
  - The protobuf wire format (`wire`, `proto`), the OTLP messages (`otlp_trace`, `otlp_log`,
    `otlp_metrics`), what can be read out of them again (`reading`) and how long they are (`sizes`).
  - Counters, gauges and histograms (`metrics`, with their model in `metrics_model`), attribute
    sets (`attrs`) and doubles by their bits (`double`).
  - What becomes of spans and events (`otlp_layer`), trace ids (`trace_id`, `hex`) and sampling
    (`sampling`).
  - What is posted to a collector and when: batches (`batch`, `payload`), the three exporters
    (`exporter`, `tokio_exporter`, `monoio_exporter`) and the rules for trying again (`retry`).
  - Configuration (`telemetry`), HTTP requests (`request`), and the report on a benchmark run
    (`baseline`, `text`).
  - The files whose names end in `_laws` state what holds over several calls; `runs` holds what the
    laws on the exporters share.
- `tests/` runs the library, with prost as a second opinion on the wire format.
- `app/` is ordinary Rust around the library: the tracing layer, the background tasks on tokio and
  monoio, HTTP, the tower middleware and the drawing tools. What it decides itself is which
  runtime to wait on at shutdown, and what takes floating point.

Doubles are handed to the library as the bits of `f64::to_bits`.

Calls into other crates (`blake3`, `uuid`, `rand`, `bytes`, `http`) stand behind small functions
whose contracts are taken on trust; each says above it what is claimed.
