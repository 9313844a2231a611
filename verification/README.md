# bench

An HTTP/REST benchmarking tool: run requests against a URL or a scenario
file with a number of concurrent workers, then report throughput, latency
percentiles, status and error distributions and a per-second timeline as
JSON, a self-contained HTML page or a PDF.

## Layout

- `src/` — the verified library (Verus):
  - `text.rs` — decimal rendering, thousands grouping, trimming, byte-bounded truncation;
  - `config.rs` — scenario tree, run parameters and their merging, scenario file model, report formats;
  - `cli.rs` — resolution of the `run` arguments (and a loaded scenario file) into a run configuration;
  - `stats.rs` — per-request outcomes and their exact statistics, the latency histogram and chart;
  - `runner.rs` — how iterations are shared between workers, the outcome log per leaf request;
  - `report.rs` — report totals, bar charts, export format, the HTML report page;
  - `editor.rs` — replies of the scenario editor's HTTP API and of the UI file server.
- `tests/` — tests of the library on concrete values.
- `app/` — the `bench` command: argument parsing, HTTP client and workers,
  web servers, file I/O, and the floating-point parts of the report (rates,
  means, percentiles, PDF layout).

The web UI is served from the directory named by `BENCH_UI_DIR`
(default `ui/dist`).
