# httpmark

An HTTP/HTTPS benchmark tool: latency percentiles, rate control with ramp-up,
HTTP/2, JSON output.

- `src/` is the verified library (Verus):
  - `cli.rs`: the settings, their validation, the method to send, header
    parsing, the request body and headers;
  - `stats.rs`: the run statistics (totals, interval counts, stop flag,
    latency histogram) with a ghost history of outcomes that every counter
    is proved to follow, and the laws over it;
  - `calls.rs`: the calls made on the statistics as a sequence, the state
    they lead to, and the laws over any such sequence (the stop flag, the
    snapshots adding up);
  - `text.rs`: trimming, comparison and colon search on strings;
  - `http_method.rs`, `histogram.rs`: the trusted calls into `http` and
    `hdrhistogram`;
  - `worker.rs`, `units.rs`: the decisions of the worker loop and of the
    output units;
  - `header.rs`: the lines printed before a run and before a comparison.
- `app/` is the program around it: command line (clap), the HTTP client
  (hyper, rustls), the tokio runtime, and the console and JSON output, which
  work with floating-point rates and percentiles.
- `tests/` exercises the library on concrete values.
