# aubapr

An auto-batching proxy for text-embedding inference: requests of independent
clients are collected into batches, each batch is sent to the upstream
inference service in one call, and every client gets back the embeddings of
its own texts.

## Layout

- `src/` — the verified library (Verus):
  - `config.rs`: configuration, its defaults, reading numbers from
    environment values, validation;
  - `tray.rs`: the tray where requests wait; it decides when a batch leaves
    (size reached, or the timer of the current batch fired) and when the timer
    must be armed;
  - `active_vector.rs`: a queue that hands out batches of whole requests;
  - `batcher.rs`: turning requests into batch items, and handing the upstream
    reply (embeddings or error) back to each request;
  - `reply.rs`: the HTTP answer of the embedding endpoint;
  - `types.rs`: batch items and errors.
- `app/` — the service around it: HTTP server (axum), upstream client
  (reqwest), timer and event loop (tokio), and the candle-based transformer
  experiments, which are floating-point tensor code.
- `tests/` — tests of the library.
