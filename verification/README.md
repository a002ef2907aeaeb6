# inferrust_proxy

An inference gateway for OpenAI-compatible chat completion replicas, with its
decision logic verified in Verus.

- `src/` — the verified library:
  - `cache` — cache keys (framed request fields, SHA-256, hex) and cache entries;
  - `latency` — the window of the last 100 upstream latencies and the p95 hedging deadline;
  - `routing` — round-robin replica choice and the hedged-request race as a state machine;
  - `tokens` — prompt size estimation from tokenizer counts;
  - `ratelimit` — client identity, counter keys and the fail-open limiter state machine;
  - `handlers` — reply headers, what is cached and how it is served again, failures, health;
  - `config` — rate limit, proxy mode and replica list settings;
  - `text` — trimming, splitting and decimal parsing stated over characters.
- `app/` — the server: axum routes, the tower middleware, Redis, moka, reqwest and tokio
  work, performing what the library's state machines ask for.
- `tests/` — tests of the library on concrete values.
