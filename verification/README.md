# deadrouter

A router for chat completions that keeps conversations private. It accepts requests in the
common chat completions format, chooses among providers that run their models in attested
hardware, speaks to each of them in its own way, and hands the answer back cleaned, padded
and, where the client asked for it, encrypted end to end.

The decisions, formats and rules stand in `src/` and are verified with Verus: each public
function says in its contract what it returns, and the `law_*` proof functions state what
holds of several functions together. What the network and the clock deliver comes in as
arguments. Random numbers are drawn inside; beside each function that draws one stands
another that takes what was drawn.

## Layout

- `src/`: the verified library.
  - Requests: `admission`, `chat`, `selection`, `failover`, `health`, `router`, `query`, `keys`.
  - Encryption and attestation: `primitives` (the outside cryptography, with the contracts
    that are relied on), `crypto_e2ee`, `chutes_e2ee`, `nearai_e2ee`, `nearai_tls`,
    `attestation`.
  - Providers: `providers`, `nearai`, `nearai_models`, `nearai_stream`, `chutes`,
    `chutes_call`, `chutes_flow`, `redpill`, `infomaniak`, `tinfoil`, `tinfoil_relay`.
  - Answers: `response`, `response_laws`, `timing`, `redaction`, `redaction_laws`,
    `redaction_roundtrip`, `http`.
  - Names and connections: `dns`, `connections`, `dos`, `cuckoofilter`.
  - Models and pages: `catalog`, `models`, `models_list`, `models_page`, `providers_page`,
    `landing_page`, `ranking`, `currency`, `i18n`, `time`.
  - Groundwork: `json`, `table`, `text`, `bytes`, `order`, `state`.
- `tests/`: tests of the library on concrete values.
- `app/`: the server around the library: sockets, TLS, outgoing requests, serialisation,
  and prices, which are floating-point numbers.
