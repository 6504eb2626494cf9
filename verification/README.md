# zeek_websocket

Types and client-side protocol of Zeek's WebSocket API, verified with Verus.

- `src/` is the library. Its functions state what they do in contracts, and what holds of several functions
  together stands beside them as a public proof function. What other crates compute (JSON text,
  dates, addresses, URIs) comes in through a few declarations whose contracts are stated there.
- `tests/` runs the library.
- `app/` is what surrounds the library: a tokio event loop, a mock server, C and Python interfaces,
  and a derive macro.

| module | content |
| --- | --- |
| `order`, `sorted` | an order on trees of integers; sequences that are kept sorted by it |
| `text` | characters, decimal numbers, UTF-8 |
| `port`, `scalar`, `net` | ports, real numbers, spans of time, points in time, addresses |
| `value`, `convert` | the values of the API, and conversions to and from plain Rust values |
| `json`, `wire` | JSON trees, and values in JSON |
| `scan`, `read`, `prune` | JSON text: where its parts stand, messages and values in it, and what of it is read |
| `message`, `frame`, `subscriptions` | messages, and the WebSocket messages that carry them |
| `protocol`, `client`, `mock` | the protocol without I/O, a client session, a mock server session |
| `record`, `derive` | Zeek records, and source text of their conversions |
| `c_api`, `python`, `python_value`, `python_laws` | what the C and Python interfaces do |
