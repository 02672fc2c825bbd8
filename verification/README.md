# perp_engine

A perpetual-futures trading engine whose logic is verified with Verus.

- `src/decimal.rs`, `src/decimal_order.rs`: `Dec`, a decimal held as a
  mantissa and a scale, with the arithmetic and comparisons of
  `rust_decimal` behind stated contracts.
- `src/engine/`: positions, trades, the engine (open, reprice, liquidate,
  fund, close, equity), the per-user engine, the pricing and settlement
  rules, and the laws that span the operations (`laws.rs`).
- `src/api/`, `src/auth/`, `src/market/`: the decisions behind the HTTP
  handlers, the token gate of the middleware, and the price feed's
  reconnection policy and message parsing.
- `src/runtime.rs`: position ids and the clock.
- `app/`: the HTTP server, the websocket price feed, the JSON forms of the
  library's types, and the two early floating-point engines.
- `tests/`: the engine's scenarios and one test per law.
