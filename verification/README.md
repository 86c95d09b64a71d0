# stock_exchange_rust

Two simulated stock exchanges, each with limit order books and a matching
engine, and a bot that trades the price differences between them. The core of
it is a Verus library whose behaviour is stated in contracts and proved.

## Layout

- `src/` — the verified library.
  - `domain/` — prices, orders and bracket orders, the order book with
    price-time priority matching, the market router, trades, users and
    portfolios with their pre-trade risk checks and settlement. Orders and
    users whose state several holders must see are kept by handle in a registry
    (`domain/registry.rs`): one record per order and per bracket, so that a fill,
    a cancel or a rename made through one handle is seen through every handle.
  - `hft/` — the arbitrage engine's decisions, its account, the order router
    to the exchanges and the board of latest ticks.
  - `sim/` — the integer parts of the order-flow simulator: limit prices,
    bracket exits, order sizes and counts.
  - `api/` — the engine switches with their automatic time-outs, and the order
    rate check.
  - `events/` — trade and volume events and their stream entries.
  - `text.rs`, `stats.rs` — decimal and Indian-grouped number text, medians.
  - `clock.rs`, `rng.rs`, `channel.rs` — the few calls into the clock, the
    random number generator and channels, each behind a small trusted wrapper.
- `tests/` — tests of the library on concrete values.
- `app/` — the program around it: the exchange threads, the web API and
  WebSocket feed, the SQLite store, the Redis stream publisher, the terminal
  dashboard, and the floating-point parts of the simulator.

Run the server with no argument, or the terminal dashboard with `tui`.
