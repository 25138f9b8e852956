# coinflip

A trading bot for Gemini's prediction markets. It subscribes to the order
books of the markets that show up on the exchange's websocket, keeps each
book from snapshots and differential updates, turns every valid update into
an observation for the statistics engine, and keeps a graph of how alike the
markets are.

## Layout

- `src/` is the library, verified with Verus. The bot's logic stands there
  as functions with contracts:
  - `data_structures/`: a string-keyed index, a dense store of values found
    by key, a matrix of rows by key, and a one-value cache;
  - `gemini/`: the exchange's messages and responses, the order book, the
    message classifier and router, and the state of the metadata store and
    the subscription manager;
  - `bookkeeper.rs`: one book per market, with gap detection and recovery;
  - `session.rs`: request priorities, the request queue and the decisions of
    a websocket session;
  - `stats/`: observations, time buckets, the statistics engine and the
    correlation graph of markets;
  - `ws.rs`: splitting a JSON array into its objects, and what the
    websocket reader does on each frame;
  - `utils/`: text helpers and compiled regex patterns, which also read
    contract tickers (`gemini/ticker.rs`).
- `app/` is the program around it: the async runtime, the websocket and
  HTTP clients, the serde shapes of the exchange's JSON, the loops that
  feed events to the library and carry out what it decides (the websocket
  reader among them), and the floating-point embedding code.
- `tests/` runs the library on concrete values.
