# orderbook-feed

A client for the public order-book feeds of Binance, Coinbase and Kraken. It
keeps one in-memory order book per symbol from snapshots and deltas, notices
gaps and diverged books, reconnects with backoff, and prints the top of the book
with throughput and latency figures.

The logic is a library (`src/`) that Verus verifies; the program around it
(`app/`) owns the sockets, the clock, JSON decoding and the command line.

| Module | What it holds |
|--------|---------------|
| `decimal` | exact decimals, on top of `rust_decimal` |
| `orderbook` | `OrderBook`: snapshots, deltas, gap detection, truncation |
| `checksum` | CRC32 (IEEE) |
| `exchanges` | the adapters `binance`, `coinbase`, `kraken`, and `timestamp` |
| `feed` | the `Exchange` trait, and what an event does to books and metrics |
| `session` | what to do about each arrival on the socket; replay of buffered deltas |
| `metrics` | throughput and latency accounting, and the printed report |
| `backoff` | delays between attempts to connect |
| `error`, `json`, `symbols`, `text` | errors, JSON strings, symbol tables, text |

What is promised of the library as a whole stands next to the code as public
proof functions whose names begin with `law_`. Calls into `rust_decimal`,
`serde_json` and the parts of `std` without a specification are trusted; each is
a small function or specification whose doc comment names the callee.

```sh
# Binance BTCUSDT (default), print top 5 levels each tick
orderbook-feed

# Kraken BTC/USD (checksum-validated depth-10 book)
orderbook-feed --exchange kraken --symbol BTC/USD

# Ethereum on Binance, top of book only
orderbook-feed --exchange binance --symbol ETHUSDT --depth 1
```
