# BTC Futures Sniper

A short-term trading assistant for Binance USDⓈ-M perpetual futures built on
the order-book imbalance (OBI):

```
OBI = (bids_volume - asks_volume) / (bids_volume + asks_volume)
```

A long is signalled at OBI >= 0.40 and a short at OBI <= -0.30; positions are
protected by a fixed stop loss (2%), a fixed take profit (1%), a trailing stop
(0.5%, once in profit) and a holding limit (5 minutes).  The trading loops
hand the signal rule a price difference of OBI x 100 with a threshold of 30
by default, so the entry depends on the two OBI thresholds alone.  A dry-run mode trades
against the live order book without sending orders.

## Layout

- `src/` is the verified library (Verus).  Its functions carry contracts
  and are proved against them; the few calls into outside code (HMAC-SHA256,
  hex encoding, ASCII case mapping) are believed as their documentation
  states them, and are marked as such:
  - `decimal`: fixed-point numbers; reading decimal text and writing it back.
  - `binance_ws`: the local order book kept from the REST snapshot and the
    depth stream, and the public book with its sanity checks.
  - `signal`, `risk`: signals, exit conditions, stop prices, position size.
  - `dry_run`, `trader`: the decisions of the simulated and the live loop.
  - `binance_rest`, `telegram`: the requests to Binance (signed with
    HMAC-SHA256) and to Telegram, the replies read, the notification texts.
  - `report`: trade statistics and the report texts.
- `app/` is the program around it: command line, configuration file,
  WebSocket and HTTP traffic (the HTTP client is built there), SQLite,
  logging, the clock and the timed loops.
- `tests/` runs the library on concrete values.

## Numbers

The library holds no floating-point values.  Prices, quantities and account
amounts are integers in units of 10^-8 (`decimal::UNITS`), ratios such as
percentages and the OBI are in parts per million (`decimal::PPM`; an
imbalance under one ppm keeps its sign), and the signal time window is in
milliseconds.  Decimal text may carry an exponent (`1e-3`).  The configuration file and the
database keep decimals; `app/` converts at the edge.  Divisions round down
(toward zero where a sign is kept, as stated in each contract) and decimal
output rounds to the nearest, an exact half to the even digit.

## Running

```
btc_futures_sniper             # start (config.toml, or the built-in defaults)
btc_futures_sniper report      # statistics of data/trades.db
btc_futures_sniper trades [N]  # the latest N trades (10 by default)
btc_futures_sniper help
```
