# crypto_watcher

A terminal watcher of Binance spot prices, split in two:

- `src/` is a Verus library holding the program's logic with proved
  contracts: command-line reading (`cli`), endpoint URLs and candle selection
  (`api`), the watched assets and their bounded histories (`state`), the
  indicator grammar and its description (`indicators`), screen texts
  (`display`), and the string operations beneath them (`text`).
- `app/` is the program around it: network requests, the clock, floating-point
  indicator arithmetic and the ratatui screen.

The library holds no floating-point numbers. Chart points and time stamps are
generic parameters of the asset type, and a Bollinger multiplier travels as the
bit pattern of its `f64` together with its one-decimal label, read by the
program from the texts that `IndicatorConfig::multiplier_texts` lists.
