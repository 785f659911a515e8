//! Verified core of a terminal watcher of Binance spot prices.
//!
//! - [`cli`]: the command line, read into a configuration or an error.
//! - [`api`]: the REST endpoints and the candles kept from a klines reply.
//! - [`state`]: the watched assets and their bounded price histories.
//! - [`indicators`]: the `--indicators` grammar, its defaults and description.
//! - [`display`]: screen texts, series colours and x-axis time formats.
//! - [`text`]: the character-level string operations the others rely on.
pub mod api;
pub mod cli;
pub mod display;
pub mod indicators;
pub mod state;
pub mod text;
