//! Texts and choices of the terminal screens that do not depend on floating
//! point: titles, the loading message, series colours and the time format of
//! the x axis.
use vstd::prelude::*;
use crate::text::{decimal, push_decimal};

verus! {

/// `strftime`-style format of the x-axis labels for a chart spanning
/// `num_days` whole days, or `num_hours` whole hours.
pub fn x_axis_time_format(num_days: i64, num_hours: i64) -> (f: &'static str)
    ensures
        f@ == if num_days >= 60 {
            "%d %b %Y"@
        } else if num_days >= 2 {
            "%d %b %H:%M"@
        } else if num_hours >= 2 {
            "%H:%M"@
        } else {
            "%H:%M:%S"@
        },
{
    if num_days >= 60 {
        "%d %b %Y"
    } else if num_days >= 2 {
        "%d %b %H:%M"
    } else if num_hours >= 2 {
        "%H:%M"
    } else {
        "%H:%M:%S"
    }
}

/// Colour of the price line of the `index`-th chart.
#[derive(Clone, Copy, Debug, PartialEq, Eq)]
pub enum SeriesColor {
    Cyan,
    Yellow,
    Magenta,
    Green,
    Red,
    Blue,
}

/// The colours cycle through cyan, yellow, magenta, green, red and blue.
pub open spec fn series_color_spec(index: nat) -> SeriesColor {
    let k = index % 6;
    if k == 0 {
        SeriesColor::Cyan
    } else if k == 1 {
        SeriesColor::Yellow
    } else if k == 2 {
        SeriesColor::Magenta
    } else if k == 3 {
        SeriesColor::Green
    } else if k == 4 {
        SeriesColor::Red
    } else {
        SeriesColor::Blue
    }
}

/// Colour of the price line of the `index`-th chart.
pub fn series_color(index: usize) -> (c: SeriesColor)
    ensures
        c == series_color_spec(index as nat),
{
    match index % 6 {
        0 => SeriesColor::Cyan,
        1 => SeriesColor::Yellow,
        2 => SeriesColor::Magenta,
        3 => SeriesColor::Green,
        4 => SeriesColor::Red,
        _ => SeriesColor::Blue,
    }
}

/// Header of the main screen.
pub open spec fn header_text(interval: Seq<char>, lookback: nat, assets: nat) -> Seq<char> {
    " Crypto Watcher  |  Interval: "@ + interval + "  |  Lookback: "@ + decimal(lookback)
        + " candles  |  Assets: "@ + decimal(assets) + " "@
}

/// Header of the main screen: interval, look-back and number of assets.
pub fn header_line(interval: &str, lookback_points: usize, asset_count: usize) -> (s: String)
    ensures
        s@ == header_text(interval@, lookback_points as nat, asset_count as nat),
{
    let mut s = String::from_str(" Crypto Watcher  |  Interval: ");
    s.append(interval);
    s.append("  |  Lookback: ");
    push_decimal(&mut s, lookback_points as u64);
    s.append(" candles  |  Assets: ");
    push_decimal(&mut s, asset_count as u64);
    s.append(" ");
    s
}

/// Title of an asset's chart.
pub open spec fn chart_title_text(name: Seq<char>, price: Seq<char>, points: nat) -> Seq<char> {
    " "@ + name + " $"@ + price + " | "@ + decimal(points) + " pts "@
}

/// Title of an asset's chart: name, last price and number of points.
pub fn chart_title(name: &str, price: &str, points: usize) -> (s: String)
    ensures
        s@ == chart_title_text(name@, price@, points as nat),
{
    let mut s = String::from_str(" ");
    s.append(name);
    s.append(" $");
    s.append(price);
    s.append(" | ");
    push_decimal(&mut s, points as u64);
    s.append(" pts ");
    s
}

/// Body of the loading screen.
pub open spec fn loading_text(
    symbol: Seq<char>,
    loaded: nat,
    total: nat,
    interval: Seq<char>,
    lookback: nat,
) -> Seq<char> {
    "Preparing charts...\nAsset: "@ + symbol + "\nProgress: "@ + decimal(loaded) + "/"@ + decimal(
        total,
    ) + "\nInterval: "@ + interval + " | Lookback: "@ + decimal(lookback) + " candles"@
}

/// Body of the loading screen while history is preloaded.
pub fn loading_message(
    symbol: &str,
    loaded: usize,
    total: usize,
    interval: &str,
    lookback: usize,
) -> (s: String)
    ensures
        s@ == loading_text(symbol@, loaded as nat, total as nat, interval@, lookback as nat),
{
    let mut s = String::from_str("Preparing charts...\nAsset: ");
    s.append(symbol);
    s.append("\nProgress: ");
    push_decimal(&mut s, loaded as u64);
    s.append("/");
    push_decimal(&mut s, total as u64);
    s.append("\nInterval: ");
    s.append(interval);
    s.append(" | Lookback: ");
    push_decimal(&mut s, lookback as u64);
    s.append(" candles");
    s
}

} // verus!
