//! Binance REST endpoints and the selection of usable candles from a
//! klines reply.
use vstd::prelude::*;
use crate::text::{
    all_digits, decimal, lemma_decimal_canonical, lemma_decimal_parses_back, parse_unsigned,
    push_decimal, unsigned_body,
};

verus! {

/// Base of the spot ticker price endpoint; the symbol follows it.
pub open spec fn price_url_base() -> Seq<char> {
    "https://api.binance.com/api/v3/ticker/price?symbol="@
}

/// The ticker price URL for `symbol`.
pub open spec fn price_url(symbol: Seq<char>) -> Seq<char> {
    price_url_base() + symbol
}

/// The klines URL for `symbol`, candle `interval` and at most `limit` candles.
pub open spec fn klines_url(symbol: Seq<char>, interval: Seq<char>, limit: nat) -> Seq<char> {
    "https://api.binance.com/api/v3/klines?symbol="@ + symbol + "&interval="@ + interval
        + "&limit="@ + decimal(limit)
}

/// URL of the spot ticker price of `symbol`.
pub fn binance_price_url(symbol: &str) -> (url: String)
    ensures
        url@ == price_url(symbol@),
{
    let mut url = String::from_str("https://api.binance.com/api/v3/ticker/price?symbol=");
    url.append(symbol);
    url
}

/// URL of the last `limit` candles of `symbol` at the given candle interval.
pub fn binance_klines_url(symbol: &str, interval: &str, limit: usize) -> (url: String)
    ensures
        url@ == klines_url(symbol@, interval@, limit as nat),
{
    let mut url = String::from_str("https://api.binance.com/api/v3/klines?symbol=");
    url.append(symbol);
    url.append("&interval=");
    url.append(interval);
    url.append("&limit=");
    push_decimal(&mut url, limit as u64);
    url
}

/// Body of the ticker price endpoint: the price as the decimal text Binance sends.
pub struct PriceResponse {
    pub price: String,
}

/// What the watcher reads of one candle of a klines reply: how many fields it
/// has, its open time if field 0 is an integer, and its close price if field 4
/// is a string holding a number (`P` is whatever the caller parsed it into).
pub struct KlineRow<P> {
    pub field_count: usize,
    pub open_time: Option<i64>,
    pub close: Option<P>,
}

/// The (open time, close) point of a candle, or `None` when the candle is
/// skipped: fewer than five fields, or an unreadable open time or close.
pub open spec fn kline_point<P>(row: KlineRow<P>) -> Option<(i64, P)> {
    if row.field_count < 5 {
        None
    } else {
        match (row.open_time, row.close) {
            (Some(t), Some(c)) => Some((t, c)),
            _ => None,
        }
    }
}

/// The points of the usable candles, in the order of the reply.
pub open spec fn kline_points<P>(rows: Seq<KlineRow<P>>) -> Seq<(i64, P)>
    decreases rows.len(),
{
    if rows.len() == 0 {
        Seq::empty()
    } else {
        let init = kline_points(rows.drop_last());
        match kline_point(rows.last()) {
            Some(p) => init.push(p),
            None => init,
        }
    }
}

/// Keeps the candles that carry an open time and a close price, in order.
pub fn select_klines<P: Copy>(rows: &[KlineRow<P>]) -> (points: Vec<(i64, P)>)
    ensures
        points@ == kline_points(rows@),
{
    let mut points: Vec<(i64, P)> = Vec::new();
    let mut i: usize = 0;
    while i < rows.len()
        invariant
            i <= rows@.len(),
            points@ == kline_points(rows@.take(i as int)),
        decreases rows@.len() - i,
    {
        assert(rows@.take(i + 1).drop_last() =~= rows@.take(i as int));
        let row = &rows[i];
        if row.field_count >= 5 {
            match (row.open_time, row.close) {
                (Some(t), Some(c)) => {
                    points.push((t, c));
                },
                _ => {},
            }
        }
        i = i + 1;
    }
    assert(rows@.take(rows@.len() as int) =~= rows@);
    points
}

} // verus!

verus! {

/// Whether a candle can be preloaded: at least five fields, a readable open
/// time and a readable close.
pub open spec fn usable_row<P>(row: KlineRow<P>) -> bool {
    row.field_count >= 5 && row.open_time is Some && row.close is Some
}

/// Every usable candle, and only those, gives its (open time, close) point,
/// in the order of the reply; nothing about the values themselves matters.
pub proof fn lemma_klines_keep_every_usable_candle<P>(rows: Seq<KlineRow<P>>)
    ensures
        kline_points(rows) == rows.filter(|r: KlineRow<P>| usable_row(r)).map_values(
            |r: KlineRow<P>| (r.open_time->0, r.close->0),
        ),
        kline_points(rows).len() == rows.filter(|r: KlineRow<P>| usable_row(r)).len(),
    decreases rows.len(),
{
    reveal(Seq::filter);
    let pred = |r: KlineRow<P>| usable_row(r);
    let f = |r: KlineRow<P>| (r.open_time->0, r.close->0);
    if rows.len() > 0 {
        lemma_klines_keep_every_usable_candle(rows.drop_last());
        let sub = rows.drop_last().filter(pred);
        if pred(rows.last()) {
            assert(sub.push(rows.last()).map_values(f) =~= sub.map_values(f).push(f(rows.last())));
        }
    } else {
        assert(rows.filter(pred) =~= Seq::<KlineRow<P>>::empty());
        assert(rows.filter(pred).map_values(f) =~= Seq::<(i64, P)>::empty());
    }
}

/// The klines URL asks for exactly `limit` candles: after `&limit=` it holds a
/// canonical run of decimal digits (no sign, no leading zero) that reads back
/// as `limit`.
pub proof fn lemma_klines_url_limit(symbol: Seq<char>, interval: Seq<char>, limit: usize)
    ensures
        exists|d: Seq<char>|
            {
                &&& klines_url(symbol, interval, limit as nat) == "https://api.binance.com/api/v3/klines?symbol="@
                    + symbol + "&interval="@ + interval + "&limit="@ + d
                &&& all_digits(d)
                &&& d.len() > 0
                &&& (d.len() == 1 || d[0] != '0')
                &&& parse_unsigned(d, usize::MAX as nat) == Some(limit as nat)
            },
{
    let d = decimal(limit as nat);
    lemma_decimal_parses_back(limit as nat, usize::MAX as nat);
    lemma_decimal_canonical(limit as nat);
    assert(unsigned_body(d) == d);
}

} // verus!

verus! {

/// The ticker URL is the Binance ticker price endpoint with the symbol as its
/// one query value, placed last.
pub proof fn lemma_price_url_shape(symbol: Seq<char>)
    ensures
        price_url(symbol) == "https://api.binance.com/api/v3/ticker/price?symbol="@ + symbol,
        price_url(symbol).skip(price_url(symbol).len() - symbol.len()) == symbol,
{
    let u = price_url(symbol);
    assert(u.skip(u.len() - symbol.len()) =~= symbol);
}

} // verus!
