use crypto_watcher::api::{binance_klines_url, binance_price_url, select_klines, KlineRow, PriceResponse};
use crypto_watcher::display::{
    chart_title, header_line, loading_message, series_color, x_axis_time_format, SeriesColor,
};

#[test]
fn price_url() {
    assert_eq!(
        binance_price_url("BTCUSDT"),
        "https://api.binance.com/api/v3/ticker/price?symbol=BTCUSDT"
    );
}

#[test]
fn klines_url() {
    assert_eq!(
        binance_klines_url("ETHUSDT", "5m", 300),
        "https://api.binance.com/api/v3/klines?symbol=ETHUSDT&interval=5m&limit=300"
    );
    assert_eq!(
        binance_klines_url("X", "1s", 0),
        "https://api.binance.com/api/v3/klines?symbol=X&interval=1s&limit=0"
    );
}

#[test]
fn price_response_holds_text() {
    let r = PriceResponse { price: "1.5".to_string() };
    assert_eq!(r.price, "1.5");
}

#[test]
fn klines_skip_unusable_candles() {
    let rows = vec![
        KlineRow { field_count: 12, open_time: Some(1000), close: Some(1.5f64) },
        KlineRow { field_count: 4, open_time: Some(2000), close: Some(2.5) },
        KlineRow { field_count: 12, open_time: None, close: Some(3.5) },
        KlineRow { field_count: 5, open_time: Some(4000), close: None },
        KlineRow { field_count: 5, open_time: Some(5000), close: Some(5.5) },
    ];
    assert_eq!(select_klines(&rows), vec![(1000, 1.5), (5000, 5.5)]);
}

#[test]
fn time_formats() {
    assert_eq!(x_axis_time_format(60, 1440), "%d %b %Y");
    assert_eq!(x_axis_time_format(59, 1416), "%d %b %H:%M");
    assert_eq!(x_axis_time_format(2, 48), "%d %b %H:%M");
    assert_eq!(x_axis_time_format(1, 47), "%H:%M");
    assert_eq!(x_axis_time_format(0, 2), "%H:%M");
    assert_eq!(x_axis_time_format(0, 1), "%H:%M:%S");
}

#[test]
fn colours_cycle() {
    assert_eq!(series_color(0), SeriesColor::Cyan);
    assert_eq!(series_color(5), SeriesColor::Blue);
    assert_eq!(series_color(7), SeriesColor::Yellow);
    assert_eq!(series_color(9), SeriesColor::Green);
}

#[test]
fn screen_texts() {
    assert_eq!(
        header_line("1m", 240, 3),
        " Crypto Watcher  |  Interval: 1m  |  Lookback: 240 candles  |  Assets: 3 "
    );
    assert_eq!(chart_title("BTC", "65000.10", 42), " BTC $65000.10 | 42 pts ");
    assert_eq!(
        loading_message("BTCUSDT", 1, 3, "5m", 300),
        "Preparing charts...\nAsset: BTCUSDT\nProgress: 1/3\nInterval: 5m | Lookback: 300 candles"
    );
}
