use crypto_watcher::state::{App, Asset, MAX_DATA_POINTS};

type TestAsset = Asset<(f64, f64), u64>;

#[test]
fn new_asset_strips_quote() {
    let a: TestAsset = Asset::new("BTCUSDT");
    assert_eq!(a.name, "BTC");
    assert_eq!(a.price, "0.00");
    assert!(a.history.is_empty());
    assert!(a.timestamps.is_empty());
    assert_eq!(a.symbol(), "BTCUSDT");
    let b: TestAsset = Asset::new("USDTXUSDT");
    assert_eq!(b.name, "X");
}

#[test]
fn symbol_round_trips_for_plain_bases() {
    for s in ["BTCUSDT", "ETHUSDT", "SOLUSDT", "USDUSDT"] {
        let a: TestAsset = Asset::new(s);
        assert_eq!(a.symbol(), s);
        assert!(a.has_symbol(s));
    }
    let a: TestAsset = Asset::new("USDTUSDT");
    assert_eq!(a.symbol(), "USDT");
    assert!(!a.has_symbol("USDTUSDT"));
}

#[test]
fn history_keeps_latest_points() {
    let mut a: TestAsset = Asset::new("BTCUSDT");
    for i in 0..(MAX_DATA_POINTS as u64 + 5) {
        a.push_point((i as f64, 1.0), i);
        assert!(a.history.len() <= MAX_DATA_POINTS);
        assert_eq!(a.history.len(), a.timestamps.len());
    }
    assert_eq!(a.history.len(), MAX_DATA_POINTS);
    assert_eq!(a.timestamps.front(), Some(&5));
    assert_eq!(a.timestamps.back(), Some(&(MAX_DATA_POINTS as u64 + 4)));
    assert_eq!(a.history.front(), Some(&(5.0, 1.0)));
}

#[test]
fn update_records_price_and_sample() {
    let mut a: TestAsset = Asset::new("ETHUSDT");
    a.update("3000.5".to_string(), Some(((1.0, 3000.5), 7)));
    assert_eq!(a.price, "3000.5");
    assert_eq!(a.history.len(), 1);
    a.update("oops".to_string(), None);
    assert_eq!(a.price, "oops");
    assert_eq!(a.history.len(), 1);
    assert_eq!(a.timestamps.back(), Some(&7));
}

#[test]
fn find_asset_routes_symbols() {
    let app: App<(f64, f64), u64> = App {
        assets: vec![Asset::new("SOLUSDT"), Asset::new("BTCUSDT"), Asset::new("BTCUSDT")],
        interval: "1m".to_string(),
        lookback_points: 240,
    };
    assert_eq!(app.find_asset("BTCUSDT"), Some(1));
    assert_eq!(app.find_asset("SOLUSDT"), Some(0));
    assert_eq!(app.find_asset("ETHUSDT"), None);
    assert_eq!(app.find_asset("BTC"), None);
}
