use crypto_watcher::indicators::{
    ensure_no_extra, parse_period, zip_some_points, IndicatorConfig, Multiplier, MultiplierReading,
    OverlayIndicator, DEFAULT_MULTIPLIER_BITS,
};

fn specs(items: &[&str]) -> Vec<String> {
    items.iter().map(|s| s.to_string()).collect()
}

fn reading(text: &str, value: Option<f64>) -> MultiplierReading {
    MultiplierReading {
        text: text.to_string(),
        value: value.map(|v| Multiplier { bits: v.to_bits(), label: format!("{:.1}", v) }),
    }
}

fn parse_ok(items: &[&str], readings: Vec<MultiplierReading>) -> IndicatorConfig {
    match IndicatorConfig::parse(&specs(items), &readings) {
        Ok(c) => c,
        Err(e) => panic!("unexpected error: {}", e),
    }
}

fn parse_err(items: &[&str], readings: Vec<MultiplierReading>) -> String {
    match IndicatorConfig::parse(&specs(items), &readings) {
        Ok(c) => panic!("unexpected success: {}", c.describe()),
        Err(e) => e,
    }
}

#[test]
fn default_style_is_ema20_sma50_rsi14() {
    let c = IndicatorConfig::default_trading_view_style();
    assert_eq!(c.describe(), "EMA(20), SMA(50), RSI(14)");
    assert_eq!(c.rsi_period, Some(14));
}

#[test]
fn no_argument_gives_defaults() {
    let c = parse_ok(&[], vec![]);
    assert_eq!(c.describe(), "EMA(20), SMA(50), RSI(14)");
}

#[test]
fn blank_argument_gives_nothing() {
    let c = parse_ok(&[" , ,"], vec![]);
    assert!(c.overlays.is_empty());
    assert_eq!(c.rsi_period, None);
    assert_eq!(c.describe(), "none");
}

#[test]
fn moving_averages_with_and_without_period() {
    let c = parse_ok(&["sma:10,ema", " SMA:+5 "], vec![]);
    assert_eq!(c.describe(), "SMA(10), EMA(20), SMA(5)");
    assert_eq!(c.rsi_period, None);
    match &c.overlays[0] {
        OverlayIndicator::Sma { period } => assert_eq!(*period, 10),
        _ => panic!("expected an SMA"),
    }
}

#[test]
fn last_rsi_wins() {
    let c = parse_ok(&["rsi:5", "Rsi:9,sma:3"], vec![]);
    assert_eq!(c.rsi_period, Some(9));
    assert_eq!(c.describe(), "SMA(3), RSI(9)");
}

#[test]
fn bollinger_default_multiplier() {
    let c = parse_ok(&["bb", "bollinger:30"], vec![]);
    assert_eq!(c.describe(), "BB(20, 2.0), BB(30, 2.0)");
    match &c.overlays[0] {
        OverlayIndicator::BollingerBands { period, multiplier } => {
            assert_eq!(*period, 20);
            assert_eq!(multiplier.bits, 2.0f64.to_bits());
            assert_eq!(multiplier.bits, DEFAULT_MULTIPLIER_BITS);
        }
        _ => panic!("expected Bollinger bands"),
    }
}

#[test]
fn bollinger_with_read_multiplier() {
    let c = parse_ok(&["BollingerBands:10:2.5"], vec![reading("2.5", Some(2.5))]);
    assert_eq!(c.describe(), "BB(10, 2.5)");
}

#[test]
fn bollinger_nan_multiplier_is_not_refused() {
    let c = parse_ok(&["bb:10:nan"], vec![reading("nan", Some(f64::NAN))]);
    assert_eq!(c.overlays.len(), 1);
}

#[test]
fn bollinger_unreadable_multiplier() {
    assert_eq!(
        parse_err(&["bb:10:x"], vec![reading("x", None)]),
        "Invalid Bollinger multiplier in 'bb:10:x'"
    );
    assert_eq!(parse_err(&["bb:10:x"], vec![]), "Invalid Bollinger multiplier in 'bb:10:x'");
}

#[test]
fn bollinger_nonpositive_multiplier() {
    assert_eq!(
        parse_err(&["bb:10:-1"], vec![reading("-1", Some(-1.0))]),
        "Bollinger multiplier must be > 0 in 'bb:10:-1'"
    );
    assert_eq!(
        parse_err(&["bb:10:-0"], vec![reading("-0", Some(-0.0))]),
        "Bollinger multiplier must be > 0 in 'bb:10:-0'"
    );
    assert_eq!(
        parse_err(&["bb:10:0"], vec![reading("0", Some(0.0))]),
        "Bollinger multiplier must be > 0 in 'bb:10:0'"
    );
}

#[test]
fn bollinger_multiplier_checked_before_extra_parameters() {
    assert_eq!(
        parse_err(&["bb:10:x:1"], vec![reading("x", None)]),
        "Invalid Bollinger multiplier in 'bb:10:x:1'"
    );
    assert_eq!(
        parse_err(&["bb:10:2:3"], vec![reading("2", Some(2.0))]),
        "Too many parameters in indicator 'bb:10:2:3'"
    );
}

#[test]
fn period_errors() {
    assert_eq!(parse_err(&["sma:0"], vec![]), "Period must be > 0 in 'sma:0'");
    assert_eq!(parse_err(&["ema:abc"], vec![]), "Invalid period in 'ema:abc'");
    assert_eq!(parse_err(&["rsi:"], vec![]), "Invalid period in 'rsi:'");
    assert_eq!(parse_err(&["sma: 5"], vec![]), "Invalid period in 'sma: 5'");
    assert_eq!(parse_err(&["sma:-5"], vec![]), "Invalid period in 'sma:-5'");
}

#[test]
fn too_many_parameters() {
    assert_eq!(parse_err(&["sma:5:1"], vec![]), "Too many parameters in indicator 'sma:5:1'");
    assert_eq!(parse_err(&["rsi:5:1"], vec![]), "Too many parameters in indicator 'rsi:5:1'");
}

#[test]
fn unknown_indicator_reports_first_error() {
    assert_eq!(
        parse_err(&["sma:5, macd ,sma:0"], vec![]),
        "Unknown indicator 'macd'. Allowed: sma[:n], ema[:n], bb[:period[:mult]], rsi[:n]"
    );
}

#[test]
fn multiplier_texts_lists_bollinger_third_parts() {
    let texts = IndicatorConfig::multiplier_texts(&specs(&[
        "bb:20:2.5, BOLLINGER:10:1:9, sma:3:4",
        "bb:5,bollingerbands:7:0.5",
    ]));
    assert_eq!(texts, vec!["2.5".to_string(), "1".to_string(), "0.5".to_string()]);
}

#[test]
fn parse_period_cases() {
    assert_eq!(parse_period(Some("12"), 20, "sma:12"), Ok(12));
    assert_eq!(parse_period(None, 14, "rsi"), Ok(14));
    assert_eq!(parse_period(Some("0"), 20, "sma:0"), Err("Period must be > 0 in 'sma:0'".to_string()));
    assert_eq!(parse_period(None, 0, "x"), Err("Period must be > 0 in 'x'".to_string()));
    assert_eq!(parse_period(Some(""), 20, "sma:"), Err("Invalid period in 'sma:'".to_string()));
    assert_eq!(
        parse_period(Some("99999999999999999999999"), 20, "r"),
        Err("Invalid period in 'r'".to_string())
    );
}

#[test]
fn ensure_no_extra_cases() {
    assert_eq!(ensure_no_extra(None, "sma:5"), Ok(()));
    assert_eq!(
        ensure_no_extra(Some("1"), "sma:5:1"),
        Err("Too many parameters in indicator 'sma:5:1'".to_string())
    );
}

#[test]
fn line_labels() {
    assert_eq!(OverlayIndicator::Sma { period: 50 }.line_label(), Some("SMA 50".to_string()));
    assert_eq!(OverlayIndicator::Ema { period: 7 }.line_label(), Some("EMA 7".to_string()));
    let bb = OverlayIndicator::BollingerBands {
        period: 20,
        multiplier: Multiplier { bits: DEFAULT_MULTIPLIER_BITS, label: "2.0".to_string() },
    };
    assert_eq!(bb.line_label(), None);
}

#[test]
fn zip_keeps_computed_points() {
    let xs = [1.0f64, 2.0, 3.0, 4.0];
    let ys = [None, Some(5.0f64), Some(6.0)];
    assert_eq!(zip_some_points(&xs, &ys), vec![(2.0, 5.0), (3.0, 6.0)]);
    let none: [Option<f64>; 2] = [None, None];
    assert!(zip_some_points(&xs, &none).is_empty());
}
