use crypto_watcher::cli::{
    interval_is_allowed, normalize_symbol, parse_cli_config, symbol_from_arg, CliCommand, CliConfig,
};

fn args(items: &[&str]) -> Vec<String> {
    items.iter().map(|s| s.to_string()).collect()
}

fn run(items: &[&str]) -> CliConfig {
    match parse_cli_config(&args(items)) {
        Ok(CliCommand::Run(c)) => c,
        Ok(CliCommand::Help) => panic!("unexpected help"),
        Err(e) => panic!("unexpected error: {}", e),
    }
}

fn fail(items: &[&str]) -> String {
    match parse_cli_config(&args(items)) {
        Err(e) => e,
        Ok(_) => panic!("unexpected success"),
    }
}

#[test]
fn defaults_without_arguments() {
    let c = run(&[]);
    assert_eq!(c.symbols, args(&["SOLUSDT", "BTCUSDT", "ETHUSDT"]));
    assert_eq!(c.interval, "1m");
    assert_eq!(c.lookback_points, 240);
    assert_eq!(c.refresh_ms, 100);
}

#[test]
fn readme_example_long_options() {
    let c = run(&["--interval", "5m", "--lookback", "300", "BTC", "ETH", "SOL"]);
    assert_eq!(c.symbols, args(&["BTCUSDT", "ETHUSDT", "SOLUSDT"]));
    assert_eq!(c.interval, "5m");
    assert_eq!(c.lookback_points, 300);
    assert_eq!(c.refresh_ms, 100);
}

#[test]
fn readme_example_short_options() {
    let c = run(&["-i", "1h", "-l", "168", "btcusdt", "-r", "250"]);
    assert_eq!(c.symbols, args(&["BTCUSDT"]));
    assert_eq!(c.interval, "1h");
    assert_eq!(c.lookback_points, 168);
    assert_eq!(c.refresh_ms, 250);
}

#[test]
fn help_stops_reading() {
    assert!(matches!(parse_cli_config(&args(&["-h"])), Ok(CliCommand::Help)));
    assert!(matches!(parse_cli_config(&args(&["btc", "--help", "--bogus"])), Ok(CliCommand::Help)));
    assert_eq!(fail(&["-l", "abc", "-h"]), "Invalid --lookback: expected a positive integer");
}

#[test]
fn option_errors() {
    assert_eq!(fail(&["btc", "--bogus"]), "Unknown option: --bogus");
    assert_eq!(fail(&["-5"]), "Unknown option: -5");
    assert_eq!(fail(&["-i"]), "Missing value for --interval");
    assert_eq!(fail(&["--lookback"]), "Missing value for --lookback");
    assert_eq!(fail(&["-r"]), "Missing value for --refresh-ms");
    assert_eq!(fail(&["-r", "x"]), "Invalid --refresh-ms: expected an integer in ms");
    assert_eq!(fail(&["-r", "-1"]), "Invalid --refresh-ms: expected an integer in ms");
}

#[test]
fn value_errors() {
    assert_eq!(
        fail(&["-i", "7m"]),
        "Invalid interval '7m'. Allowed values: 1s, 1m, 3m, 5m, 15m, 30m, 1h, 2h, 4h, 6h, 8h, 12h, 1d, 3d, 1w, 1M"
    );
    assert_eq!(fail(&["-l", "0"]), "Invalid --lookback '0': expected between 1 and 600");
    assert_eq!(fail(&["-l", "601"]), "Invalid --lookback '601': expected between 1 and 600");
    assert_eq!(fail(&["-r", "0"]), "Invalid --refresh-ms '0': expected > 0");
    assert_eq!(run(&["-l", "600"]).lookback_points, 600);
    assert_eq!(run(&["-l", "+1"]).lookback_points, 1);
}

#[test]
fn option_value_may_look_like_an_option() {
    let c = run(&["-i", "1d", "-i", "1M"]);
    assert_eq!(c.interval, "1M");
    assert_eq!(fail(&["-i", "-h"]), "Invalid interval '-h'. Allowed values: 1s, 1m, 3m, 5m, 15m, 30m, 1h, 2h, 4h, 6h, 8h, 12h, 1d, 3d, 1w, 1M");
}

#[test]
fn intervals() {
    assert!(interval_is_allowed("1s"));
    assert!(interval_is_allowed("1M"));
    assert!(!interval_is_allowed("1y"));
    assert!(!interval_is_allowed("1mo"));
}

#[test]
fn symbols_are_upper_cased_and_quoted() {
    assert_eq!(symbol_from_arg("btc"), "BTCUSDT");
    assert_eq!(symbol_from_arg("ethusdt"), "ETHUSDT");
    assert_eq!(symbol_from_arg("straße"), "STRASSEUSDT");
    assert_eq!(normalize_symbol("SOL"), "SOLUSDT");
    assert_eq!(normalize_symbol("SOLUSDT"), "SOLUSDT");
}
