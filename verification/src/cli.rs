//! Command-line options: `--interval`, `--lookback`, `--refresh-ms`, `--help`
//! and the symbols to watch.
use vstd::prelude::*;
use crate::state::{quote_suffix, MAX_DATA_POINTS};
use crate::text::{
    chars_eq_str, chars_ends_with, chars_of, chars_starts_with, decimal, has_prefix, has_suffix,
    parse_unsigned, parse_unsigned_chars, push_decimal, views,
};

verus! {

/// Real-time polling period when none is given, in milliseconds.
pub const UPDATE_INTERVAL_MS: u64 = 100;

/// Candles preloaded when no look-back is given.
pub const DEFAULT_LOOKBACK_POINTS: usize = 240;

/// Most candles that can be preloaded: the size of an asset's history.
pub const MAX_LOOKBACK_POINTS: usize = MAX_DATA_POINTS;

/// `str::to_uppercase` of `s`: the Unicode upper-case mapping, character by
/// character, where one character may map to several.
pub uninterp spec fn uppercase(s: Seq<char>) -> Seq<char>;

/// Upper-cases `s` with `str::to_uppercase`. The contract names the result
/// and says nothing of the Unicode tables behind it.
#[verifier::external_body]
fn to_uppercase(s: &str) -> (u: String)
    ensures
        u@ == uppercase(s@),
{
    s.to_uppercase()
}

/// The candle intervals Binance serves.
pub open spec fn is_allowed_interval(s: Seq<char>) -> bool {
    ||| s == "1s"@
    ||| s == "1m"@
    ||| s == "3m"@
    ||| s == "5m"@
    ||| s == "15m"@
    ||| s == "30m"@
    ||| s == "1h"@
    ||| s == "2h"@
    ||| s == "4h"@
    ||| s == "6h"@
    ||| s == "8h"@
    ||| s == "12h"@
    ||| s == "1d"@
    ||| s == "3d"@
    ||| s == "1w"@
    ||| s == "1M"@
}

/// The allowed intervals as listed in the error message.
pub open spec fn allowed_interval_list() -> Seq<char> {
    "1s, 1m, 3m, 5m, 15m, 30m, 1h, 2h, 4h, 6h, 8h, 12h, 1d, 3d, 1w, 1M"@
}

/// Decides [`is_allowed_interval`].
pub fn interval_is_allowed(s: &str) -> (r: bool)
    ensures
        r == is_allowed_interval(s@),
{
    let c = chars_of(s);
    let c = c.as_slice();
    chars_eq_str(c, "1s") || chars_eq_str(c, "1m") || chars_eq_str(c, "3m") || chars_eq_str(c, "5m")
        || chars_eq_str(c, "15m") || chars_eq_str(c, "30m") || chars_eq_str(c, "1h")
        || chars_eq_str(c, "2h") || chars_eq_str(c, "4h") || chars_eq_str(c, "6h")
        || chars_eq_str(c, "8h") || chars_eq_str(c, "12h") || chars_eq_str(c, "1d")
        || chars_eq_str(c, "3d") || chars_eq_str(c, "1w") || chars_eq_str(c, "1M")
}

/// A symbol as watched: upper-cased text `upper`, with `USDT` appended unless
/// it already ends with it.
pub open spec fn normalized_symbol(upper: Seq<char>) -> Seq<char> {
    if has_suffix(upper, quote_suffix()) {
        upper
    } else {
        upper + quote_suffix()
    }
}

/// Appends `USDT` to an upper-cased symbol that does not end with it.
pub fn normalize_symbol(upper: &str) -> (s: String)
    ensures
        s@ == normalized_symbol(upper@),
{
    let c = chars_of(upper);
    let q = chars_of("USDT");
    proof {
        reveal_strlit("USDT");
    }
    assert(q@ =~= quote_suffix());
    let mut s = String::from_str(upper);
    if !chars_ends_with(c.as_slice(), q.as_slice()) {
        s.append("USDT");
        assert(s@ =~= upper@ + quote_suffix());
    }
    s
}

/// The symbol watched for command-line argument `arg`.
pub fn symbol_from_arg(arg: &str) -> (s: String)
    ensures
        s@ == normalized_symbol(uppercase(arg@)),
{
    let u = to_uppercase(arg);
    normalize_symbol(u.as_str())
}

/// Symbols watched when none is given.
pub open spec fn default_symbols() -> Seq<Seq<char>> {
    seq!["SOLUSDT"@, "BTCUSDT"@, "ETHUSDT"@]
}

/// What the options set while they are read.
#[verifier::ext_equal]
pub struct CliScan {
    pub interval: Seq<char>,
    pub lookback_points: usize,
    pub refresh_ms: u64,
    pub raw_symbols: Seq<Seq<char>>,
}

/// Where reading the options from position `i` on leads.
pub enum ScanOutcome {
    Help,
    Fail(Seq<char>),
    Done(CliScan),
}

/// The options before anything is read.
pub open spec fn initial_scan() -> CliScan {
    CliScan {
        interval: "1m"@,
        lookback_points: DEFAULT_LOOKBACK_POINTS,
        refresh_ms: UPDATE_INTERVAL_MS,
        raw_symbols: Seq::empty(),
    }
}

/// Reads the arguments from position `i` on: `-h`/`--help` asks for help at
/// once; `-i`/`--interval`, `-l`/`--lookback` and `-r`/`--refresh-ms` take
/// the next argument, whatever it is; any other argument starting with `-`
/// is refused; the rest are symbols.
pub open spec fn scan(args: Seq<Seq<char>>, i: int, st: CliScan) -> ScanOutcome
    decreases args.len() - i,
{
    if i < 0 || i >= args.len() {
        ScanOutcome::Done(st)
    } else {
        let arg = args[i];
        if arg == "-h"@ || arg == "--help"@ {
            ScanOutcome::Help
        } else if arg == "-i"@ || arg == "--interval"@ {
            if i + 1 >= args.len() {
                ScanOutcome::Fail("Missing value for --interval"@)
            } else {
                scan(args, i + 2, CliScan { interval: args[i + 1], ..st })
            }
        } else if arg == "-l"@ || arg == "--lookback"@ {
            if i + 1 >= args.len() {
                ScanOutcome::Fail("Missing value for --lookback"@)
            } else {
                match parse_unsigned(args[i + 1], usize::MAX as nat) {
                    None => ScanOutcome::Fail("Invalid --lookback: expected a positive integer"@),
                    Some(v) => scan(args, i + 2, CliScan { lookback_points: v as usize, ..st }),
                }
            }
        } else if arg == "-r"@ || arg == "--refresh-ms"@ {
            if i + 1 >= args.len() {
                ScanOutcome::Fail("Missing value for --refresh-ms"@)
            } else {
                match parse_unsigned(args[i + 1], u64::MAX as nat) {
                    None => ScanOutcome::Fail("Invalid --refresh-ms: expected an integer in ms"@),
                    Some(v) => scan(args, i + 2, CliScan { refresh_ms: v as u64, ..st }),
                }
            }
        } else if has_prefix(arg, "-"@) {
            ScanOutcome::Fail("Unknown option: "@ + arg)
        } else {
            scan(args, i + 1, CliScan { raw_symbols: st.raw_symbols.push(arg), ..st })
        }
    }
}

/// A configuration to run with.
#[verifier::ext_equal]
pub struct CliModel {
    pub symbols: Seq<Seq<char>>,
    pub interval: Seq<char>,
    pub lookback_points: usize,
    pub refresh_ms: u64,
}

/// What the command line asks for.
pub enum CliOutcome {
    Help,
    Run(CliModel),
    Invalid(Seq<char>),
}

/// The checks made once every option is read, and the symbols to watch.
pub open spec fn finish(st: CliScan) -> CliOutcome {
    if !is_allowed_interval(st.interval) {
        CliOutcome::Invalid(
            "Invalid interval '"@ + st.interval + "'. Allowed values: "@ + allowed_interval_list(),
        )
    } else if st.lookback_points == 0 || st.lookback_points > MAX_LOOKBACK_POINTS {
        CliOutcome::Invalid(
            "Invalid --lookback '"@ + decimal(st.lookback_points as nat)
                + "': expected between 1 and 600"@,
        )
    } else if st.refresh_ms == 0 {
        CliOutcome::Invalid("Invalid --refresh-ms '0': expected > 0"@)
    } else {
        CliOutcome::Run(
            CliModel {
                symbols: if st.raw_symbols.len() == 0 {
                    default_symbols()
                } else {
                    st.raw_symbols.map_values(|s: Seq<char>| normalized_symbol(uppercase(s)))
                },
                interval: st.interval,
                lookback_points: st.lookback_points,
                refresh_ms: st.refresh_ms,
            },
        )
    }
}

/// What the arguments after the program name ask for.
pub open spec fn cli_outcome(args: Seq<Seq<char>>) -> CliOutcome {
    match scan(args, 0, initial_scan()) {
        ScanOutcome::Help => CliOutcome::Help,
        ScanOutcome::Fail(msg) => CliOutcome::Invalid(msg),
        ScanOutcome::Done(st) => finish(st),
    }
}

} // verus!

verus! {

/// A configuration to run with.
pub struct CliConfig {
    pub symbols: Vec<String>,
    pub interval: String,
    pub lookback_points: usize,
    pub refresh_ms: u64,
}

impl View for CliConfig {
    type V = CliModel;

    open spec fn view(&self) -> CliModel {
        CliModel {
            symbols: views(self.symbols@),
            interval: self.interval@,
            lookback_points: self.lookback_points,
            refresh_ms: self.refresh_ms,
        }
    }
}

/// What the command line asks for, when it is valid.
pub enum CliCommand {
    /// Print the usage text and stop.
    Help,
    /// Watch the market with this configuration.
    Run(CliConfig),
}

/// A command-line reading taken by its model.
pub open spec fn command_outcome(r: Result<CliCommand, String>) -> CliOutcome {
    match r {
        Ok(CliCommand::Help) => CliOutcome::Help,
        Ok(CliCommand::Run(c)) => CliOutcome::Run(c@),
        Err(e) => CliOutcome::Invalid(e@),
    }
}

/// The options read so far, as a [`CliScan`].
pub open spec fn scan_state(interval: Seq<char>, lookback: usize, refresh: u64, raw: Seq<String>) -> CliScan {
    CliScan {
        interval: interval,
        lookback_points: lookback,
        refresh_ms: refresh,
        raw_symbols: views(raw),
    }
}

/// Whether `a` is one of two spellings of an option.
fn is_option(a: &[char], short: &str, long: &str) -> (r: bool)
    ensures
        r == (a@ == short@ || a@ == long@),
{
    chars_eq_str(a, short) || chars_eq_str(a, long)
}

/// The symbols to watch for the symbol arguments `raw`.
fn symbols_for(raw: &Vec<String>) -> (symbols: Vec<String>)
    ensures
        views(symbols@) == if raw@.len() == 0 {
            default_symbols()
        } else {
            views(raw@).map_values(|s: Seq<char>| normalized_symbol(uppercase(s)))
        },
{
    let mut symbols: Vec<String> = Vec::new();
    if raw.len() == 0 {
        symbols.push(String::from_str("SOLUSDT"));
        symbols.push(String::from_str("BTCUSDT"));
        symbols.push(String::from_str("ETHUSDT"));
        assert(views(symbols@) =~= default_symbols());
        return symbols;
    }
    let ghost target = views(raw@).map_values(|s: Seq<char>| normalized_symbol(uppercase(s)));
    let mut k: usize = 0;
    while k < raw.len()
        invariant
            k <= raw@.len(),
            target == views(raw@).map_values(|s: Seq<char>| normalized_symbol(uppercase(s))),
            views(symbols@) =~= target.take(k as int),
        decreases raw@.len() - k,
    {
        let s = symbol_from_arg(raw[k].as_str());
        let ghost before = views(symbols@);
        let ghost sv = s@;
        symbols.push(s);
        assert(views(symbols@) =~= before.push(sv));
        assert(target.take(k + 1) =~= target.take(k as int).push(target[k as int]));
        k = k + 1;
    }
    assert(target.take(raw@.len() as int) =~= target);
    symbols
}

/// Reads the command line (the arguments after the program name): the
/// options, then the checks on interval, look-back and refresh period, then
/// the symbols, upper-cased and ending with `USDT`.
pub fn parse_cli_config(args: &[String]) -> (r: Result<CliCommand, String>)
    ensures
        command_outcome(r) == cli_outcome(views(args@)),
{
    let ghost a = views(args@);
    let mut interval = String::from_str("1m");
    let mut lookback_points: usize = DEFAULT_LOOKBACK_POINTS;
    let mut refresh_ms: u64 = UPDATE_INTERVAL_MS;
    let mut raw_symbols: Vec<String> = Vec::new();
    let mut i: usize = 0;
    assert(views(raw_symbols@) =~= Seq::<Seq<char>>::empty());
    assert(scan_state(interval@, lookback_points, refresh_ms, raw_symbols@) =~= initial_scan());
    while i < args.len()
        invariant
            i <= args@.len(),
            a == views(args@),
            scan(a, 0, initial_scan()) == scan(
                a,
                i as int,
                scan_state(interval@, lookback_points, refresh_ms, raw_symbols@),
            ),
        decreases args@.len() - i,
    {
        let arg = chars_of(args[i].as_str());
        let arg = arg.as_slice();
        assert(a[i as int] == args@[i as int]@);
        if is_option(arg, "-h", "--help") {
            return Ok(CliCommand::Help);
        } else if is_option(arg, "-i", "--interval") {
            if i + 1 >= args.len() {
                return Err(String::from_str("Missing value for --interval"));
            }
            interval = args[i + 1].clone();
            assert(a[i + 1] == args@[i + 1]@);
            i = i + 2;
        } else if is_option(arg, "-l", "--lookback") {
            if i + 1 >= args.len() {
                return Err(String::from_str("Missing value for --lookback"));
            }
            assert(a[i + 1] == args@[i + 1]@);
            let v = chars_of(args[i + 1].as_str());
            match parse_unsigned_chars(v.as_slice(), usize::MAX as u64) {
                Some(n) => {
                    lookback_points = n as usize;
                },
                None => {
                    return Err(String::from_str("Invalid --lookback: expected a positive integer"));
                },
            }
            i = i + 2;
        } else if is_option(arg, "-r", "--refresh-ms") {
            if i + 1 >= args.len() {
                return Err(String::from_str("Missing value for --refresh-ms"));
            }
            assert(a[i + 1] == args@[i + 1]@);
            let v = chars_of(args[i + 1].as_str());
            match parse_unsigned_chars(v.as_slice(), u64::MAX) {
                Some(n) => {
                    refresh_ms = n;
                },
                None => {
                    return Err(String::from_str("Invalid --refresh-ms: expected an integer in ms"));
                },
            }
            i = i + 2;
        } else {
            let dash = chars_of("-");
            if chars_starts_with(arg, dash.as_slice()) {
                let mut msg = String::from_str("Unknown option: ");
                msg.append(args[i].as_str());
                return Err(msg);
            }
            let ghost before = raw_symbols@;
            raw_symbols.push(args[i].clone());
            assert(views(raw_symbols@) =~= views(before).push(a[i as int]));
            i = i + 1;
        }
    }
    if !interval_is_allowed(interval.as_str()) {
        let mut msg = String::from_str("Invalid interval '");
        msg.append(interval.as_str());
        msg.append("'. Allowed values: ");
        msg.append("1s, 1m, 3m, 5m, 15m, 30m, 1h, 2h, 4h, 6h, 8h, 12h, 1d, 3d, 1w, 1M");
        return Err(msg);
    }
    if lookback_points == 0 || lookback_points > MAX_LOOKBACK_POINTS {
        let mut msg = String::from_str("Invalid --lookback '");
        push_decimal(&mut msg, lookback_points as u64);
        msg.append("': expected between 1 and 600");
        return Err(msg);
    }
    if refresh_ms == 0 {
        return Err(String::from_str("Invalid --refresh-ms '0': expected > 0"));
    }
    let symbols = symbols_for(&raw_symbols);
    let c = CliConfig { symbols, interval, lookback_points, refresh_ms };
    Ok(CliCommand::Run(c))
}

} // verus!

verus! {

/// A normalized symbol always ends with `USDT`.
pub proof fn lemma_normalized_ends_with_quote(upper: Seq<char>)
    ensures
        has_suffix(normalized_symbol(upper), quote_suffix()),
{
    if !has_suffix(upper, quote_suffix()) {
        let s = upper + quote_suffix();
        assert(s.skip(s.len() - quote_suffix().len()) =~= quote_suffix());
    }
}

/// A command line that is accepted to run names an allowed interval, a
/// look-back between 1 and `MAX_LOOKBACK_POINTS`, a positive refresh period,
/// and at least one symbol, each ending with `USDT`.
pub proof fn lemma_run_config_is_valid(args: Seq<Seq<char>>)
    ensures
        cli_outcome(args) matches CliOutcome::Run(m) ==> {
            &&& is_allowed_interval(m.interval)
            &&& 1 <= m.lookback_points <= MAX_LOOKBACK_POINTS
            &&& m.refresh_ms > 0
            &&& m.symbols.len() > 0
            &&& forall|k: int| 0 <= k < m.symbols.len() ==> has_suffix(#[trigger] m.symbols[k], quote_suffix())
        },
{
    if let CliOutcome::Run(m) = cli_outcome(args) {
        assert forall|k: int| 0 <= k < m.symbols.len() implies has_suffix(#[trigger] m.symbols[k], quote_suffix()) by {
            if let ScanOutcome::Done(st) = scan(args, 0, initial_scan()) {
                if st.raw_symbols.len() == 0 {
                    reveal_strlit("SOLUSDT");
                    reveal_strlit("BTCUSDT");
                    reveal_strlit("ETHUSDT");
                    let s = m.symbols[k];
                    assert(s.skip(s.len() - 4) =~= quote_suffix());
                } else {
                    lemma_normalized_ends_with_quote(uppercase(st.raw_symbols[k]));
                }
            }
        }
    }
}

} // verus!

verus! {

/// Reading from position `i` on looks only at the arguments from `i` on.
proof fn lemma_scan_reads_suffix(a: Seq<Seq<char>>, b: Seq<Seq<char>>, i: int, st: CliScan)
    requires
        a.len() == b.len(),
        forall|k: int| i <= k < a.len() ==> a[k] == b[k],
    ensures
        scan(a, i, st) == scan(b, i, st),
    decreases a.len() - i,
{
    if 0 <= i < a.len() {
        let arg = a[i];
        lemma_scan_reads_suffix(a, b, i + 1, CliScan { raw_symbols: st.raw_symbols.push(arg), ..st });
        if i + 1 < a.len() {
            let v = a[i + 1];
            lemma_scan_reads_suffix(a, b, i + 2, CliScan { interval: v, ..st });
            if let Some(n) = parse_unsigned(v, usize::MAX as nat) {
                lemma_scan_reads_suffix(a, b, i + 2, CliScan { lookback_points: n as usize, ..st });
            }
            if let Some(n) = parse_unsigned(v, u64::MAX as nat) {
                lemma_scan_reads_suffix(a, b, i + 2, CliScan { refresh_ms: n as u64, ..st });
            }
        }
    }
}

/// The long spelling of a short option.
pub open spec fn long_spelling(short: Seq<char>) -> Seq<char> {
    if short == "-h"@ {
        "--help"@
    } else if short == "-i"@ {
        "--interval"@
    } else if short == "-l"@ {
        "--lookback"@
    } else {
        "--refresh-ms"@
    }
}

proof fn reveal_option_names()
    ensures
        "-h"@ =~= seq!['-', 'h'],
        "--help"@ =~= seq!['-', '-', 'h', 'e', 'l', 'p'],
        "-i"@ =~= seq!['-', 'i'],
        "--interval"@ =~= seq!['-', '-', 'i', 'n', 't', 'e', 'r', 'v', 'a', 'l'],
        "-l"@ =~= seq!['-', 'l'],
        "--lookback"@ =~= seq!['-', '-', 'l', 'o', 'o', 'k', 'b', 'a', 'c', 'k'],
        "-r"@ =~= seq!['-', 'r'],
        "--refresh-ms"@ =~= seq!['-', '-', 'r', 'e', 'f', 'r', 'e', 's', 'h', '-', 'm', 's'],
        "-"@ =~= seq!['-'],
{
    reveal_strlit("-h");
    reveal_strlit("--help");
    reveal_strlit("-i");
    reveal_strlit("--interval");
    reveal_strlit("-l");
    reveal_strlit("--lookback");
    reveal_strlit("-r");
    reveal_strlit("--refresh-ms");
    reveal_strlit("-");
}

/// Wherever an option is read, its short and long spellings (`-h`/`--help`,
/// `-i`/`--interval`, `-l`/`--lookback`, `-r`/`--refresh-ms`) act the same.
pub proof fn lemma_option_spellings_agree(a: Seq<Seq<char>>, i: int, st: CliScan)
    requires
        0 <= i < a.len(),
        a[i] == "-h"@ || a[i] == "-i"@ || a[i] == "-l"@ || a[i] == "-r"@,
    ensures
        scan(a, i, st) == scan(a.update(i, long_spelling(a[i])), i, st),
{
    reveal_option_names();
    let b = a.update(i, long_spelling(a[i]));
    assert(b[i] == long_spelling(a[i]));
    if i + 1 < a.len() {
        let v = a[i + 1];
        assert(b[i + 1] == v);
        lemma_scan_reads_suffix(a, b, i + 2, CliScan { interval: v, ..st });
        if let Some(n) = parse_unsigned(v, usize::MAX as nat) {
            lemma_scan_reads_suffix(a, b, i + 2, CliScan { lookback_points: n as usize, ..st });
        }
        if let Some(n) = parse_unsigned(v, u64::MAX as nat) {
            lemma_scan_reads_suffix(a, b, i + 2, CliScan { refresh_ms: n as u64, ..st });
        }
    }
}

/// A command line that starts with a short option means the same with the
/// option spelled long.
pub proof fn lemma_leading_option_spellings_agree(a: Seq<Seq<char>>)
    requires
        a.len() > 0,
        a[0] == "-h"@ || a[0] == "-i"@ || a[0] == "-l"@ || a[0] == "-r"@,
    ensures
        cli_outcome(a) == cli_outcome(a.update(0, long_spelling(a[0]))),
{
    lemma_option_spellings_agree(a, 0, initial_scan());
}

/// The configuration run with when only the refresh period, look-back or
/// interval is changed from the defaults.
pub open spec fn defaults_with(interval: Seq<char>, lookback: usize, refresh: u64) -> CliOutcome {
    CliOutcome::Run(
        CliModel {
            symbols: seq!["SOLUSDT"@, "BTCUSDT"@, "ETHUSDT"@],
            interval: interval,
            lookback_points: lookback,
            refresh_ms: refresh,
        },
    )
}

/// `--refresh-ms n` with a positive integer `n` (or `-r n`) runs with that
/// refresh period and every other setting at its default: interval `1m`,
/// look-back 240, the three default symbols.
pub proof fn lemma_refresh_option_sets_period(n: Seq<char>, v: nat, long: bool)
    requires
        parse_unsigned(n, u64::MAX as nat) == Some(v),
        v > 0,
    ensures
        cli_outcome(seq![if long { "--refresh-ms"@ } else { "-r"@ }, n]) == defaults_with(
            "1m"@,
            240,
            v as u64,
        ),
{
    reveal_option_names();
    let a = seq![if long { "--refresh-ms"@ } else { "-r"@ }, n];
    let st = CliScan { refresh_ms: v as u64, ..initial_scan() };
    assert(scan(a, 2, st) == ScanOutcome::Done(st));
    assert(finish(st) =~= defaults_with("1m"@, 240, v as u64));
}

/// `--lookback n` (or `-l n`) with `n` between 1 and 600 runs with that
/// look-back and every other setting at its default.
pub proof fn lemma_lookback_option_sets_lookback(n: Seq<char>, v: nat, long: bool)
    requires
        parse_unsigned(n, usize::MAX as nat) == Some(v),
        1 <= v <= 600,
    ensures
        cli_outcome(seq![if long { "--lookback"@ } else { "-l"@ }, n]) == defaults_with(
            "1m"@,
            v as usize,
            100,
        ),
{
    reveal_option_names();
    let a = seq![if long { "--lookback"@ } else { "-l"@ }, n];
    let st = CliScan { lookback_points: v as usize, ..initial_scan() };
    assert(scan(a, 2, st) == ScanOutcome::Done(st));
    assert(finish(st) =~= defaults_with("1m"@, v as usize, 100));
}

/// `--interval s` (or `-i s`) with an allowed interval runs with that interval
/// and every other setting at its default.
pub proof fn lemma_interval_option_sets_interval(s: Seq<char>, long: bool)
    requires
        is_allowed_interval(s),
    ensures
        cli_outcome(seq![if long { "--interval"@ } else { "-i"@ }, s]) == defaults_with(s, 240, 100),
{
    reveal_option_names();
    let a = seq![if long { "--interval"@ } else { "-i"@ }, s];
    let st = CliScan { interval: s, ..initial_scan() };
    assert(scan(a, 2, st) == ScanOutcome::Done(st));
    assert(finish(st) =~= defaults_with(s, 240, 100));
}

} // verus!

verus! {

/// Asking for help first means help, whatever follows.
pub proof fn lemma_help_first_wins(rest: Seq<Seq<char>>, long: bool)
    ensures
        cli_outcome(seq![if long { "--help"@ } else { "-h"@ }] + rest) == CliOutcome::Help,
{
    reveal_option_names();
    let a = seq![if long { "--help"@ } else { "-h"@ }] + rest;
    assert(a[0] == if long { "--help"@ } else { "-h"@ });
}

/// A look-back outside 1..=600 is refused, naming the number given.
pub proof fn lemma_lookback_out_of_range_refused(n: Seq<char>, v: nat, long: bool)
    requires
        parse_unsigned(n, usize::MAX as nat) == Some(v),
        v == 0 || v > 600,
    ensures
        cli_outcome(seq![if long { "--lookback"@ } else { "-l"@ }, n]) == CliOutcome::Invalid(
            "Invalid --lookback '"@ + decimal(v) + "': expected between 1 and 600"@,
        ),
{
    reveal_option_names();
    let a = seq![if long { "--lookback"@ } else { "-l"@ }, n];
    let st = CliScan { lookback_points: v as usize, ..initial_scan() };
    assert(scan(a, 2, st) == ScanOutcome::Done(st));
}

/// A zero refresh period is refused.
pub proof fn lemma_zero_refresh_refused(n: Seq<char>, long: bool)
    requires
        parse_unsigned(n, u64::MAX as nat) == Some(0nat),
    ensures
        cli_outcome(seq![if long { "--refresh-ms"@ } else { "-r"@ }, n]) == CliOutcome::Invalid(
            "Invalid --refresh-ms '0': expected > 0"@,
        ),
{
    reveal_option_names();
    let a = seq![if long { "--refresh-ms"@ } else { "-r"@ }, n];
    let st = CliScan { refresh_ms: 0, ..initial_scan() };
    assert(scan(a, 2, st) == ScanOutcome::Done(st));
}

/// An interval Binance does not serve is refused, naming it and the allowed ones.
pub proof fn lemma_unknown_interval_refused(s: Seq<char>, long: bool)
    requires
        !is_allowed_interval(s),
    ensures
        cli_outcome(seq![if long { "--interval"@ } else { "-i"@ }, s]) == CliOutcome::Invalid(
            "Invalid interval '"@ + s + "'. Allowed values: "@ + allowed_interval_list(),
        ),
{
    reveal_option_names();
    let a = seq![if long { "--interval"@ } else { "-i"@ }, s];
    let st = CliScan { interval: s, ..initial_scan() };
    assert(scan(a, 2, st) == ScanOutcome::Done(st));
}

/// An argument that starts with `-` and is none of the options is refused at
/// once, whatever follows.
pub proof fn lemma_unknown_option_refused(arg: Seq<char>, rest: Seq<Seq<char>>)
    requires
        arg.len() > 0,
        arg[0] == '-',
        arg != "-h"@ && arg != "--help"@ && arg != "-i"@ && arg != "--interval"@ && arg != "-l"@
            && arg != "--lookback"@ && arg != "-r"@ && arg != "--refresh-ms"@,
    ensures
        cli_outcome(seq![arg] + rest) == CliOutcome::Invalid("Unknown option: "@ + arg),
{
    reveal_option_names();
    let a = seq![arg] + rest;
    assert(a[0] == arg);
    assert(arg.take(1) =~= "-"@);
}

/// One symbol argument alone is watched, upper-cased and ending with `USDT`,
/// with every other setting at its default.
pub proof fn lemma_single_symbol_argument(x: Seq<char>)
    requires
        !has_prefix(x, "-"@),
    ensures
        cli_outcome(seq![x]) == CliOutcome::Run(
            CliModel {
                symbols: seq![normalized_symbol(uppercase(x))],
                interval: "1m"@,
                lookback_points: 240,
                refresh_ms: 100,
            },
        ),
{
    reveal_option_names();
    let a = seq![x];
    assert(a[0] == x);
    assert(x != "-h"@ && x != "--help"@ && x != "-i"@ && x != "--interval"@ && x != "-l"@
        && x != "--lookback"@ && x != "-r"@ && x != "--refresh-ms"@) by {
        if x.len() > 0 && x[0] == '-' {
            assert(x.take(1) =~= "-"@);
        }
    }
    let st = CliScan { raw_symbols: seq![x], ..initial_scan() };
    assert(initial_scan().raw_symbols.push(x) =~= seq![x]);
    assert(scan(a, 1, st) == ScanOutcome::Done(st));
    assert(st.raw_symbols.map_values(|s: Seq<char>| normalized_symbol(uppercase(s))) =~= seq![
        normalized_symbol(uppercase(x)),
    ]);
}

} // verus!
