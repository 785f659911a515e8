//! Chart indicator settings: the `--indicators` grammar, its defaults and its
//! description, plus the pairing of computed series with their x values.
//!
//! The library holds no floating-point numbers. A Bollinger multiplier is
//! carried as the IEEE-754 bit pattern of the `f64` it was read as, together
//! with its one-decimal rendering. Reading the multiplier text as a float is
//! left to the caller: [`IndicatorConfig::multiplier_texts`] lists the texts
//! to read, and [`IndicatorConfig::parse`] takes what was read from each.
use vstd::prelude::*;
use crate::text::{
    ascii_lowercase, chars_eq, chars_eq_str, chars_of, decimal, join, join_strings, opt_view,
    parse_unsigned, parse_unsigned_chars, push_decimal, result_view, split, split_chars,
    string_from_chars, to_ascii_lower, trim, trim_chars, views, lemma_split_nonempty,
    all_ascii_letters, is_digit, lemma_lower_letters, lemma_split_concat,
    lemma_split_without_separator, lemma_trim_letters, unsigned_body, has_prefix, has_suffix,
    lemma_join_starts_with_first, lemma_join_ends_with_last, lemma_decimal_parses_back,
};

verus! {

/// Bit pattern of the `f64` value 2.0, the default Bollinger multiplier.
pub const DEFAULT_MULTIPLIER_BITS: u64 = 0x4000_0000_0000_0000;

/// Whether the `f64` with bit pattern `bits` compares `<= 0.0`: it is not a
/// NaN, and it is a zero or has its sign bit set.
pub open spec fn float_le_zero(bits: u64) -> bool {
    let negative = bits >= 0x8000_0000_0000_0000u64;
    let magnitude: int = if negative { bits - 0x8000_0000_0000_0000u64 } else { bits as int };
    magnitude <= 0x7ff0_0000_0000_0000int && (magnitude == 0 || negative)
}

/// Decides [`float_le_zero`].
pub fn float_bits_le_zero(bits: u64) -> (r: bool)
    ensures
        r == float_le_zero(bits),
{
    let negative = bits >= 0x8000_0000_0000_0000u64;
    let magnitude: u64 = if negative { bits - 0x8000_0000_0000_0000u64 } else { bits };
    magnitude <= 0x7ff0_0000_0000_0000u64 && (magnitude == 0 || negative)
}

/// A Bollinger band multiplier: the bit pattern of its `f64` value and that
/// value rendered with one decimal (`{:.1}`).
pub struct Multiplier {
    pub bits: u64,
    pub label: String,
}

impl View for Multiplier {
    type V = (u64, Seq<char>);

    open spec fn view(&self) -> (u64, Seq<char>) {
        (self.bits, self.label@)
    }
}

/// What a multiplier text was read as: `None` when it is not a number.
pub struct MultiplierReading {
    pub text: String,
    pub value: Option<Multiplier>,
}

/// An overlay drawn on top of the price chart.
pub enum OverlayIndicator {
    Sma { period: usize },
    Ema { period: usize },
    BollingerBands { period: usize, multiplier: Multiplier },
}

/// The mathematical content of an [`OverlayIndicator`].
pub enum OverlayModel {
    Sma(usize),
    Ema(usize),
    Bollinger(usize, u64, Seq<char>),
}

impl View for OverlayIndicator {
    type V = OverlayModel;

    open spec fn view(&self) -> OverlayModel {
        match self {
            OverlayIndicator::Sma { period } => OverlayModel::Sma(*period),
            OverlayIndicator::Ema { period } => OverlayModel::Ema(*period),
            OverlayIndicator::BollingerBands { period, multiplier } => OverlayModel::Bollinger(
                *period,
                multiplier.bits,
                multiplier.label@,
            ),
        }
    }
}

/// Overlays and the optional RSI pane.
pub struct IndicatorConfig {
    pub overlays: Vec<OverlayIndicator>,
    pub rsi_period: Option<usize>,
}

/// The mathematical content of an [`IndicatorConfig`].
#[verifier::ext_equal]
pub struct ConfigModel {
    pub overlays: Seq<OverlayModel>,
    pub rsi_period: Option<usize>,
}

/// The models of a list of overlays.
pub open spec fn overlay_models(v: Seq<OverlayIndicator>) -> Seq<OverlayModel> {
    v.map_values(|o: OverlayIndicator| o@)
}

impl View for IndicatorConfig {
    type V = ConfigModel;

    open spec fn view(&self) -> ConfigModel {
        ConfigModel { overlays: overlay_models(self.overlays@), rsi_period: self.rsi_period }
    }
}

/// The configuration used when no indicator is asked for: EMA 20, SMA 50 and RSI 14.
pub open spec fn default_model() -> ConfigModel {
    ConfigModel {
        overlays: seq![OverlayModel::Ema(20), OverlayModel::Sma(50)],
        rsi_period: Some(14),
    }
}

// ---------------------------------------------------------------------------
// Description
// ---------------------------------------------------------------------------

/// How one overlay is described: `SMA(n)`, `EMA(n)` or `BB(n, m)`.
pub open spec fn overlay_description(o: OverlayModel) -> Seq<char> {
    match o {
        OverlayModel::Sma(p) => "SMA("@ + decimal(p as nat) + ")"@,
        OverlayModel::Ema(p) => "EMA("@ + decimal(p as nat) + ")"@,
        OverlayModel::Bollinger(p, _, label) => "BB("@ + decimal(p as nat) + ", "@ + label + ")"@,
    }
}

/// The described items of a configuration: each overlay, then `RSI(n)`.
pub open spec fn description_parts(c: ConfigModel) -> Seq<Seq<char>> {
    c.overlays.map_values(|o: OverlayModel| overlay_description(o)) + match c.rsi_period {
        Some(p) => seq!["RSI("@ + decimal(p as nat) + ")"@],
        None => Seq::empty(),
    }
}

/// The one-line description of a configuration, `none` when it is empty.
pub open spec fn description(c: ConfigModel) -> Seq<char> {
    let parts = description_parts(c);
    if parts.len() == 0 {
        "none"@
    } else {
        join(parts, ", "@)
    }
}

/// Appends `prefix`, the decimal `n` and `suffix` to a new string.
fn wrapped_number(prefix: &str, n: usize, suffix: &str) -> (s: String)
    ensures
        s@ == prefix@ + decimal(n as nat) + suffix@,
{
    let mut s = String::from_str(prefix);
    push_decimal(&mut s, n as u64);
    s.append(suffix);
    s
}

/// `prefix` followed by the decimal `n`.
fn prefixed_number(prefix: &str, n: usize) -> (s: String)
    ensures
        s@ == prefix@ + decimal(n as nat),
{
    let mut s = String::from_str(prefix);
    push_decimal(&mut s, n as u64);
    s
}

impl OverlayIndicator {
    /// The description of this overlay, as listed by [`IndicatorConfig::describe`].
    pub fn description(&self) -> (s: String)
        ensures
            s@ == overlay_description(self@),
    {
        match self {
            OverlayIndicator::Sma { period } => wrapped_number("SMA(", *period, ")"),
            OverlayIndicator::Ema { period } => wrapped_number("EMA(", *period, ")"),
            OverlayIndicator::BollingerBands { period, multiplier } => {
                let mut s = wrapped_number("BB(", *period, ", ");
                s.append(multiplier.label.as_str());
                s.append(")");
                s
            },
        }
    }

    /// Legend of the single line drawn for a moving average (`SMA n`, `EMA n`);
    /// Bollinger bands draw three unlabelled lines.
    pub fn line_label(&self) -> (s: Option<String>)
        ensures
            match self@ {
                OverlayModel::Sma(p) => s matches Some(l) && l@ == "SMA "@ + decimal(p as nat),
                OverlayModel::Ema(p) => s matches Some(l) && l@ == "EMA "@ + decimal(p as nat),
                OverlayModel::Bollinger(..) => s is None,
            },
    {
        match self {
            OverlayIndicator::Sma { period } => Some(prefixed_number("SMA ", *period)),
            OverlayIndicator::Ema { period } => Some(prefixed_number("EMA ", *period)),
            OverlayIndicator::BollingerBands { .. } => None,
        }
    }
}

impl IndicatorConfig {
    /// EMA 20 and SMA 50 over the price, and RSI 14 below it.
    pub fn default_trading_view_style() -> (c: IndicatorConfig)
        ensures
            c@ == default_model(),
    {
        let mut overlays: Vec<OverlayIndicator> = Vec::new();
        overlays.push(OverlayIndicator::Ema { period: 20 });
        overlays.push(OverlayIndicator::Sma { period: 50 });
        let c = IndicatorConfig { overlays, rsi_period: Some(14) };
        assert(c@.overlays =~= default_model().overlays);
        c
    }

    /// The items of this configuration joined by `, `, or `none`.
    pub fn describe(&self) -> (s: String)
        ensures
            s@ == description(self@),
    {
        let mut parts: Vec<String> = Vec::new();
        let mut i: usize = 0;
        while i < self.overlays.len()
            invariant
                i <= self.overlays@.len(),
                views(parts@) =~= overlay_models(self.overlays@.take(i as int)).map_values(
                    |o: OverlayModel| overlay_description(o),
                ),
            decreases self.overlays@.len() - i,
        {
            let ghost before = parts@;
            let d = self.overlays[i].description();
            parts.push(d);
            assert(views(parts@) =~= views(before).push(d@));
            assert(self.overlays@.take(i + 1) =~= self.overlays@.take(i as int).push(
                self.overlays@[i as int],
            ));
            assert(overlay_models(self.overlays@.take(i + 1)) =~= overlay_models(
                self.overlays@.take(i as int),
            ).push(self.overlays@[i as int]@));
            i = i + 1;
        }
        assert(self.overlays@.take(self.overlays@.len() as int) =~= self.overlays@);
        if let Some(p) = self.rsi_period {
            parts.push(wrapped_number("RSI(", p, ")"));
        }
        assert(views(parts@) =~= description_parts(self@));
        if parts.len() == 0 {
            String::from_str("none")
        } else {
            join_strings(parts.as_slice(), ", ")
        }
    }
}

} // verus!

verus! {

// ---------------------------------------------------------------------------
// Periods and parameter counts
// ---------------------------------------------------------------------------

/// `text` between single quotes, after `prefix`.
pub open spec fn quoted(prefix: Seq<char>, text: Seq<char>) -> Seq<char> {
    prefix + "'"@ + text + "'"@
}

/// Error for a period that is not an unsigned integer.
pub open spec fn invalid_period_msg(raw: Seq<char>) -> Seq<char> {
    quoted("Invalid period in "@, raw)
}

/// Error for a zero period.
pub open spec fn zero_period_msg(raw: Seq<char>) -> Seq<char> {
    quoted("Period must be > 0 in "@, raw)
}

/// Error for parameters beyond those an indicator takes.
pub open spec fn too_many_msg(raw: Seq<char>) -> Seq<char> {
    quoted("Too many parameters in indicator "@, raw)
}

/// Error for a Bollinger multiplier that is not a number.
pub open spec fn invalid_multiplier_msg(raw: Seq<char>) -> Seq<char> {
    quoted("Invalid Bollinger multiplier in "@, raw)
}

/// Error for a Bollinger multiplier that is not above zero.
pub open spec fn nonpositive_multiplier_msg(raw: Seq<char>) -> Seq<char> {
    quoted("Bollinger multiplier must be > 0 in "@, raw)
}

/// Error for an indicator name that is not known.
pub open spec fn unknown_indicator_msg(raw: Seq<char>) -> Seq<char> {
    quoted("Unknown indicator "@, raw) + ". Allowed: sma[:n], ema[:n], bb[:period[:mult]], rsi[:n]"@
}

/// The period given by `value` (or `default` when it is absent), or the error
/// it raises within indicator `raw`.
pub open spec fn period_result(value: Option<Seq<char>>, default: usize, raw: Seq<char>) -> Result<
    usize,
    Seq<char>,
> {
    let parsed: Result<nat, Seq<char>> = match value {
        Some(v) => match parse_unsigned(v, usize::MAX as nat) {
            Some(n) => Ok(n),
            None => Err(invalid_period_msg(raw)),
        },
        None => Ok(default as nat),
    };
    match parsed {
        Err(e) => Err(e),
        Ok(n) => if n == 0 {
            Err(zero_period_msg(raw))
        } else {
            Ok(n as usize)
        },
    }
}

/// `prefix` followed by `text` in single quotes.
fn quoted_message(prefix: &str, text: &str) -> (s: String)
    ensures
        s@ == quoted(prefix@, text@),
{
    let mut s = String::from_str(prefix);
    s.append("'");
    s.append(text);
    s.append("'");
    s
}

/// The period of indicator `raw`: `value` read as an unsigned integer, or
/// `default` when absent; zero is refused.
pub fn parse_period(value: Option<&str>, default: usize, raw: &str) -> (r: Result<usize, String>)
    ensures
        result_view(r) == period_result(opt_view(value), default, raw@),
        r matches Ok(p) ==> p > 0,
{
    let period: usize = match value {
        Some(v) => {
            let cs = chars_of(v);
            match parse_unsigned_chars(cs.as_slice(), usize::MAX as u64) {
                Some(n) => n as usize,
                None => {
                    return Err(quoted_message("Invalid period in ", raw));
                },
            }
        },
        None => default,
    };
    if period == 0 {
        return Err(quoted_message("Period must be > 0 in ", raw));
    }
    Ok(period)
}

/// Refuses a parameter beyond those indicator `raw` takes.
pub fn ensure_no_extra(extra: Option<&str>, raw: &str) -> (r: Result<(), String>)
    ensures
        extra is None <==> r is Ok,
        r matches Err(e) ==> e@ == too_many_msg(raw@),
{
    if extra.is_some() {
        return Err(quoted_message("Too many parameters in indicator ", raw));
    }
    Ok(())
}

} // verus!

verus! {

// ---------------------------------------------------------------------------
// The `--indicators` grammar
// ---------------------------------------------------------------------------

/// Whether `name` (already lower-cased) names Bollinger bands.
pub open spec fn is_bollinger_name(name: Seq<char>) -> bool {
    name == "bb"@ || name == "bollinger"@ || name == "bollingerbands"@
}

/// The `k`-th `:`-separated part, if there is one.
pub open spec fn part(parts: Seq<Seq<char>>, k: int) -> Option<Seq<char>> {
    if k < parts.len() {
        Some(parts[k])
    } else {
        None
    }
}

/// What the first reading for `text` holds (`None`: not a number, or no reading).
pub open spec fn reading_for(readings: Seq<MultiplierReading>, text: Seq<char>) -> Option<
    (u64, Seq<char>),
>
    decreases readings.len(),
{
    if readings.len() == 0 {
        None
    } else if readings[0].text@ == text {
        match readings[0].value {
            Some(m) => Some(m@),
            None => None,
        }
    } else {
        reading_for(readings.drop_first(), text)
    }
}

/// The configuration `c` with `o` appended to its overlays.
pub open spec fn with_overlay(c: ConfigModel, o: OverlayModel) -> ConfigModel {
    ConfigModel { overlays: c.overlays.push(o), rsi_period: c.rsi_period }
}

/// One indicator token (trimmed and non-empty) applied to the configuration
/// built so far, or the error it raises.
pub open spec fn token_step(tok: Seq<char>, c: ConfigModel, readings: Seq<MultiplierReading>) -> Result<
    ConfigModel,
    Seq<char>,
> {
    let parts = split(tok, ':');
    let name = to_ascii_lower(parts[0]);
    if name == "sma"@ || name == "ema"@ {
        match period_result(part(parts, 1), 20, tok) {
            Err(e) => Err(e),
            Ok(p) => if parts.len() > 2 {
                Err(too_many_msg(tok))
            } else if name == "sma"@ {
                Ok(with_overlay(c, OverlayModel::Sma(p)))
            } else {
                Ok(with_overlay(c, OverlayModel::Ema(p)))
            },
        }
    } else if is_bollinger_name(name) {
        match period_result(part(parts, 1), 20, tok) {
            Err(e) => Err(e),
            Ok(p) => {
                let m = if parts.len() > 2 {
                    reading_for(readings, parts[2])
                } else {
                    Some((DEFAULT_MULTIPLIER_BITS, "2.0"@))
                };
                match m {
                    None => Err(invalid_multiplier_msg(tok)),
                    Some((bits, label)) => if float_le_zero(bits) {
                        Err(nonpositive_multiplier_msg(tok))
                    } else if parts.len() > 3 {
                        Err(too_many_msg(tok))
                    } else {
                        Ok(with_overlay(c, OverlayModel::Bollinger(p, bits, label)))
                    },
                }
            },
        }
    } else if name == "rsi"@ {
        match period_result(part(parts, 1), 14, tok) {
            Err(e) => Err(e),
            Ok(p) => if parts.len() > 2 {
                Err(too_many_msg(tok))
            } else {
                Ok(ConfigModel { overlays: c.overlays, rsi_period: Some(p) })
            },
        }
    } else {
        Err(unknown_indicator_msg(tok))
    }
}

/// The `,`-separated pieces of one argument applied in order; pieces that are
/// blank once trimmed are skipped.
pub open spec fn pieces_step(
    pieces: Seq<Seq<char>>,
    c: ConfigModel,
    readings: Seq<MultiplierReading>,
) -> Result<ConfigModel, Seq<char>>
    decreases pieces.len(),
{
    if pieces.len() == 0 {
        Ok(c)
    } else {
        let t = trim(pieces[0]);
        let r = if t.len() == 0 {
            Ok(c)
        } else {
            token_step(t, c, readings)
        };
        match r {
            Err(e) => Err(e),
            Ok(c2) => pieces_step(pieces.drop_first(), c2, readings),
        }
    }
}

/// Every argument applied in order.
pub open spec fn specs_step(
    specs: Seq<Seq<char>>,
    c: ConfigModel,
    readings: Seq<MultiplierReading>,
) -> Result<ConfigModel, Seq<char>>
    decreases specs.len(),
{
    if specs.len() == 0 {
        Ok(c)
    } else {
        match pieces_step(split(specs[0], ','), c, readings) {
            Err(e) => Err(e),
            Ok(c2) => specs_step(specs.drop_first(), c2, readings),
        }
    }
}

/// The configuration with no indicator.
pub open spec fn empty_model() -> ConfigModel {
    ConfigModel { overlays: Seq::empty(), rsi_period: None }
}

/// What `--indicators` arguments `specs` configure, given what each Bollinger
/// multiplier text was read as: the defaults when there is no argument.
pub open spec fn parse_model(specs: Seq<Seq<char>>, readings: Seq<MultiplierReading>) -> Result<
    ConfigModel,
    Seq<char>,
> {
    if specs.len() == 0 {
        Ok(default_model())
    } else {
        specs_step(specs, empty_model(), readings)
    }
}

/// A parse result taken by its model.
pub open spec fn config_result(r: Result<IndicatorConfig, String>) -> Result<ConfigModel, Seq<char>> {
    match r {
        Ok(c) => Ok(c@),
        Err(e) => Err(e@),
    }
}

/// The multiplier text of one token, if it is a Bollinger token that has one.
pub open spec fn token_multiplier_texts(tok: Seq<char>) -> Seq<Seq<char>> {
    let parts = split(tok, ':');
    if is_bollinger_name(to_ascii_lower(parts[0])) && parts.len() > 2 {
        seq![parts[2]]
    } else {
        Seq::empty()
    }
}

/// The multiplier texts of the non-blank pieces, in order.
pub open spec fn pieces_multiplier_texts(pieces: Seq<Seq<char>>) -> Seq<Seq<char>>
    decreases pieces.len(),
{
    if pieces.len() == 0 {
        Seq::empty()
    } else {
        let t = trim(pieces[0]);
        (if t.len() == 0 {
            Seq::empty()
        } else {
            token_multiplier_texts(t)
        }) + pieces_multiplier_texts(pieces.drop_first())
    }
}

/// The multiplier texts of all arguments, in order.
pub open spec fn specs_multiplier_texts(specs: Seq<Seq<char>>) -> Seq<Seq<char>>
    decreases specs.len(),
{
    if specs.len() == 0 {
        Seq::empty()
    } else {
        pieces_multiplier_texts(split(specs[0], ',')) + specs_multiplier_texts(specs.drop_first())
    }
}

} // verus!

verus! {

/// The first reading for `text`, copied.
fn find_reading(readings: &[MultiplierReading], text: &[char]) -> (r: Option<Multiplier>)
    ensures
        match r {
            Some(m) => reading_for(readings@, text@) == Some(m@),
            None => reading_for(readings@, text@) is None,
        },
{
    let mut i: usize = 0;
    assert(readings@.skip(0) =~= readings@);
    while i < readings.len()
        invariant
            i <= readings@.len(),
            reading_for(readings@, text@) == reading_for(readings@.skip(i as int), text@),
        decreases readings@.len() - i,
    {
        assert(readings@.skip(i as int).drop_first() =~= readings@.skip(i + 1));
        assert(readings@.skip(i as int)[0] == readings@[i as int]);
        let rc = chars_of(readings[i].text.as_str());
        if chars_eq(rc.as_slice(), text) {
            return match &readings[i].value {
                Some(m) => Some(Multiplier { bits: m.bits, label: m.label.clone() }),
                None => None,
            };
        }
        i = i + 1;
    }
    None
}

/// The `k`-th part as an owned string, if there is one.
fn part_string(parts: &Vec<Vec<char>>, k: usize) -> (r: Option<String>)
    ensures
        match r {
            Some(s) => k < parts@.len() && s@ == parts@[k as int]@,
            None => k >= parts@.len(),
        },
{
    if k < parts.len() {
        Some(string_from_chars(parts[k].as_slice()))
    } else {
        None
    }
}

/// Borrows the string inside an option.
fn as_str_opt(o: &Option<String>) -> (r: Option<&str>)
    ensures
        opt_view(r) == match o {
            Some(s) => Some(s@),
            None => None::<Seq<char>>,
        },
{
    match o {
        Some(s) => Some(s.as_str()),
        None => None,
    }
}

/// Applies one trimmed, non-empty indicator token to `cfg`.
fn apply_token(tok: &[char], cfg: &mut IndicatorConfig, readings: &[MultiplierReading]) -> (r: Result<
    (),
    String,
>)
    ensures
        r is Ok ==> token_step(tok@, old(cfg)@, readings@) == Ok::<ConfigModel, Seq<char>>(
            final(cfg)@,
        ),
        r matches Err(e) ==> token_step(tok@, old(cfg)@, readings@) == Err::<
            ConfigModel,
            Seq<char>,
        >(e@),
{
    let parts = split_chars(tok, ':');
    proof {
        lemma_split_nonempty(tok@, ':');
    }
    let ghost sp = split(tok@, ':');
    let ghost before = cfg.overlays@;
    let name = ascii_lowercase(parts[0].as_slice());
    let raw = string_from_chars(tok);
    let p1 = part_string(&parts, 1);
    let p2 = part_string(&parts, 2);
    let p3 = part_string(&parts, 3);
    let is_sma = chars_eq_str(name.as_slice(), "sma");
    let is_ema = chars_eq_str(name.as_slice(), "ema");
    let is_bb = chars_eq_str(name.as_slice(), "bb") || chars_eq_str(name.as_slice(), "bollinger")
        || chars_eq_str(name.as_slice(), "bollingerbands");
    let is_rsi = chars_eq_str(name.as_slice(), "rsi");
    if is_sma || is_ema {
        let period = parse_period(as_str_opt(&p1), 20, raw.as_str())?;
        ensure_no_extra(as_str_opt(&p2), raw.as_str())?;
        let o = if is_sma {
            OverlayIndicator::Sma { period }
        } else {
            OverlayIndicator::Ema { period }
        };
        let ghost om = o@;
        cfg.overlays.push(o);
        assert(overlay_models(cfg.overlays@) =~= overlay_models(before).push(om));
        Ok(())
    } else if is_bb {
        let period = parse_period(as_str_opt(&p1), 20, raw.as_str())?;
        let m = if parts.len() > 2 {
            find_reading(readings, parts[2].as_slice())
        } else {
            Some(Multiplier { bits: DEFAULT_MULTIPLIER_BITS, label: String::from_str("2.0") })
        };
        match m {
            None => Err(quoted_message("Invalid Bollinger multiplier in ", raw.as_str())),
            Some(multiplier) => {
                if float_bits_le_zero(multiplier.bits) {
                    return Err(
                        quoted_message("Bollinger multiplier must be > 0 in ", raw.as_str()),
                    );
                }
                ensure_no_extra(as_str_opt(&p3), raw.as_str())?;
                let o = OverlayIndicator::BollingerBands { period, multiplier };
                let ghost om = o@;
                cfg.overlays.push(o);
                assert(overlay_models(cfg.overlays@) =~= overlay_models(before).push(om));
                Ok(())
            },
        }
    } else if is_rsi {
        let period = parse_period(as_str_opt(&p1), 14, raw.as_str())?;
        ensure_no_extra(as_str_opt(&p2), raw.as_str())?;
        cfg.rsi_period = Some(period);
        Ok(())
    } else {
        let mut msg = quoted_message("Unknown indicator ", raw.as_str());
        msg.append(". Allowed: sma[:n], ema[:n], bb[:period[:mult]], rsi[:n]");
        Err(msg)
    }
}

} // verus!

verus! {

/// Applies the `,`-separated pieces of one argument to `cfg`.
fn apply_argument(arg: &String, cfg: &mut IndicatorConfig, readings: &[MultiplierReading]) -> (r:
    Result<(), String>)
    ensures
        r is Ok ==> pieces_step(split(arg@, ','), old(cfg)@, readings@) == Ok::<
            ConfigModel,
            Seq<char>,
        >(final(cfg)@),
        r matches Err(e) ==> pieces_step(split(arg@, ','), old(cfg)@, readings@) == Err::<
            ConfigModel,
            Seq<char>,
        >(e@),
{
    let cs = chars_of(arg.as_str());
    let pieces = split_chars(cs.as_slice(), ',');
    let ghost all = split(arg@, ',');
    let ghost start = cfg@;
    let mut i: usize = 0;
    assert(all.skip(0) =~= all);
    while i < pieces.len()
        invariant
            i <= pieces@.len(),
            pieces@.len() == all.len(),
            forall|k: int| 0 <= k < pieces@.len() ==> #[trigger] pieces@[k]@ == all[k],
            all == split(arg@, ','),
            start == old(cfg)@,
            pieces_step(all, start, readings@) == pieces_step(all.skip(i as int), cfg@, readings@),
        decreases pieces@.len() - i,
    {
        assert(all.skip(i as int).drop_first() =~= all.skip(i + 1));
        assert(all.skip(i as int)[0] == all[i as int]);
        let t = trim_chars(pieces[i].as_slice());
        if t.len() > 0 {
            let ghost c0 = cfg@;
            match apply_token(t.as_slice(), cfg, readings) {
                Ok(()) => {},
                Err(e) => {
                    assert(pieces_step(all.skip(i as int), c0, readings@) == Err::<
                        ConfigModel,
                        Seq<char>,
                    >(e@));
                    return Err(e);
                },
            }
        }
        i = i + 1;
    }
    assert(all.skip(all.len() as int) =~= Seq::<Seq<char>>::empty());
    Ok(())
}

/// The multiplier texts of the pieces of one argument, appended to `out`.
fn push_argument_texts(arg: &String, out: &mut Vec<String>)
    ensures
        views(final(out)@) == views(old(out)@) + pieces_multiplier_texts(split(arg@, ',')),
{
    let cs = chars_of(arg.as_str());
    let pieces = split_chars(cs.as_slice(), ',');
    let ghost all = split(arg@, ',');
    let ghost start = views(out@);
    let mut i: usize = 0;
    assert(all.skip(0) =~= all);
    while i < pieces.len()
        invariant
            i <= pieces@.len(),
            pieces@.len() == all.len(),
            forall|k: int| 0 <= k < pieces@.len() ==> #[trigger] pieces@[k]@ == all[k],
            start + pieces_multiplier_texts(all) == views(out@) + pieces_multiplier_texts(
                all.skip(i as int),
            ),
        decreases pieces@.len() - i,
    {
        assert(all.skip(i as int).drop_first() =~= all.skip(i + 1));
        assert(all.skip(i as int)[0] == all[i as int]);
        let t = trim_chars(pieces[i].as_slice());
        let ghost before = views(out@);
        let ghost tt = t@;
        if t.len() > 0 {
            let parts = split_chars(t.as_slice(), ':');
            proof {
                lemma_split_nonempty(tt, ':');
            }
            let name = ascii_lowercase(parts[0].as_slice());
            let is_bb = chars_eq_str(name.as_slice(), "bb") || chars_eq_str(
                name.as_slice(),
                "bollinger",
            ) || chars_eq_str(name.as_slice(), "bollingerbands");
            if is_bb && parts.len() > 2 {
                let m = string_from_chars(parts[2].as_slice());
                let ghost mv = m@;
                out.push(m);
                assert(views(out@) =~= before.push(mv));
                assert(token_multiplier_texts(tt) =~= seq![mv]);
            } else {
                assert(token_multiplier_texts(tt) =~= Seq::<Seq<char>>::empty());
            }
        }
        assert(views(out@) + pieces_multiplier_texts(all.skip(i + 1)) =~= before
            + pieces_multiplier_texts(all.skip(i as int)));
        i = i + 1;
    }
    assert(all.skip(all.len() as int) =~= Seq::<Seq<char>>::empty());
    assert(views(out@) + pieces_multiplier_texts(Seq::<Seq<char>>::empty()) =~= views(out@));
}

impl IndicatorConfig {
    /// Reads `--indicators` arguments: each is a comma-separated list of
    /// `sma[:n]`, `ema[:n]`, `bb[:period[:mult]]` (also `bollinger`,
    /// `bollingerbands`) and `rsi[:n]`, names in any ASCII case. With no
    /// argument the defaults apply. `multiplier_readings` holds, for each text
    /// of [`IndicatorConfig::multiplier_texts`], what it was read as; a text
    /// without a reading counts as one that is not a number.
    pub fn parse(indicator_specs: &[String], multiplier_readings: &[MultiplierReading]) -> (r:
        Result<IndicatorConfig, String>)
        ensures
            config_result(r) == parse_model(views(indicator_specs@), multiplier_readings@),
    {
        if indicator_specs.len() == 0 {
            let c = IndicatorConfig::default_trading_view_style();
            return Ok(c);
        }
        let ghost specs = views(indicator_specs@);
        let mut cfg = IndicatorConfig { overlays: Vec::new(), rsi_period: None };
        assert(cfg@ =~= empty_model());
        let mut i: usize = 0;
        assert(specs.skip(0) =~= specs);
        while i < indicator_specs.len()
            invariant
                i <= indicator_specs@.len(),
                specs == views(indicator_specs@),
                specs_step(specs, empty_model(), multiplier_readings@) == specs_step(
                    specs.skip(i as int),
                    cfg@,
                    multiplier_readings@,
                ),
            decreases indicator_specs@.len() - i,
        {
            assert(specs.skip(i as int).drop_first() =~= specs.skip(i + 1));
            assert(specs.skip(i as int)[0] == indicator_specs@[i as int]@);
            apply_argument(&indicator_specs[i], &mut cfg, multiplier_readings)?;
            i = i + 1;
        }
        assert(specs.skip(specs.len() as int) =~= Seq::<Seq<char>>::empty());
        Ok(cfg)
    }

    /// The Bollinger multiplier texts of `indicator_specs` (the third `:` part
    /// of each Bollinger token that has one), in order: the texts the caller
    /// reads as floats for [`IndicatorConfig::parse`].
    pub fn multiplier_texts(indicator_specs: &[String]) -> (texts: Vec<String>)
        ensures
            views(texts@) == specs_multiplier_texts(views(indicator_specs@)),
    {
        let ghost specs = views(indicator_specs@);
        let mut texts: Vec<String> = Vec::new();
        let mut i: usize = 0;
        assert(specs.skip(0) =~= specs);
        assert(views(texts@) =~= Seq::<Seq<char>>::empty());
        while i < indicator_specs.len()
            invariant
                i <= indicator_specs@.len(),
                specs == views(indicator_specs@),
                specs_multiplier_texts(specs) == views(texts@) + specs_multiplier_texts(
                    specs.skip(i as int),
                ),
            decreases indicator_specs@.len() - i,
        {
            assert(specs.skip(i as int).drop_first() =~= specs.skip(i + 1));
            assert(specs.skip(i as int)[0] == indicator_specs@[i as int]@);
            let ghost before = views(texts@);
            push_argument_texts(&indicator_specs[i], &mut texts);
            assert(views(texts@) + specs_multiplier_texts(specs.skip(i + 1)) =~= before
                + specs_multiplier_texts(specs.skip(i as int)));
            i = i + 1;
        }
        assert(specs.skip(specs.len() as int) =~= Seq::<Seq<char>>::empty());
        assert(views(texts@) + specs_multiplier_texts(Seq::<Seq<char>>::empty()) =~= views(texts@));
        texts
    }
}

} // verus!

verus! {

// ---------------------------------------------------------------------------
// Pairing computed values with their x positions
// ---------------------------------------------------------------------------

/// The pairs `(xs[i], y)` for the first `n` positions whose `ys[i]` is `Some(y)`.
pub open spec fn zip_some_prefix<T>(xs: Seq<T>, ys: Seq<Option<T>>, n: nat) -> Seq<(T, T)>
    decreases n,
{
    if n == 0 {
        Seq::empty()
    } else {
        let init = zip_some_prefix(xs, ys, (n - 1) as nat);
        match ys[n - 1] {
            Some(y) => init.push((xs[n - 1], y)),
            None => init,
        }
    }
}

/// The pairs `(xs[i], y)` for every position, up to the shorter length,
/// whose `ys[i]` is `Some(y)`, in order.
pub open spec fn zip_some<T>(xs: Seq<T>, ys: Seq<Option<T>>) -> Seq<(T, T)> {
    zip_some_prefix(xs, ys, if xs.len() < ys.len() { xs.len() } else { ys.len() })
}

/// Points of a computed series: each x with the value computed there, where
/// there is one.
pub fn zip_some_points<T: Copy>(xs: &[T], ys: &[Option<T>]) -> (points: Vec<(T, T)>)
    ensures
        points@ == zip_some(xs@, ys@),
{
    let n: usize = if xs.len() < ys.len() { xs.len() } else { ys.len() };
    let mut points: Vec<(T, T)> = Vec::new();
    let mut i: usize = 0;
    while i < n
        invariant
            i <= n,
            n <= xs@.len(),
            n <= ys@.len(),
            points@ == zip_some_prefix(xs@, ys@, i as nat),
        decreases n - i,
    {
        match ys[i] {
            Some(y) => {
                points.push((xs[i], y));
            },
            None => {},
        }
        i = i + 1;
    }
    points
}

} // verus!

verus! {

// ---------------------------------------------------------------------------
// Laws of the grammar
// ---------------------------------------------------------------------------

/// Every period is positive and no Bollinger multiplier compares `<= 0.0`.
pub open spec fn valid_model(c: ConfigModel) -> bool {
    &&& forall|i: int|
        0 <= i < c.overlays.len() ==> match #[trigger] c.overlays[i] {
            OverlayModel::Sma(p) => p > 0,
            OverlayModel::Ema(p) => p > 0,
            OverlayModel::Bollinger(p, bits, _) => p > 0 && !float_le_zero(bits),
        }
    &&& c.rsi_period matches Some(p) ==> p > 0
}

proof fn lemma_token_keeps_valid(tok: Seq<char>, c: ConfigModel, readings: Seq<MultiplierReading>)
    requires
        valid_model(c),
    ensures
        token_step(tok, c, readings) matches Ok(c2) ==> valid_model(c2),
{
    if let Ok(c2) = token_step(tok, c, readings) {
        assert forall|i: int| 0 <= i < c2.overlays.len() implies match #[trigger] c2.overlays[i] {
            OverlayModel::Sma(p) => p > 0,
            OverlayModel::Ema(p) => p > 0,
            OverlayModel::Bollinger(p, bits, _) => p > 0 && !float_le_zero(bits),
        } by {
            if i < c.overlays.len() {
                assert(c2.overlays[i] == c.overlays[i]);
            }
        }
    }
}

proof fn lemma_pieces_keep_valid(
    pieces: Seq<Seq<char>>,
    c: ConfigModel,
    readings: Seq<MultiplierReading>,
)
    requires
        valid_model(c),
    ensures
        pieces_step(pieces, c, readings) matches Ok(c2) ==> valid_model(c2),
    decreases pieces.len(),
{
    if pieces.len() > 0 {
        let t = trim(pieces[0]);
        if t.len() > 0 {
            lemma_token_keeps_valid(t, c, readings);
            if let Ok(c1) = token_step(t, c, readings) {
                lemma_pieces_keep_valid(pieces.drop_first(), c1, readings);
            }
        } else {
            lemma_pieces_keep_valid(pieces.drop_first(), c, readings);
        }
    }
}

proof fn lemma_specs_keep_valid(specs: Seq<Seq<char>>, c: ConfigModel, readings: Seq<MultiplierReading>)
    requires
        valid_model(c),
    ensures
        specs_step(specs, c, readings) matches Ok(c2) ==> valid_model(c2),
    decreases specs.len(),
{
    if specs.len() > 0 {
        lemma_pieces_keep_valid(split(specs[0], ','), c, readings);
        if let Ok(c1) = pieces_step(split(specs[0], ','), c, readings) {
            lemma_specs_keep_valid(specs.drop_first(), c1, readings);
        }
    }
}

/// Whatever the arguments and readings, a configuration that parses has only
/// positive periods and only multipliers that do not compare `<= 0.0`.
pub proof fn lemma_parsed_config_is_valid(specs: Seq<Seq<char>>, readings: Seq<MultiplierReading>)
    ensures
        parse_model(specs, readings) matches Ok(c) ==> valid_model(c),
{
    if specs.len() == 0 {
        assert(valid_model(default_model()));
    } else {
        lemma_specs_keep_valid(specs, empty_model(), readings);
    }
}

/// Two reading tables give the same for each of `texts`.
pub open spec fn readings_agree(
    r1: Seq<MultiplierReading>,
    r2: Seq<MultiplierReading>,
    texts: Seq<Seq<char>>,
) -> bool {
    forall|k: int| 0 <= k < texts.len() ==> reading_for(r1, #[trigger] texts[k]) == reading_for(r2, texts[k])
}

proof fn lemma_agree_split(
    r1: Seq<MultiplierReading>,
    r2: Seq<MultiplierReading>,
    a: Seq<Seq<char>>,
    b: Seq<Seq<char>>,
)
    requires
        readings_agree(r1, r2, a + b),
    ensures
        readings_agree(r1, r2, a),
        readings_agree(r1, r2, b),
{
    assert forall|k: int| 0 <= k < a.len() implies reading_for(r1, #[trigger] a[k]) == reading_for(
        r2,
        a[k],
    ) by {
        assert((a + b)[k] == a[k]);
    }
    assert forall|k: int| 0 <= k < b.len() implies reading_for(r1, #[trigger] b[k]) == reading_for(
        r2,
        b[k],
    ) by {
        assert((a + b)[a.len() + k] == b[k]);
    }
}

proof fn lemma_pieces_local(
    pieces: Seq<Seq<char>>,
    c: ConfigModel,
    r1: Seq<MultiplierReading>,
    r2: Seq<MultiplierReading>,
)
    requires
        readings_agree(r1, r2, pieces_multiplier_texts(pieces)),
    ensures
        pieces_step(pieces, c, r1) == pieces_step(pieces, c, r2),
    decreases pieces.len(),
{
    if pieces.len() > 0 {
        let t = trim(pieces[0]);
        let first: Seq<Seq<char>> = if t.len() == 0 {
            Seq::empty()
        } else {
            token_multiplier_texts(t)
        };
        lemma_agree_split(r1, r2, first, pieces_multiplier_texts(pieces.drop_first()));
        if t.len() > 0 {
            let parts = split(t, ':');
            if parts.len() > 2 && is_bollinger_name(to_ascii_lower(parts[0])) {
                assert(first[0] == parts[2]);
            }
            assert(token_step(t, c, r1) == token_step(t, c, r2));
            if let Ok(c1) = token_step(t, c, r1) {
                lemma_pieces_local(pieces.drop_first(), c1, r1, r2);
            }
        } else {
            lemma_pieces_local(pieces.drop_first(), c, r1, r2);
        }
    }
}

proof fn lemma_specs_local(
    specs: Seq<Seq<char>>,
    c: ConfigModel,
    r1: Seq<MultiplierReading>,
    r2: Seq<MultiplierReading>,
)
    requires
        readings_agree(r1, r2, specs_multiplier_texts(specs)),
    ensures
        specs_step(specs, c, r1) == specs_step(specs, c, r2),
    decreases specs.len(),
{
    if specs.len() > 0 {
        lemma_agree_split(
            r1,
            r2,
            pieces_multiplier_texts(split(specs[0], ',')),
            specs_multiplier_texts(specs.drop_first()),
        );
        lemma_pieces_local(split(specs[0], ','), c, r1, r2);
        if let Ok(c1) = pieces_step(split(specs[0], ','), c, r1) {
            lemma_specs_local(specs.drop_first(), c1, r1, r2);
        }
    }
}

/// What the arguments parse to depends on the multiplier readings only
/// through the texts that [`IndicatorConfig::multiplier_texts`] lists: two
/// tables that read those texts alike give the same result.
pub proof fn lemma_parse_reads_only_listed_texts(
    specs: Seq<Seq<char>>,
    r1: Seq<MultiplierReading>,
    r2: Seq<MultiplierReading>,
)
    requires
        readings_agree(r1, r2, specs_multiplier_texts(specs)),
    ensures
        parse_model(specs, r1) == parse_model(specs, r2),
{
    if specs.len() > 0 {
        lemma_specs_local(specs, empty_model(), r1, r2);
    }
}

} // verus!

verus! {

proof fn reveal_indicator_names()
    ensures
        "sma"@ =~= seq!['s', 'm', 'a'],
        "ema"@ =~= seq!['e', 'm', 'a'],
        "rsi"@ =~= seq!['r', 's', 'i'],
        "bb"@ =~= seq!['b', 'b'],
        "bollinger"@ =~= seq!['b', 'o', 'l', 'l', 'i', 'n', 'g', 'e', 'r'],
        "bollingerbands"@ =~= seq!['b', 'o', 'l', 'l', 'i', 'n', 'g', 'e', 'r', 'b', 'a', 'n', 'd', 's'],
{
    reveal_strlit("sma");
    reveal_strlit("ema");
    reveal_strlit("rsi");
    reveal_strlit("bb");
    reveal_strlit("bollinger");
    reveal_strlit("bollingerbands");
}

/// An indicator name of the grammar, in any ASCII case.
pub open spec fn is_indicator_name(w: Seq<char>) -> bool {
    let l = to_ascii_lower(w);
    l == "sma"@ || l == "ema"@ || l == "rsi"@ || is_bollinger_name(l)
}

/// An indicator name is made of ASCII letters, so it holds no `:`, no `,`
/// and no white space.
proof fn lemma_indicator_name_letters(w: Seq<char>)
    requires
        is_indicator_name(w),
    ensures
        all_ascii_letters(w),
        w.len() > 0,
        forall|k: int| 0 <= k < w.len() ==> w[k] != ':' && w[k] != ',',
{
    reveal_indicator_names();
    let l = to_ascii_lower(w);
    assert(l.len() == w.len());
    assert(forall|k: int| 0 <= k < l.len() ==> 'a' <= #[trigger] l[k] && l[k] <= 'z');
    lemma_lower_letters(w);
}

/// What a name without parameters adds: SMA, EMA and Bollinger bands take
/// period 20 (the bands with multiplier 2.0), RSI takes period 14 and replaces
/// any earlier RSI period; the name's ASCII case does not matter.
pub proof fn lemma_bare_name_defaults(w: Seq<char>, c: ConfigModel, readings: Seq<MultiplierReading>)
    requires
        is_indicator_name(w),
    ensures
        to_ascii_lower(w) == "sma"@ ==> token_step(w, c, readings) == Ok::<ConfigModel, Seq<char>>(
            ConfigModel { overlays: c.overlays.push(OverlayModel::Sma(20)), rsi_period: c.rsi_period },
        ),
        to_ascii_lower(w) == "ema"@ ==> token_step(w, c, readings) == Ok::<ConfigModel, Seq<char>>(
            ConfigModel { overlays: c.overlays.push(OverlayModel::Ema(20)), rsi_period: c.rsi_period },
        ),
        is_bollinger_name(to_ascii_lower(w)) ==> token_step(w, c, readings) == Ok::<
            ConfigModel,
            Seq<char>,
        >(
            ConfigModel {
                overlays: c.overlays.push(
                    OverlayModel::Bollinger(20, 0x4000_0000_0000_0000u64, "2.0"@),
                ),
                rsi_period: c.rsi_period,
            },
        ),
        to_ascii_lower(w) == "rsi"@ ==> token_step(w, c, readings) == Ok::<ConfigModel, Seq<char>>(
            ConfigModel { overlays: c.overlays, rsi_period: Some(14) },
        ),
{
    reveal_indicator_names();
    lemma_indicator_name_letters(w);
    lemma_split_without_separator(w, ':');
    assert(part(split(w, ':'), 1) == None::<Seq<char>>);
    assert(!float_le_zero(0x4000_0000_0000_0000u64));
}

/// A name with a positive integer period `n` (`sma:n`, `ema:n`, `bb:n`,
/// `rsi:n`, in any ASCII case) sets exactly that period; the bands keep the
/// multiplier 2.0.
pub proof fn lemma_name_with_period(
    w: Seq<char>,
    n: Seq<char>,
    v: nat,
    c: ConfigModel,
    readings: Seq<MultiplierReading>,
)
    requires
        is_indicator_name(w),
        parse_unsigned(n, usize::MAX as nat) == Some(v),
        v > 0,
    ensures
        to_ascii_lower(w) == "sma"@ ==> token_step(w + seq![':'] + n, c, readings) == Ok::<
            ConfigModel,
            Seq<char>,
        >(
            ConfigModel {
                overlays: c.overlays.push(OverlayModel::Sma(v as usize)),
                rsi_period: c.rsi_period,
            },
        ),
        to_ascii_lower(w) == "ema"@ ==> token_step(w + seq![':'] + n, c, readings) == Ok::<
            ConfigModel,
            Seq<char>,
        >(
            ConfigModel {
                overlays: c.overlays.push(OverlayModel::Ema(v as usize)),
                rsi_period: c.rsi_period,
            },
        ),
        is_bollinger_name(to_ascii_lower(w)) ==> token_step(w + seq![':'] + n, c, readings) == Ok::<
            ConfigModel,
            Seq<char>,
        >(
            ConfigModel {
                overlays: c.overlays.push(
                    OverlayModel::Bollinger(v as usize, 0x4000_0000_0000_0000u64, "2.0"@),
                ),
                rsi_period: c.rsi_period,
            },
        ),
        to_ascii_lower(w) == "rsi"@ ==> token_step(w + seq![':'] + n, c, readings) == Ok::<
            ConfigModel,
            Seq<char>,
        >(ConfigModel { overlays: c.overlays, rsi_period: Some(v as usize) }),
{
    reveal_indicator_names();
    lemma_indicator_name_letters(w);
    lemma_split_without_separator(w, ':');
    assert forall|k: int| 0 <= k < n.len() implies n[k] != ':' by {
        let body = unsigned_body(n);
        if n.len() > 0 && n[0] == '+' {
            if k > 0 {
                assert(body[k - 1] == n[k]);
                assert(is_digit(body[k - 1]));
            }
        } else {
            assert(is_digit(body[k]));
        }
    }
    lemma_split_without_separator(n, ':');
    lemma_split_concat(w, n, ':');
    let tok = w + seq![':'] + n;
    assert(split(tok, ':') =~= seq![w, n]);
    assert(tok.take(0) =~= Seq::<char>::empty());
    assert(split(tok, ':')[0] == w);
    assert(part(split(tok, ':'), 1) == Some(n));
    assert(!float_le_zero(0x4000_0000_0000_0000u64));
}

/// A single argument that is just an indicator name configures that
/// indicator alone with its default period.
pub proof fn lemma_single_name_argument(w: Seq<char>, readings: Seq<MultiplierReading>)
    requires
        is_indicator_name(w),
    ensures
        to_ascii_lower(w) == "sma"@ ==> parse_model(seq![w], readings) == Ok::<ConfigModel, Seq<char>>(
            ConfigModel { overlays: seq![OverlayModel::Sma(20)], rsi_period: None },
        ),
        to_ascii_lower(w) == "ema"@ ==> parse_model(seq![w], readings) == Ok::<ConfigModel, Seq<char>>(
            ConfigModel { overlays: seq![OverlayModel::Ema(20)], rsi_period: None },
        ),
        is_bollinger_name(to_ascii_lower(w)) ==> parse_model(seq![w], readings) == Ok::<
            ConfigModel,
            Seq<char>,
        >(
            ConfigModel {
                overlays: seq![OverlayModel::Bollinger(20, 0x4000_0000_0000_0000u64, "2.0"@)],
                rsi_period: None,
            },
        ),
        to_ascii_lower(w) == "rsi"@ ==> parse_model(seq![w], readings) == Ok::<ConfigModel, Seq<char>>(
            ConfigModel { overlays: Seq::empty(), rsi_period: Some(14) },
        ),
{
    lemma_indicator_name_letters(w);
    lemma_split_without_separator(w, ',');
    lemma_trim_letters(w);
    lemma_bare_name_defaults(w, empty_model(), readings);
    let specs = seq![w];
    assert(specs[0] == w);
    assert(specs.drop_first() =~= Seq::<Seq<char>>::empty());
    let pieces = split(w, ',');
    assert(pieces[0] == w);
    assert(pieces.drop_first() =~= Seq::<Seq<char>>::empty());
    if let Ok(c1) = token_step(w, empty_model(), readings) {
        assert(pieces_step(pieces.drop_first(), c1, readings) == Ok::<ConfigModel, Seq<char>>(c1));
        assert(pieces_step(pieces, empty_model(), readings) == Ok::<ConfigModel, Seq<char>>(c1));
        assert(specs_step(specs.drop_first(), c1, readings) == Ok::<ConfigModel, Seq<char>>(c1));
        assert(parse_model(specs, readings) == Ok::<ConfigModel, Seq<char>>(c1));
        let l = to_ascii_lower(w);
        if l == "sma"@ {
            assert(c1 =~= ConfigModel { overlays: seq![OverlayModel::Sma(20)], rsi_period: None });
        } else if l == "ema"@ {
            assert(c1 =~= ConfigModel { overlays: seq![OverlayModel::Ema(20)], rsi_period: None });
        } else if is_bollinger_name(l) {
            assert(c1 =~= ConfigModel {
                overlays: seq![OverlayModel::Bollinger(20, 0x4000_0000_0000_0000u64, "2.0"@)],
                rsi_period: None,
            });
        } else {
            assert(c1 =~= ConfigModel { overlays: Seq::empty(), rsi_period: Some(14) });
        }
    }
}

} // verus!

verus! {

proof fn reveal_description_words()
    ensures
        "none"@ =~= seq!['n', 'o', 'n', 'e'],
        "SMA("@ =~= seq!['S', 'M', 'A', '('],
        "EMA("@ =~= seq!['E', 'M', 'A', '('],
        "BB("@ =~= seq!['B', 'B', '('],
        "RSI("@ =~= seq!['R', 'S', 'I', '('],
        ")"@ =~= seq![')'],
        ", "@ =~= seq![',', ' '],
{
    reveal_strlit("none");
    reveal_strlit("SMA(");
    reveal_strlit("EMA(");
    reveal_strlit("BB(");
    reveal_strlit("RSI(");
    reveal_strlit(")");
    reveal_strlit(", ");
}

/// A configuration with only `o` as overlay and no RSI.
pub open spec fn only_overlay(o: OverlayModel) -> ConfigModel {
    ConfigModel { overlays: seq![o], rsi_period: None }
}

/// A lone overlay is described by its kind, its period in decimal and, for
/// Bollinger bands, the multiplier's label.
pub proof fn lemma_single_overlay_description(p: usize, bits: u64, label: Seq<char>)
    ensures
        description(only_overlay(OverlayModel::Sma(p))) == "SMA("@ + decimal(p as nat) + ")"@,
        description(only_overlay(OverlayModel::Ema(p))) == "EMA("@ + decimal(p as nat) + ")"@,
        description(only_overlay(OverlayModel::Bollinger(p, bits, label))) == "BB("@ + decimal(
            p as nat,
        ) + ", "@ + label + ")"@,
{
    let os = seq![OverlayModel::Sma(p), OverlayModel::Ema(p), OverlayModel::Bollinger(p, bits, label)];
    assert(description_parts(only_overlay(os[0])) =~= seq![overlay_description(os[0])]);
    assert(description_parts(only_overlay(os[1])) =~= seq![overlay_description(os[1])]);
    assert(description_parts(only_overlay(os[2])) =~= seq![overlay_description(os[2])]);
}

/// The description is `none` exactly when there is no overlay and no RSI.
pub proof fn lemma_description_none_iff_empty(c: ConfigModel)
    ensures
        description(c) == "none"@ <==> (c.overlays.len() == 0 && c.rsi_period is None),
{
    reveal_description_words();
    let parts = description_parts(c);
    if c.overlays.len() == 0 && c.rsi_period is None {
        assert(parts =~= Seq::<Seq<char>>::empty());
    } else {
        assert(parts.len() > 0);
        let first = parts[0];
        if c.overlays.len() > 0 {
            assert(first == overlay_description(c.overlays[0]));
        } else {
            assert(first == "RSI("@ + decimal(c.rsi_period->0 as nat) + ")"@);
        }
        assert(first.len() > 0 && first[0] != 'n');
        lemma_join_starts_with_first(parts, ", "@);
        assert(description(c).take(first.len() as int)[0] == first[0]);
        assert(description(c) != "none"@);
    }
}

/// With an RSI period `n`, the description ends with `RSI(n)`, and is just
/// `RSI(n)` when there is no overlay.
pub proof fn lemma_description_ends_with_rsi(c: ConfigModel, n: usize)
    requires
        c.rsi_period == Some(n),
    ensures
        has_suffix(description(c), "RSI("@ + decimal(n as nat) + ")"@),
        c.overlays.len() == 0 ==> description(c) == "RSI("@ + decimal(n as nat) + ")"@,
{
    let parts = description_parts(c);
    assert(parts.last() == "RSI("@ + decimal(n as nat) + ")"@);
    lemma_join_ends_with_last(parts, ", "@);
    if c.overlays.len() == 0 {
        assert(parts =~= seq!["RSI("@ + decimal(n as nat) + ")"@]);
    }
}

/// Adding an overlay to a configuration that has overlays and no RSI appends
/// `, ` and the overlay's own description.
pub proof fn lemma_description_appends_overlay(c: ConfigModel, o: OverlayModel)
    requires
        c.overlays.len() > 0,
        c.rsi_period is None,
    ensures
        description(with_overlay(c, o)) == description(c) + ", "@ + description(only_overlay(o)),
{
    let p = description_parts(c);
    let q = description_parts(with_overlay(c, o));
    assert(q =~= p.push(overlay_description(o)));
    assert(q.drop_last() =~= p);
    assert(description_parts(only_overlay(o)) =~= seq![overlay_description(o)]);
}

/// Giving an RSI period to a configuration that has overlays and no RSI
/// appends `, RSI(n)`.
pub proof fn lemma_description_appends_rsi(c: ConfigModel, n: usize)
    requires
        c.overlays.len() > 0,
        c.rsi_period is None,
    ensures
        description(ConfigModel { overlays: c.overlays, rsi_period: Some(n) }) == description(c)
            + ", "@ + "RSI("@ + decimal(n as nat) + ")"@,
{
    let p = description_parts(c);
    let q = description_parts(ConfigModel { overlays: c.overlays, rsi_period: Some(n) });
    assert(q =~= p.push("RSI("@ + decimal(n as nat) + ")"@));
    assert(q.drop_last() =~= p);
}

} // verus!

verus! {

/// A period written in decimal is read as itself, and an absent period is the
/// default, whenever these are positive.
pub proof fn lemma_period_reads_decimal(v: usize, default: usize, raw: Seq<char>)
    ensures
        v > 0 ==> period_result(Some(decimal(v as nat)), default, raw) == Ok::<usize, Seq<char>>(v),
        default > 0 ==> period_result(None, default, raw) == Ok::<usize, Seq<char>>(default),
        period_result(Some(decimal(0)), default, raw) is Err,
{
    lemma_decimal_parses_back(v as nat, usize::MAX as nat);
    lemma_decimal_parses_back(0, usize::MAX as nat);
}

/// The pairs of x values and optional values over the common length.
pub open spec fn paired<T>(xs: Seq<T>, ys: Seq<Option<T>>) -> Seq<(T, Option<T>)> {
    Seq::new(
        if xs.len() < ys.len() { xs.len() } else { ys.len() },
        |i: int| (xs[i], ys[i]),
    )
}

proof fn lemma_zip_prefix_filters<T>(xs: Seq<T>, ys: Seq<Option<T>>, n: nat)
    requires
        n <= xs.len(),
        n <= ys.len(),
    ensures
        zip_some_prefix(xs, ys, n) == Seq::new(n, |i: int| (xs[i], ys[i])).filter(
            |p: (T, Option<T>)| p.1 is Some,
        ).map_values(|p: (T, Option<T>)| (p.0, p.1->0)),
    decreases n,
{
    reveal(Seq::filter);
    let pred = |p: (T, Option<T>)| p.1 is Some;
    let f = |p: (T, Option<T>)| (p.0, p.1->0);
    let s = Seq::new(n, |i: int| (xs[i], ys[i]));
    if n == 0 {
        assert(s.filter(pred) =~= Seq::<(T, Option<T>)>::empty());
        assert(s.filter(pred).map_values(f) =~= Seq::<(T, T)>::empty());
    } else {
        lemma_zip_prefix_filters(xs, ys, (n - 1) as nat);
        let s1 = Seq::new((n - 1) as nat, |i: int| (xs[i], ys[i]));
        assert(s.drop_last() =~= s1);
        assert(s.last() == (xs[n - 1], ys[n - 1]));
        let sub = s1.filter(pred);
        if pred(s.last()) {
            assert(sub.push(s.last()).map_values(f) =~= sub.map_values(f).push(f(s.last())));
        }
    }
}

/// Every position with a computed value, and only those, gives the point
/// (x, value), in order, up to the shorter of the two series.
pub proof fn lemma_zip_keeps_every_computed_value<T>(xs: Seq<T>, ys: Seq<Option<T>>)
    ensures
        zip_some(xs, ys) == paired(xs, ys).filter(|p: (T, Option<T>)| p.1 is Some).map_values(
            |p: (T, Option<T>)| (p.0, p.1->0),
        ),
{
    let n = if xs.len() < ys.len() { xs.len() } else { ys.len() };
    lemma_zip_prefix_filters(xs, ys, n);
}

} // verus!
