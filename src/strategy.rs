//! The opportunity decision engine.

use vstd::prelude::*;

use crate::amount::{parse_signed_amount, signed_amount_of, AMOUNT_LIMIT, AMOUNT_SCALE};
use crate::cex::{AssetReference, CexReferences};
use crate::config::Config;
use crate::format::{fixed_text, int_text, push_fixed, push_int};
use crate::lag::{
    direction_of, direction_text, direction_word, logistic_argument, model_yes,
    model_yes_probability, opt_string, parse_direction, parse_strike, strike_of, Direction,
    LogisticArgument,
};
use crate::models::{
    mentions_btc, names_any_asset, primary_asset_of, seconds_between, seconds_until, Market,
    OrderRequest, Side, UtcTime,
};
use crate::text::{chars_of, push_text, string_of};

verus! {

/// Lower edge of the near-certain ask band: 0.90.
pub const BAND_LOW: i64 = 90_000_000;

/// Upper edge of the near-certain ask band: 0.97.
pub const BAND_HIGH: i64 = 97_000_000;

/// Markets closing within this many seconds may take the fast path.
pub const FAST_WINDOW_SECS: i64 = 60;

/// Whether `pattern` is a valid regular expression.
pub uninterp spec fn regex_compiles(pattern: Seq<char>) -> bool;

/// Whether the regular expression `pattern` matches somewhere in `text`.
pub uninterp spec fn regex_finds(pattern: Seq<char>, text: Seq<char>) -> bool;

/// Relies on `regex::Regex::new`: it returns `Ok` exactly when the pattern
/// is a valid expression, which depends on the pattern alone.
#[verifier::external_body]
fn pattern_compiles(pattern: &str) -> (r: bool)
    ensures
        r == regex_compiles(pattern@),
{
    regex::Regex::new(pattern).is_ok()
}

/// Relies on `regex::Regex::new` and `regex::Regex::is_match`: whether the
/// compiled pattern matches anywhere in `text`.
#[verifier::external_body]
fn pattern_finds(pattern: &str, text: &str) -> (r: bool)
    requires
        regex_compiles(pattern@),
    ensures
        r == regex_finds(pattern@, text@),
{
    match regex::Regex::new(pattern) {
        Ok(re) => re.is_match(text),
        Err(_) => false,
    }
}

/// Why a market was passed over, for the first filter it failed.
#[derive(Clone, Copy, Debug, PartialEq, Eq, Structural)]
pub enum SkipReason {
    NotBtcRelated,
    NotCryptoRelated,
    NotInterval,
    AlreadyClosed,
    MissingPrice,
    LagBelowThreshold,
    NotQualified,
}

/// What the lag model needs of a market, short of its probability.
#[derive(Clone, Debug)]
pub struct LagInputs {
    pub asset: String,
    pub direction: Direction,
    pub strike: i64,
    pub reference_price: i64,
    pub argument: LogisticArgument,
}

/// The lag signal: the model's YES probability against the market's.
#[derive(Clone, Debug)]
pub struct LagSignal {
    pub asset: String,
    pub direction: Direction,
    pub strike: i64,
    pub reference_price: i64,
    pub model_yes_prob: i64,
    pub kalshi_yes_prob: i64,
    pub lag: i64,
    pub abs_lag: i64,
}

/// A qualifying market and the orders it calls for.
#[derive(Clone, Debug)]
pub struct Decision {
    pub market: Market,
    pub orders: Vec<OrderRequest>,
    pub reason: String,
}

/// The pattern used when the configured one is not a valid expression.
pub fn default_interval_pattern() -> (r: &'static str)
    ensures
        r@ == default_pattern_text(),
{
    "(?i)\\b15\\s?m(in(ute)?)?\\b"
}

pub open spec fn default_pattern_text() -> Seq<char> {
    "(?i)\\b15\\s?m(in(ute)?)?\\b"@
}

/// The interval pattern in force: the configured one when it compiles,
/// else the default.
pub open spec fn effective_pattern(configured: Seq<char>) -> Seq<char> {
    if regex_compiles(configured) {
        configured
    } else {
        default_pattern_text()
    }
}

/// The pattern matches the title, the subtitle or the event ticker.
pub open spec fn interval_hit(pattern: Seq<char>, m: Market) -> bool {
    &&& regex_compiles(pattern)
    &&& {
        ||| regex_finds(pattern, m.title@)
        ||| (m.subtitle matches Some(s) && regex_finds(pattern, s@))
        ||| (m.event_ticker matches Some(e) && regex_finds(pattern, e@))
    }
}

pub open spec fn ask_of(s: Option<String>) -> Option<int> {
    match s {
        Some(t) => signed_amount_of(t@),
        None => None,
    }
}

pub open spec fn in_band(p: int) -> bool {
    BAND_LOW <= p <= BAND_HIGH
}

/// Fast qualification: close within the window and a side in band.
pub open spec fn fast_path(ttl: int, yes: int, no: int) -> bool {
    ttl < FAST_WINDOW_SECS && (in_band(yes) || in_band(no))
}

pub open spec fn reference_of(refs: Option<&CexReferences>, asset: Seq<char>) -> Option<
    &AssetReference,
> {
    match refs {
        Some(rs) => rs.lookup(asset),
        None => None,
    }
}

/// Asset, direction, strike and reference price of a market that the lag
/// model can price.
pub open spec fn lag_basis(config: &Config, m: Market, refs: Option<&CexReferences>) -> Option<
    (Seq<char>, Direction, int, int),
> {
    if !config.enable_cex_lag_scan {
        None
    } else {
        match primary_asset_of(m.haystack_text()) {
            None => None,
            Some(a) => match reference_of(refs, a) {
                None => None,
                Some(rf) => if rf.quotes@.len() < config.cex_lag_min_sources {
                    None
                } else {
                    match (
                        direction_of(direction_text(m.title@, opt_string(m.subtitle))),
                        strike_of(m.title@, opt_string(m.subtitle)),
                    ) {
                        (Some(d), Some(k)) => Some((a, d, k, rf.reference_price as int)),
                        _ => None,
                    }
                },
            },
        }
    }
}

/// Whether the market has a lag signal whose size reaches the threshold.
pub open spec fn strong_signal(
    config: &Config,
    m: Market,
    refs: Option<&CexReferences>,
    above: Option<i64>,
    yes: int,
) -> bool {
    match (lag_basis(config, m, refs), above) {
        (Some(b), Some(p)) => {
            let lag = model_yes(b.1, p as int) - yes;
            (if lag < 0 {
                -lag
            } else {
                lag
            }) >= config.cex_lag_threshold
        },
        _ => false,
    }
}

/// The first filter that the market fails, or `None` when it qualifies.
pub open spec fn skip_of(
    config: &Config,
    now: UtcTime,
    m: Market,
    hit: bool,
    refs: Option<&CexReferences>,
    above: Option<i64>,
) -> Option<SkipReason> {
    let h = m.haystack_text();
    let ttl = seconds_between(now, m.close_time);
    if config.btc_only && !mentions_btc(h) {
        Some(SkipReason::NotBtcRelated)
    } else if config.crypto_only && !names_any_asset(h, config.crypto_assets@) {
        Some(SkipReason::NotCryptoRelated)
    } else if !hit {
        Some(SkipReason::NotInterval)
    } else if ttl < 0 {
        Some(SkipReason::AlreadyClosed)
    } else {
        match (ask_of(m.yes_ask_dollars), ask_of(m.no_ask_dollars)) {
            (Some(y), Some(n)) => if config.cex_lag_require_signal && config.enable_cex_lag_scan
                && !strong_signal(config, m, refs, above, y) {
                Some(SkipReason::LagBelowThreshold)
            } else if !fast_path(ttl, y, n) && y + n >= config.combined_max_price {
                Some(SkipReason::NotQualified)
            } else {
                None
            },
            _ => Some(SkipReason::MissingPrice),
        }
    }
}

/// The sides to order: on the fast path each side in band, else both.
pub open spec fn planned_sides(ttl: int, yes: int, no: int) -> Seq<Side> {
    if fast_path(ttl, yes, no) {
        (if in_band(yes) {
            seq![Side::Yes]
        } else {
            Seq::empty()
        }) + (if in_band(no) {
            seq![Side::No]
        } else {
            Seq::empty()
        })
    } else {
        seq![Side::Yes, Side::No]
    }
}

pub open spec fn head_text(ttl: int, yes: int, no: int) -> Seq<char> {
    if fast_path(ttl, yes, no) {
        "TTL "@ + int_text(ttl) + "s with YES "@ + fixed_text(yes, 4) + " / NO "@ + fixed_text(
            no,
            4,
        ) + " in 0.90-0.97 band (single-side)"@
    } else {
        "YES "@ + fixed_text(yes, 4) + " + NO "@ + fixed_text(no, 4) + " = "@ + fixed_text(
            yes + no,
            4,
        ) + " within "@ + int_text(ttl) + "s of close"@
    }
}

pub open spec fn lag_text(
    asset: Seq<char>,
    d: Direction,
    strike: int,
    model: int,
    kalshi: int,
) -> Seq<char> {
    " | CEX lag "@ + asset + " "@ + direction_word(d) + " strike "@ + fixed_text(strike, 2)
        + ": model_yes "@ + fixed_text(model, 3) + " vs kalshi_yes "@ + fixed_text(kalshi, 3)
        + " (lag "@ + fixed_text(model - kalshi, 3) + ")"@
}

/// The reason text of a qualifying market.
pub open spec fn reason_text(
    config: &Config,
    ttl: int,
    m: Market,
    refs: Option<&CexReferences>,
    above: Option<i64>,
    yes: int,
    no: int,
) -> Seq<char> {
    head_text(ttl, yes, no) + match (lag_basis(config, m, refs), above) {
        (Some(b), Some(p)) => lag_text(b.0, b.1, b.2, model_yes(b.1, p as int), yes),
        _ => Seq::empty(),
    }
}

pub open spec fn order_for(o: OrderRequest, m: Market, side: Side, yes: int, no: int, qty: i64) -> bool {
    &&& o.ticker@ == m.ticker@
    &&& o.side == side
    &&& o.price_dollars == (if side == Side::Yes {
        yes
    } else {
        no
    })
    &&& o.quantity == qty
}

/// `d` is the decision that the engine makes for qualifying market `m`.
pub open spec fn decision_for(
    d: Decision,
    config: &Config,
    now: UtcTime,
    m: Market,
    refs: Option<&CexReferences>,
    above: Option<i64>,
) -> bool {
    let ttl = seconds_between(now, m.close_time);
    match (ask_of(m.yes_ask_dollars), ask_of(m.no_ask_dollars)) {
        (Some(y), Some(n)) => {
            let sides = planned_sides(ttl, y, n);
            &&& d.market == m
            &&& d.orders@.len() == sides.len()
            &&& forall|k: int|
                0 <= k < sides.len() ==> order_for(
                    #[trigger] d.orders@[k],
                    m,
                    sides[k],
                    y,
                    n,
                    config.order_count,
                )
            &&& d.reason@ == reason_text(config, ttl, m, refs, above, y, n)
        },
        _ => false,
    }
}

pub open spec fn above_in_range(above: Option<i64>) -> bool {
    above matches Some(p) ==> 0 <= p <= AMOUNT_SCALE
}

fn subtitle_str(m: &Market) -> (r: Option<&str>)
    ensures
        crate::lag::opt_view(r) == opt_string(m.subtitle),
{
    match &m.subtitle {
        Some(s) => Some(s.as_str()),
        None => None,
    }
}

/// The lag model's inputs for a market, when it can price the market.
pub fn compute_lag_inputs(config: &Config, market: &Market, cex_refs: Option<&CexReferences>) -> (r:
    Option<LagInputs>)
    ensures
        match lag_basis(config, *market, cex_refs) {
            Some(b) => r matches Some(x) && x.asset@ == b.0 && x.direction == b.1 && x.strike
                == b.2 && x.reference_price == b.3 && x.argument.numerator
                == crate::lag::logit_numerator(b.3, b.2) && x.argument.denominator
                == crate::lag::logit_denominator(b.0, b.2),
            None => r is None,
        },
{
    if !config.enable_cex_lag_scan {
        return None;
    }
    let asset = match market.primary_asset() {
        Some(a) => a,
        None => return None,
    };
    let reference = match cex_refs {
        Some(rs) => match rs.get(asset) {
            Some(x) => x,
            None => return None,
        },
        None => return None,
    };
    if reference.quotes.len() < config.cex_lag_min_sources {
        return None;
    }
    let sub = subtitle_str(market);
    let direction = match parse_direction(market.title.as_str(), sub) {
        Some(d) => d,
        None => return None,
    };
    let strike = match parse_strike(market.title.as_str(), sub) {
        Some(k) => k,
        None => return None,
    };
    let argument = logistic_argument(asset, reference.reference_price, strike);
    Some(
        LagInputs {
            asset: string_of(&chars_of(asset)),
            direction,
            strike,
            reference_price: reference.reference_price,
            argument,
        },
    )
}

/// The lag signal of a market, from its lag inputs, the model's
/// probability of "above" and the market's YES ask.
pub fn compute_cex_lag_signal(inputs: &LagInputs, above_prob: i64, kalshi_yes_prob: i64) -> (r:
    LagSignal)
    requires
        0 <= above_prob <= AMOUNT_SCALE,
        -AMOUNT_LIMIT < kalshi_yes_prob < AMOUNT_LIMIT,
    ensures
        r.asset@ == inputs.asset@,
        r.direction == inputs.direction,
        r.strike == inputs.strike,
        r.reference_price == inputs.reference_price,
        r.model_yes_prob == model_yes(inputs.direction, above_prob as int),
        r.kalshi_yes_prob == kalshi_yes_prob,
        r.lag == r.model_yes_prob - kalshi_yes_prob,
        r.abs_lag == (if r.lag < 0 {
            -r.lag
        } else {
            r.lag as int
        }),
{
    let model = model_yes_probability(inputs.direction, above_prob);
    let lag = model - kalshi_yes_prob;
    let abs_lag = if lag < 0 {
        -lag
    } else {
        lag
    };
    LagSignal {
        asset: string_of(&chars_of(inputs.asset.as_str())),
        direction: inputs.direction,
        strike: inputs.strike,
        reference_price: inputs.reference_price,
        model_yes_prob: model,
        kalshi_yes_prob,
        lag,
        abs_lag,
    }
}

fn parse_ask(s: &Option<String>) -> (r: Option<i64>)
    ensures
        match r {
            Some(v) => ask_of(*s) == Some(v as int) && -AMOUNT_LIMIT < v < AMOUNT_LIMIT,
            None => ask_of(*s) is None,
        },
{
    match s {
        Some(t) => parse_signed_amount(&chars_of(t.as_str())),
        None => None,
    }
}

fn build_reason(
    ttl: i64,
    yes: i64,
    no: i64,
    fast: bool,
    signal: &Option<LagSignal>,
) -> (r: String)
    requires
        -AMOUNT_LIMIT < yes < AMOUNT_LIMIT,
        -AMOUNT_LIMIT < no < AMOUNT_LIMIT,
        fast == fast_path(ttl as int, yes as int, no as int),
        signal matches Some(s) ==> s.kalshi_yes_prob == yes && s.lag == s.model_yes_prob - yes,
    ensures
        r@ == head_text(ttl as int, yes as int, no as int) + match signal {
            Some(s) => lag_text(
                s.asset@,
                s.direction,
                s.strike as int,
                s.model_yes_prob as int,
                yes as int,
            ),
            None => Seq::empty(),
        },
{
    let mut r = String::new();
    if fast {
        push_text(&mut r, "TTL ");
        push_int(&mut r, ttl);
        push_text(&mut r, "s with YES ");
        push_fixed(&mut r, yes, 4);
        push_text(&mut r, " / NO ");
        push_fixed(&mut r, no, 4);
        push_text(&mut r, " in 0.90-0.97 band (single-side)");
    } else {
        push_text(&mut r, "YES ");
        push_fixed(&mut r, yes, 4);
        push_text(&mut r, " + NO ");
        push_fixed(&mut r, no, 4);
        push_text(&mut r, " = ");
        push_fixed(&mut r, yes + no, 4);
        push_text(&mut r, " within ");
        push_int(&mut r, ttl);
        push_text(&mut r, "s of close");
    }
    let ghost head = r@;
    assert(head =~= head_text(ttl as int, yes as int, no as int));
    match signal {
        Some(s) => {
            push_text(&mut r, " | CEX lag ");
            push_text(&mut r, s.asset.as_str());
            push_text(&mut r, " ");
            push_text(&mut r, s.direction.as_text());
            push_text(&mut r, " strike ");
            push_fixed(&mut r, s.strike, 2);
            push_text(&mut r, ": model_yes ");
            push_fixed(&mut r, s.model_yes_prob, 3);
            push_text(&mut r, " vs kalshi_yes ");
            push_fixed(&mut r, s.kalshi_yes_prob, 3);
            push_text(&mut r, " (lag ");
            push_fixed(&mut r, s.lag, 3);
            push_text(&mut r, ")");
            assert(r@ =~= head + lag_text(
                s.asset@,
                s.direction,
                s.strike as int,
                s.model_yes_prob as int,
                yes as int,
            ));
        },
        None => {
            assert(r@ =~= head + Seq::<char>::empty());
        },
    }
    r
}

fn order(m: &Market, side: Side, price: i64, quantity: i64) -> (r: OrderRequest)
    ensures
        r.ticker@ == m.ticker@,
        r.side == side,
        r.price_dollars == price,
        r.quantity == quantity,
{
    OrderRequest { ticker: string_of(&chars_of(m.ticker.as_str())), side, price_dollars: price, quantity }
}

/// Decides one market, given whether the interval pattern matched it and
/// the model's probability of "above" for it (if the lag model priced it).
pub fn evaluate_market(
    config: &Config,
    now: UtcTime,
    market: Market,
    interval_hit: bool,
    cex_refs: Option<&CexReferences>,
    above_prob: Option<i64>,
) -> (r: Result<Decision, SkipReason>)
    requires
        now.wf(),
        market.close_time.wf(),
        above_in_range(above_prob),
    ensures
        match r {
            Ok(d) => skip_of(config, now, market, interval_hit, cex_refs, above_prob) is None
                && decision_for(d, config, now, market, cex_refs, above_prob),
            Err(e) => skip_of(config, now, market, interval_hit, cex_refs, above_prob) == Some(e),
        },
{
    let ttl = seconds_until(&now, &market.close_time);
    if config.btc_only && !market.is_btc_related() {
        return Err(SkipReason::NotBtcRelated);
    }
    if config.crypto_only && !market.is_crypto_related(config.crypto_assets.as_slice()) {
        return Err(SkipReason::NotCryptoRelated);
    }
    if !interval_hit {
        return Err(SkipReason::NotInterval);
    }
    if ttl < 0 {
        return Err(SkipReason::AlreadyClosed);
    }
    let (yes, no) = match (parse_ask(&market.yes_ask_dollars), parse_ask(&market.no_ask_dollars)) {
        (Some(y), Some(n)) => (y, n),
        _ => return Err(SkipReason::MissingPrice),
    };
    let combined = yes + no;
    let yes_in_band = BAND_LOW <= yes && yes <= BAND_HIGH;
    let no_in_band = BAND_LOW <= no && no <= BAND_HIGH;
    let fast = ttl < FAST_WINDOW_SECS && (yes_in_band || no_in_band);
    let inputs = compute_lag_inputs(config, &market, cex_refs);
    let signal = match (&inputs, above_prob) {
        (Some(x), Some(p)) => Some(compute_cex_lag_signal(x, p, yes)),
        _ => None,
    };
    if config.cex_lag_require_signal && config.enable_cex_lag_scan {
        let strong = match &signal {
            Some(s) => s.abs_lag >= config.cex_lag_threshold,
            None => false,
        };
        if !strong {
            return Err(SkipReason::LagBelowThreshold);
        }
    }
    if !fast && combined >= config.combined_max_price {
        return Err(SkipReason::NotQualified);
    }
    let mut orders: Vec<OrderRequest> = Vec::new();
    if fast {
        if yes_in_band {
            orders.push(order(&market, Side::Yes, yes, config.order_count));
        }
        if no_in_band {
            orders.push(order(&market, Side::No, no, config.order_count));
        }
    } else {
        orders.push(order(&market, Side::Yes, yes, config.order_count));
        orders.push(order(&market, Side::No, no, config.order_count));
    }
    let reason = build_reason(ttl, yes, no, fast, &signal);
    let ghost m = market;
    let ghost sides = planned_sides(ttl as int, yes as int, no as int);
    proof {
        assert(orders@.len() == sides.len());
        assert(reason@ =~= reason_text(config, ttl as int, m, cex_refs, above_prob, yes as int, no as int));
    }
    Ok(Decision { market, orders, reason })
}

/// Whether the interval pattern matches the market's title, subtitle or
/// event ticker, tried in that order.
pub fn matches_interval(market: &Market, pattern: &str) -> (r: bool)
    requires
        regex_compiles(pattern@),
    ensures
        r == interval_hit(pattern@, *market),
{
    if pattern_finds(pattern, market.title.as_str()) {
        return true;
    }
    if let Some(subtitle) = &market.subtitle {
        if pattern_finds(pattern, subtitle.as_str()) {
            return true;
        }
    }
    if let Some(event_ticker) = &market.event_ticker {
        if pattern_finds(pattern, event_ticker.as_str()) {
            return true;
        }
    }
    false
}

/// The interval pattern in force for `config` (see `effective_pattern`).
pub fn interval_pattern(config: &Config) -> (r: String)
    ensures
        r@ == effective_pattern(config.interval_regex@),
{
    if pattern_compiles(config.interval_regex.as_str()) {
        string_of(&chars_of(config.interval_regex.as_str()))
    } else {
        string_of(&chars_of(default_interval_pattern()))
    }
}

/// Whether the market passes the interval filter under `pattern`.
pub open spec fn interval_ok(pattern: Seq<char>, m: Market) -> bool {
    regex_compiles(pattern) && interval_hit(pattern, m)
}

/// Positions, ascending, of the first `n` markets that qualify.
pub open spec fn taken_upto(
    config: &Config,
    now: UtcTime,
    ms: Seq<Market>,
    refs: Option<&CexReferences>,
    probs: Seq<Option<i64>>,
    pattern: Seq<char>,
    n: int,
) -> Seq<int>
    decreases n,
{
    if n <= 0 {
        Seq::empty()
    } else {
        let prev = taken_upto(config, now, ms, refs, probs, pattern, n - 1);
        if skip_of(config, now, ms[n - 1], interval_ok(pattern, ms[n - 1]), refs, probs[n - 1])
            is None {
            prev.push(n - 1)
        } else {
            prev
        }
    }
}

/// `ds` is the engine's answer for these markets: one decision per
/// qualifying market, in the markets' order.
pub open spec fn engine_result(
    config: &Config,
    now: UtcTime,
    ms: Seq<Market>,
    refs: Option<&CexReferences>,
    probs: Seq<Option<i64>>,
    ds: Seq<Decision>,
) -> bool {
    let idx = taken_upto(
        config,
        now,
        ms,
        refs,
        probs,
        effective_pattern(config.interval_regex@),
        ms.len() as int,
    );
    &&& ds.len() == idx.len()
    &&& forall|k: int|
        0 <= k < ds.len() ==> decision_for(
            #[trigger] ds[k],
            config,
            now,
            ms[idx[k]],
            refs,
            probs[idx[k]],
        )
}

/// Decides every market, in order. `above_probs[i]` is the model's
/// probability of "above" for market `i`, computed from the logistic
/// argument that `compute_lag_inputs` gives for it (`None` when it gives
/// none).
pub fn pick_opportunities(
    config: &Config,
    now: UtcTime,
    markets: Vec<Market>,
    cex_refs: Option<&CexReferences>,
    above_probs: &Vec<Option<i64>>,
) -> (r: Vec<Decision>)
    requires
        now.wf(),
        above_probs@.len() == markets@.len(),
        forall|i: int| 0 <= i < markets@.len() ==> (#[trigger] markets@[i]).close_time.wf(),
        forall|i: int| 0 <= i < above_probs@.len() ==> above_in_range(#[trigger] above_probs@[i]),
    ensures
        engine_result(config, now, markets@, cex_refs, above_probs@, r@),
{
    let pattern = interval_pattern(config);
    let usable = pattern_compiles(pattern.as_str());
    let total = markets.len();
    let ghost ms = markets@;
    let ghost pat = pattern@;
    let mut rest = markets;
    let mut decisions: Vec<Decision> = Vec::new();
    let mut i: usize = 0;
    while rest.len() > 0
        invariant
            i + rest@.len() == ms.len(),
            ms.len() == total,
            pat == pattern@,
            rest@ == ms.subrange(i as int, ms.len() as int),
            above_probs@.len() == ms.len(),
            now.wf(),
            forall|j: int| 0 <= j < ms.len() ==> (#[trigger] ms[j]).close_time.wf(),
            forall|j: int| 0 <= j < above_probs@.len() ==> above_in_range(#[trigger] above_probs@[j]),
            usable == regex_compiles(pat),
            pat == effective_pattern(config.interval_regex@),
            decisions@.len() == taken_upto(config, now, ms, cex_refs, above_probs@, pat, i as int).len(),
            forall|k: int|
                0 <= k < decisions@.len() ==> decision_for(
                    #[trigger] decisions@[k],
                    config,
                    now,
                    ms[taken_upto(config, now, ms, cex_refs, above_probs@, pat, i as int)[k]],
                    cex_refs,
                    above_probs@[taken_upto(config, now, ms, cex_refs, above_probs@, pat, i as int)[k]],
                ),
        decreases rest.len(),
    {
        let ghost before = rest@;
        let market = rest.remove(0);
        proof {
            assert(rest@ =~= ms.subrange(i + 1, ms.len() as int));
            assert(market == ms[i as int]);
        }
        let hit = usable && matches_interval(&market, pattern.as_str());
        assert(hit == interval_ok(pat, ms[i as int]));
        let ghost prev = taken_upto(config, now, ms, cex_refs, above_probs@, pat, i as int);
        let ghost m = market;
        let outcome = evaluate_market(config, now, market, hit, cex_refs, above_probs[i]);
        match outcome {
            Ok(d) => {
                decisions.push(d);
                proof {
                    let next = taken_upto(config, now, ms, cex_refs, above_probs@, pat, i + 1);
                    assert(next == prev.push(i as int));
                    assert forall|k: int| 0 <= k < decisions@.len() implies decision_for(
                        #[trigger] decisions@[k],
                        config,
                        now,
                        ms[next[k]],
                        cex_refs,
                        above_probs@[next[k]],
                    ) by {
                        if k < prev.len() {
                            assert(next[k] == prev[k]);
                        }
                    }
                }
            },
            Err(_) => {
                proof {
                    let next = taken_upto(config, now, ms, cex_refs, above_probs@, pat, i + 1);
                    assert(next == prev);
                }
            },
        }
        i = i + 1;
    }
    decisions
}

/// Two decisions with the same market, orders and reason.
pub open spec fn same_decision(a: Decision, b: Decision) -> bool {
    &&& a.market == b.market
    &&& a.reason@ == b.reason@
    &&& a.orders@.len() == b.orders@.len()
    &&& forall|j: int|
        0 <= j < a.orders@.len() ==> {
            &&& (#[trigger] a.orders@[j]).ticker@ == b.orders@[j].ticker@
            &&& a.orders@[j].side == b.orders@[j].side
            &&& a.orders@[j].price_dollars == b.orders@[j].price_dollars
            &&& a.orders@[j].quantity == b.orders@[j].quantity
        }
}

/// The engine is deterministic: two runs over the same markets, time,
/// references and model probabilities give the same decisions, in the same
/// order.
pub proof fn lemma_engine_deterministic(
    config: &Config,
    now: UtcTime,
    ms: Seq<Market>,
    refs: Option<&CexReferences>,
    probs: Seq<Option<i64>>,
    first: Seq<Decision>,
    second: Seq<Decision>,
)
    requires
        engine_result(config, now, ms, refs, probs, first),
        engine_result(config, now, ms, refs, probs, second),
    ensures
        first.len() == second.len(),
        forall|k: int| 0 <= k < first.len() ==> same_decision(#[trigger] first[k], second[k]),
{
    let idx = taken_upto(
        config,
        now,
        ms,
        refs,
        probs,
        effective_pattern(config.interval_regex@),
        ms.len() as int,
    );
    assert forall|k: int| 0 <= k < first.len() implies same_decision(#[trigger] first[k], second[k]) by {
        assert(decision_for(first[k], config, now, ms[idx[k]], refs, probs[idx[k]]));
        assert(decision_for(second[k], config, now, ms[idx[k]], refs, probs[idx[k]]));
    }
}

/// A market whose close time has passed is skipped, whatever its prices.
pub proof fn lemma_closed_market_skipped(
    config: &Config,
    now: UtcTime,
    m: Market,
    hit: bool,
    refs: Option<&CexReferences>,
    above: Option<i64>,
)
    requires
        seconds_between(now, m.close_time) < 0,
    ensures
        skip_of(config, now, m, hit, refs, above) is Some,
        skip_of(config, now, m, hit, refs, above) != Some(SkipReason::MissingPrice),
{
}

} // verus!
