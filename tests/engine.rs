use kalshi_bot::amount::AMOUNT_SCALE;
use kalshi_bot::cex::{scan_btc_eth_references, CexReferences, VenueQuote};
use kalshi_bot::config::Config;
use kalshi_bot::lag::Direction;
use kalshi_bot::models::{Market, Side, UtcTime};
use kalshi_bot::strategy::{
    compute_cex_lag_signal, compute_lag_inputs, evaluate_market, interval_pattern,
    matches_interval, pick_opportunities, Decision, SkipReason,
};

const NOW: i64 = 1_700_000_000;

fn config() -> Config {
    Config {
        base_url: "https://example.test".to_string(),
        api_prefix: "/trade-api/v2".to_string(),
        api_key: String::new(),
        private_key_path: None,
        private_key_pem: None,
        dry_run: true,
        btc_only: false,
        crypto_only: true,
        crypto_assets: vec!["btc".to_string(), "eth".to_string(), "sol".to_string()],
        event_ticker_prefixes: vec![],
        event_series_tickers: vec![],
        min_close_ts: None,
        interval_regex: "(?i)\\b15\\s?m(in(ute)?s?)?\\b".to_string(),
        combined_max_price: AMOUNT_SCALE,
        order_count: 3,
        check_exchange: false,
        time_in_force: "fill_or_kill".to_string(),
        discover_btc_events: false,
        discover_series: false,
        series_category: "crypto".to_string(),
        series_frequency: "fifteen_min".to_string(),
        events_limit: 200,
        log_decisions: false,
        enable_cex_lag_scan: true,
        cex_lag_threshold: 8_000_000,
        cex_lag_require_signal: false,
        cex_lag_min_sources: 2,
    }
}

fn market(ticker: &str, title: &str, ttl: i64, yes: Option<&str>, no: Option<&str>) -> Market {
    Market {
        ticker: ticker.to_string(),
        title: title.to_string(),
        subtitle: None,
        event_ticker: Some("KXBTC15M-X".to_string()),
        status: Some("open".to_string()),
        close_time: UtcTime { secs: NOW + ttl, nanos: 0 },
        yes_ask_dollars: yes.map(|s| s.to_string()),
        no_ask_dollars: no.map(|s| s.to_string()),
    }
}

fn now() -> UtcTime {
    UtcTime { secs: NOW, nanos: 0 }
}

fn run(cfg: &Config, markets: Vec<Market>) -> Vec<Decision> {
    let probs = vec![None; markets.len()];
    pick_opportunities(cfg, now(), markets, None, &probs)
}

fn btc_refs(price: i64) -> CexReferences {
    let q = |v: &str| Ok(VenueQuote { venue: v.to_string(), mid: price });
    scan_btc_eth_references(2, vec![q("a"), q("b")], vec![])
}

#[test]
fn fast_path_orders_only_the_side_in_band() {
    let d = run(&config(), vec![market("M1", "BTC up in 15 min", 30, Some("0.95"), Some("0.10"))]);
    assert_eq!(d.len(), 1);
    assert_eq!(d[0].orders.len(), 1);
    assert_eq!(d[0].orders[0].side, Side::Yes);
    assert_eq!(d[0].orders[0].price_dollars, 95_000_000);
    assert_eq!(d[0].orders[0].quantity, 3);
    assert_eq!(d[0].orders[0].ticker, "M1");
    assert_eq!(
        d[0].reason,
        "TTL 30s with YES 0.9500 / NO 0.1000 in 0.90-0.97 band (single-side)"
    );
}

#[test]
fn fast_path_orders_both_sides_in_band() {
    let d = run(&config(), vec![market("M1", "BTC 15m", 10, Some("0.90"), Some("0.97"))]);
    assert_eq!(d[0].orders.len(), 2);
    assert_eq!(d[0].orders[0].side, Side::Yes);
    assert_eq!(d[0].orders[1].side, Side::No);
}

#[test]
fn slow_path_orders_both_sides() {
    let d = run(&config(), vec![market("M2", "BTC up in 15 min", 500, Some("0.40"), Some("0.55"))]);
    assert_eq!(d.len(), 1);
    assert_eq!(d[0].orders.len(), 2);
    assert_eq!(d[0].orders[0].side, Side::Yes);
    assert_eq!(d[0].orders[0].price_dollars, 40_000_000);
    assert_eq!(d[0].orders[1].side, Side::No);
    assert_eq!(d[0].orders[1].price_dollars, 55_000_000);
    assert_eq!(d[0].orders[1].quantity, 3);
    assert_eq!(d[0].reason, "YES 0.4000 + NO 0.5500 = 0.9500 within 500s of close");
}

#[test]
fn combined_at_threshold_is_skipped() {
    let d = run(&config(), vec![market("M", "BTC 15 min", 500, Some("0.45"), Some("0.55"))]);
    assert!(d.is_empty());
}

#[test]
fn closed_market_is_always_skipped() {
    let cfg = config();
    let r = evaluate_market(&cfg, now(), market("M", "BTC 15 min", -5, Some("0.95"), Some("0.01")), true, None, None);
    assert!(matches!(r, Err(SkipReason::AlreadyClosed)));
    let d = run(&cfg, vec![market("M", "BTC 15 min", -5, Some("0.40"), Some("0.10"))]);
    assert!(d.is_empty());
}

#[test]
fn sub_second_overdue_counts_as_zero_seconds() {
    let mut m = market("M", "BTC 15 min", -1, Some("0.40"), Some("0.10"));
    m.close_time = UtcTime { secs: NOW - 1, nanos: 500_000_000 };
    let d = run(&config(), vec![m]);
    assert_eq!(d.len(), 1);
}

#[test]
fn missing_or_bad_price_is_skipped() {
    let cfg = config();
    let r = evaluate_market(&cfg, now(), market("M", "BTC 15 min", 30, None, Some("0.5")), true, None, None);
    assert!(matches!(r, Err(SkipReason::MissingPrice)));
    let r = evaluate_market(&cfg, now(), market("M", "BTC 15 min", 30, Some("x"), Some("0.5")), true, None, None);
    assert!(matches!(r, Err(SkipReason::MissingPrice)));
}

#[test]
fn filters_apply_in_order() {
    let mut cfg = config();
    cfg.btc_only = true;
    let mut m = market("M", "ETH 15 min", 30, Some("0.95"), Some("0.1"));
    m.event_ticker = None;
    let r = evaluate_market(&cfg, now(), m, true, None, None);
    assert!(matches!(r, Err(SkipReason::NotBtcRelated)));
    let cfg = config();
    let mut m = market("M", "Rain 15 min", 30, Some("0.95"), Some("0.1"));
    m.event_ticker = None;
    let r = evaluate_market(&cfg, now(), m, true, None, None);
    assert!(matches!(r, Err(SkipReason::NotCryptoRelated)));
    let r = evaluate_market(&cfg, now(), market("M", "BTC hourly", 30, Some("0.95"), Some("0.1")), false, None, None);
    assert!(matches!(r, Err(SkipReason::NotInterval)));
}

#[test]
fn interval_pattern_checks_each_field() {
    let cfg = config();
    let pattern = interval_pattern(&cfg);
    let mut m = market("M", "BTC hourly", 30, None, None);
    m.event_ticker = None;
    assert!(!matches_interval(&m, &pattern));
    m.subtitle = Some("Next 15 minutes".to_string());
    assert!(matches_interval(&m, &pattern));
    let mut m = market("M", "BTC 150min", 30, None, None);
    m.event_ticker = Some("KX 15M".to_string());
    assert!(matches_interval(&m, &pattern));
}

#[test]
fn invalid_pattern_falls_back_to_default() {
    let mut cfg = config();
    cfg.interval_regex = "(".to_string();
    assert_eq!(interval_pattern(&cfg), "(?i)\\b15\\s?m(in(ute)?)?\\b");
    let d = run(&cfg, vec![market("M", "BTC 15 min", 30, Some("0.95"), Some("0.1"))]);
    assert_eq!(d.len(), 1);
}

#[test]
fn lag_signal_is_annotated_in_reason() {
    let cfg = config();
    let refs = btc_refs(105_500 * AMOUNT_SCALE);
    let m = market("M", "BTC above $105,000 in 15 min", 500, Some("0.40"), Some("0.55"));
    let inputs = compute_lag_inputs(&cfg, &m, Some(&refs)).unwrap();
    assert_eq!(inputs.asset, "BTC");
    assert_eq!(inputs.direction, Direction::Above);
    assert_eq!(inputs.strike, 105_000 * AMOUNT_SCALE);
    assert_eq!(inputs.reference_price, 105_500 * AMOUNT_SCALE);
    let signal = compute_cex_lag_signal(&inputs, 74_000_000, 40_000_000);
    assert_eq!(signal.lag, 34_000_000);
    assert_eq!(signal.abs_lag, 34_000_000);
    let d = pick_opportunities(&cfg, now(), vec![m], Some(&refs), &vec![Some(74_000_000)]);
    assert_eq!(
        d[0].reason,
        "YES 0.4000 + NO 0.5500 = 0.9500 within 500s of close | CEX lag BTC above strike 105000.00: model_yes 0.740 vs kalshi_yes 0.400 (lag 0.340)"
    );
}

#[test]
fn lag_inputs_need_quorum_and_scan() {
    let mut cfg = config();
    let refs = btc_refs(105_500 * AMOUNT_SCALE);
    let m = market("M", "BTC above $105,000 in 15 min", 500, Some("0.40"), Some("0.55"));
    cfg.cex_lag_min_sources = 3;
    assert!(compute_lag_inputs(&cfg, &m, Some(&refs)).is_none());
    cfg.cex_lag_min_sources = 2;
    cfg.enable_cex_lag_scan = false;
    assert!(compute_lag_inputs(&cfg, &m, Some(&refs)).is_none());
    cfg.enable_cex_lag_scan = true;
    assert!(compute_lag_inputs(&cfg, &m, None).is_none());
}

#[test]
fn required_signal_gates_markets() {
    let mut cfg = config();
    cfg.cex_lag_require_signal = true;
    let refs = btc_refs(105_500 * AMOUNT_SCALE);
    let m = || market("M", "BTC above $105,000 in 15 min", 500, Some("0.40"), Some("0.55"));
    let weak = pick_opportunities(&cfg, now(), vec![m()], Some(&refs), &vec![Some(45_000_000)]);
    assert!(weak.is_empty());
    let strong = pick_opportunities(&cfg, now(), vec![m()], Some(&refs), &vec![Some(48_000_000)]);
    assert_eq!(strong.len(), 1);
    let none = pick_opportunities(&cfg, now(), vec![m()], None, &vec![None]);
    assert!(none.is_empty());
}

#[test]
fn decisions_keep_market_order() {
    let d = run(
        &config(),
        vec![
            market("A", "BTC 15 min", 30, Some("0.95"), Some("0.1")),
            market("B", "BTC 15 min", -1, Some("0.95"), Some("0.1")),
            market("C", "ETH 15 min", 400, Some("0.3"), Some("0.3")),
        ],
    );
    assert_eq!(d.len(), 2);
    assert_eq!(d[0].market.ticker, "A");
    assert_eq!(d[1].market.ticker, "C");
}

#[test]
fn rerun_gives_identical_decisions() {
    let markets = || {
        vec![
            market("A", "BTC 15 min", 30, Some("0.95"), Some("0.1")),
            market("C", "ETH 15 min", 400, Some("0.3"), Some("0.3")),
        ]
    };
    let first = run(&config(), markets());
    let second = run(&config(), markets());
    assert_eq!(first.len(), second.len());
    for (a, b) in first.iter().zip(second.iter()) {
        assert_eq!(a.market.ticker, b.market.ticker);
        assert_eq!(a.reason, b.reason);
        assert_eq!(a.orders.len(), b.orders.len());
        for (x, y) in a.orders.iter().zip(b.orders.iter()) {
            assert_eq!(x.side, y.side);
            assert_eq!(x.price_dollars, y.price_dollars);
            assert_eq!(x.quantity, y.quantity);
        }
    }
}

#[test]
fn empty_market_list_gives_no_decisions() {
    assert!(run(&config(), vec![]).is_empty());
}

#[test]
fn skip_reasons_for_lag_and_combined() {
    let mut cfg = config();
    let m = || market("M", "BTC above $105,000 in 15 min", 500, Some("0.45"), Some("0.55"));
    let r = evaluate_market(&cfg, now(), m(), true, None, None);
    assert!(matches!(r, Err(SkipReason::NotQualified)));
    cfg.cex_lag_require_signal = true;
    let refs = btc_refs(105_500 * AMOUNT_SCALE);
    let r = evaluate_market(&cfg, now(), m(), true, Some(&refs), Some(50_000_000));
    assert!(matches!(r, Err(SkipReason::LagBelowThreshold)));
    let r = evaluate_market(&cfg, now(), m(), true, Some(&refs), Some(90_000_000));
    assert!(matches!(r, Err(SkipReason::NotQualified)));
}

#[test]
fn below_market_uses_complement_probability() {
    let cfg = config();
    let refs = btc_refs(104_000 * AMOUNT_SCALE);
    let m = market("M", "BTC below $105,000 in 15 min", 500, Some("0.40"), Some("0.55"));
    let d = evaluate_market(&cfg, now(), m, true, Some(&refs), Some(20_000_000)).unwrap();
    assert_eq!(
        d.reason,
        "YES 0.4000 + NO 0.5500 = 0.9500 within 500s of close | CEX lag BTC below strike 105000.00: model_yes 0.800 vs kalshi_yes 0.400 (lag 0.400)"
    );
}
