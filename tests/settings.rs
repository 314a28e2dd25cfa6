use kalshi_bot::config::{config_from_settings, Settings};

fn set(v: &str) -> Option<String> {
    Some(v.to_string())
}

#[test]
fn defaults_apply_when_nothing_is_set() {
    let c = config_from_settings(&Settings::default());
    assert_eq!(c.base_url, "https://api.elections.kalshi.com");
    assert_eq!(c.api_prefix, "/trade-api/v2");
    assert_eq!(c.api_key, "");
    assert!(c.dry_run && !c.btc_only && c.crypto_only);
    assert_eq!(c.crypto_assets, vec!["btc", "eth", "sol"]);
    assert_eq!(c.event_ticker_prefixes, vec!["KXBTC15M", "KXETH15M", "KXSOL15M"]);
    assert_eq!(c.min_close_ts, None);
    assert_eq!(c.interval_regex, "(?i)\\b15\\s?m(in(ute)?s?)?\\b");
    assert_eq!(c.combined_max_price, 100_000_000);
    assert_eq!(c.order_count, 1);
    assert!(c.check_exchange && c.discover_btc_events && !c.discover_series);
    assert_eq!(c.time_in_force, "fill_or_kill");
    assert_eq!(c.series_category, "crypto");
    assert_eq!(c.series_frequency, "fifteen_min");
    assert_eq!(c.events_limit, 200);
    assert!(!c.log_decisions && c.enable_cex_lag_scan && !c.cex_lag_require_signal);
    assert_eq!(c.cex_lag_threshold, 8_000_000);
    assert_eq!(c.cex_lag_min_sources, 2);
}

#[test]
fn settings_are_read_by_their_rules() {
    let s = Settings {
        base_url: set("https://demo.test/"),
        api_secret: set("secret"),
        dry_run: set("yes"),
        btc_only: set("1"),
        crypto_only: set("false"),
        crypto_assets: set(" Doge, ,SOL "),
        min_close_ts: set("1700000000"),
        combined_max_price: set("0.98"),
        order_count: set("x"),
        cex_lag_threshold: set("0.1"),
        cex_lag_min_sources: set("-1"),
        events_limit: set("+50"),
        ..Settings::default()
    };
    let c = config_from_settings(&s);
    assert_eq!(c.base_url, "https://demo.test");
    assert_eq!(c.private_key_pem, Some("secret".to_string()));
    assert!(!c.dry_run && c.btc_only && !c.crypto_only);
    assert_eq!(c.crypto_assets, vec!["doge", "sol"]);
    assert_eq!(c.min_close_ts, Some(1_700_000_000));
    assert_eq!(c.combined_max_price, 98_000_000);
    assert_eq!(c.order_count, 1);
    assert_eq!(c.cex_lag_threshold, 10_000_000);
    assert_eq!(c.cex_lag_min_sources, 2);
    assert_eq!(c.events_limit, 50);
}

#[test]
fn pem_setting_wins_over_secret() {
    let s = Settings {
        private_key_pem: set("pem"),
        api_secret: set("secret"),
        cex_lag_min_sources: set("3"),
        ..Settings::default()
    };
    let c = config_from_settings(&s);
    assert_eq!(c.private_key_pem, Some("pem".to_string()));
    assert_eq!(c.cex_lag_min_sources, 3);
}
