use kalshi_bot::models::{Market, UtcTime};

fn market(title: &str, subtitle: Option<&str>, event: Option<&str>) -> Market {
    Market {
        ticker: "T".to_string(),
        title: title.to_string(),
        subtitle: subtitle.map(|s| s.to_string()),
        event_ticker: event.map(|s| s.to_string()),
        status: None,
        close_time: UtcTime { secs: 0, nanos: 0 },
        yes_ask_dollars: None,
        no_ask_dollars: None,
    }
}

fn assets(keys: &[&str]) -> Vec<String> {
    keys.iter().map(|k| k.to_string()).collect()
}

#[test]
fn haystack_joins_and_lowercases() {
    let m = market("BTC Up", Some("In 15 MIN"), Some("KXBTC15M"));
    assert_eq!(m.haystack(), "btc up in 15 min kxbtc15m");
    assert_eq!(market("Only", None, None).haystack(), "only");
}

#[test]
fn primary_asset_prefers_btc() {
    assert_eq!(market("Bitcoin price", None, None).primary_asset(), Some("BTC"));
    assert_eq!(market("ETH and BTC", None, None).primary_asset(), Some("BTC"));
    assert_eq!(market("Ethereum", None, None).primary_asset(), Some("ETH"));
    assert_eq!(market("x", None, Some("KXETH15M")).primary_asset(), Some("ETH"));
    assert_eq!(market("Solana", None, None).primary_asset(), None);
}

#[test]
fn btc_relation_uses_all_fields() {
    assert!(market("Price", None, Some("KXBTC15M")).is_btc_related());
    assert!(market("Price", Some("bitcoin"), None).is_btc_related());
    assert!(!market("ETH", None, None).is_btc_related());
}

#[test]
fn crypto_relation_uses_keys_and_synonyms() {
    let keys = assets(&["btc", "eth", "sol"]);
    assert!(market("Solana up?", None, None).is_crypto_related(&keys));
    assert!(market("Ethereum", None, None).is_crypto_related(&keys));
    assert!(market("DOGE", None, None).is_crypto_related(&assets(&["doge"])));
    assert!(!market("Weather", None, None).is_crypto_related(&keys));
}

#[test]
fn empty_asset_list_never_matches() {
    assert!(!market("BTC", None, None).is_crypto_related(&[]));
    assert!(!market("BTC", None, None).is_crypto_related(&assets(&[""])));
}
