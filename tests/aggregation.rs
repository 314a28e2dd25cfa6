use kalshi_bot::amount::AMOUNT_SCALE;
use kalshi_bot::cex::{
    build_reference, median_price, quote_from_bid_ask, scan_btc_eth_references, FetchError,
    VenueQuote,
};

fn quote(venue: &str, mid: i64) -> Result<VenueQuote, FetchError> {
    Ok(VenueQuote { venue: venue.to_string(), mid })
}

#[test]
fn median_of_odd_count_is_central_value() {
    let r = build_reference(
        "BTC",
        vec![quote("a", 300), quote("b", 100), quote("c", 200)],
        2,
    )
    .unwrap();
    assert_eq!(r.reference_price, 200);
    assert_eq!(r.quotes.len(), 3);
    assert_eq!(r.asset, "BTC");
}

#[test]
fn median_of_even_count_averages_central_values() {
    assert_eq!(median_price(&vec![40, 10, 30, 20]), 25);
}

#[test]
fn median_of_two_averages_exactly() {
    let r = build_reference(
        "ETH",
        vec![quote("a", 100 * AMOUNT_SCALE), quote("b", 101 * AMOUNT_SCALE)],
        2,
    )
    .unwrap();
    assert_eq!(r.reference_price, 100 * AMOUNT_SCALE + AMOUNT_SCALE / 2);
}

#[test]
fn median_of_one_is_that_value() {
    assert_eq!(median_price(&vec![7]), 7);
}

#[test]
fn quorum_not_met_gives_no_reference() {
    let r = build_reference(
        "BTC",
        vec![
            quote("a", 999_999_999_999_999_999),
            Err(FetchError::Transport("timeout".to_string())),
            quote("c", 0),
        ],
        2,
    );
    assert!(r.is_none());
}

#[test]
fn invalid_quotes_are_dropped() {
    let r = build_reference(
        "BTC",
        vec![
            quote("a", -5),
            quote("b", 0),
            quote("c", 50),
            Err(FetchError::InvalidBid),
            quote("d", 70),
        ],
        2,
    )
    .unwrap();
    assert_eq!(r.quotes.len(), 2);
    assert_eq!(r.quotes[0].venue, "c");
    assert_eq!(r.quotes[1].venue, "d");
    assert_eq!(r.reference_price, 60);
}

#[test]
fn no_valid_quote_never_makes_a_reference() {
    assert!(build_reference("BTC", vec![], 0).is_none());
    assert!(build_reference("BTC", vec![Err(FetchError::NonPositive)], 0).is_none());
}

#[test]
fn quote_mid_is_mean_of_bid_and_ask() {
    let q = quote_from_bid_ask("coinbase", "100.5", "101.5").unwrap();
    assert_eq!(q.venue, "coinbase");
    assert_eq!(q.mid, 101 * AMOUNT_SCALE);
}

#[test]
fn quote_errors_name_the_bad_field() {
    assert!(matches!(
        quote_from_bid_ask("x", "abc", "1"),
        Err(FetchError::InvalidBid)
    ));
    assert!(matches!(
        quote_from_bid_ask("x", "1", ""),
        Err(FetchError::InvalidAsk)
    ));
    assert!(matches!(
        quote_from_bid_ask("x", "0", "1"),
        Err(FetchError::NonPositive)
    ));
    assert!(matches!(
        quote_from_bid_ask("x", "1", "-2"),
        Err(FetchError::NonPositive)
    ));
}

#[test]
fn scan_builds_both_assets_independently() {
    let refs = scan_btc_eth_references(
        2,
        vec![quote("a", 10), quote("b", 20), quote("c", 30)],
        vec![quote("a", 10)],
    );
    assert_eq!(refs.btc.as_ref().unwrap().reference_price, 20);
    assert!(refs.eth.is_none());
    assert!(refs.get("BTC").is_some());
    assert!(refs.get("ETH").is_none());
    assert!(refs.get("SOL").is_none());
}
