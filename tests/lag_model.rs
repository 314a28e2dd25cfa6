use kalshi_bot::amount::AMOUNT_SCALE;
use kalshi_bot::lag::{
    logistic_argument, model_yes_probability, parse_direction, parse_number_fragment,
    parse_strike, Direction,
};

fn sigmoid(x: f64) -> f64 {
    if x >= 0.0 {
        1.0 / (1.0 + (-x).exp())
    } else {
        let z = x.exp();
        z / (1.0 + z)
    }
}

#[test]
fn strike_and_direction_from_title() {
    let title = "BTC above $105,000 at 3pm";
    assert_eq!(parse_strike(title, None), Some(105_000 * AMOUNT_SCALE));
    assert_eq!(parse_direction(title, None), Some(Direction::Above));
}

#[test]
fn small_number_is_no_strike() {
    assert_eq!(parse_strike("ETH below 50", None), None);
    assert_eq!(parse_direction("ETH below 50", None), Some(Direction::Below));
}

#[test]
fn strike_is_largest_candidate_over_both_texts() {
    assert_eq!(
        parse_strike("BTC 15 min", Some("between $104,500.50 and $105,250")),
        Some(105_250 * AMOUNT_SCALE)
    );
    assert_eq!(
        parse_strike("BTC $3,500.25 or more", None),
        Some(350_025_000_000)
    );
}

#[test]
fn ungrouped_digits_split_into_short_tokens() {
    // without commas a long figure is read three digits at a time
    assert_eq!(parse_strike("above 105000", None), Some(105 * AMOUNT_SCALE));
}

#[test]
fn direction_precedence_and_absence() {
    assert_eq!(
        parse_direction("Range", Some("above 1 or below 2")),
        Some(Direction::Above)
    );
    assert_eq!(parse_direction("BTC AT OR BELOW x", None), Some(Direction::Below));
    assert_eq!(parse_direction("BTC price", None), None);
    assert_eq!(parse_direction("aboveboard", None), None);
}

#[test]
fn number_fragment_drops_marks() {
    assert_eq!(parse_number_fragment("$1,234.5"), Some(123_450_000_000));
    assert_eq!(parse_number_fragment("$"), None);
}

#[test]
fn logistic_argument_scales_per_asset() {
    let a = logistic_argument("BTC", 105_500 * AMOUNT_SCALE, 105_000 * AMOUNT_SCALE);
    assert_eq!(a.numerator, 500 * AMOUNT_SCALE as i128 * 10_000);
    assert_eq!(a.denominator, 105_000 * AMOUNT_SCALE as i128 * 45);
    assert_eq!(logistic_argument("ETH", 1, 1).denominator, 65);
    assert_eq!(logistic_argument("SOL", 1, 1).denominator, 55);
}

#[test]
fn reference_above_strike_favours_above() {
    let a = logistic_argument("BTC", 105_500 * AMOUNT_SCALE, 105_000 * AMOUNT_SCALE);
    assert!(a.numerator > 0 && a.denominator > 0);
    let above = sigmoid(a.numerator as f64 / a.denominator as f64);
    let p = (above * AMOUNT_SCALE as f64).round() as i64;
    let yes = model_yes_probability(Direction::Above, p);
    assert!(yes > AMOUNT_SCALE / 2);
    assert_eq!(yes, p);
}

#[test]
fn below_probability_is_complement() {
    assert_eq!(
        model_yes_probability(Direction::Below, 70_000_000),
        30_000_000
    );
    assert_eq!(model_yes_probability(Direction::Above, 0), 0);
}
