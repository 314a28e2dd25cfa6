//! Run configuration, as plain values.

use vstd::prelude::*;

use crate::amount::{
    i64_of, int_in, parse_i64, parse_int_in, parse_signed_amount, signed_amount_of,
};
use crate::text::{
    chars_of, find_first, first_index, lower_of, lowercase, split_on, split_pieces, string_of,
    string_of_range, trim, trim_ws, upper_of, uppercase,
};

verus! {

/// Settings of one run. Amounts (`combined_max_price`, `cex_lag_threshold`)
/// are in units of `AMOUNT_SCALE`.
#[derive(Clone, Debug)]
pub struct Config {
    pub base_url: String,
    pub api_prefix: String,
    pub api_key: String,
    pub private_key_path: Option<String>,
    pub private_key_pem: Option<String>,
    pub dry_run: bool,
    pub btc_only: bool,
    pub crypto_only: bool,
    pub crypto_assets: Vec<String>,
    pub event_ticker_prefixes: Vec<String>,
    pub event_series_tickers: Vec<String>,
    pub min_close_ts: Option<i64>,
    pub interval_regex: String,
    pub combined_max_price: i64,
    pub order_count: i64,
    pub check_exchange: bool,
    pub time_in_force: String,
    pub discover_btc_events: bool,
    pub discover_series: bool,
    pub series_category: String,
    pub series_frequency: String,
    pub events_limit: i64,
    pub log_decisions: bool,
    pub enable_cex_lag_scan: bool,
    pub cex_lag_threshold: i64,
    pub cex_lag_require_signal: bool,
    pub cex_lag_min_sources: usize,
}

/// `s` without its trailing `/` characters.
pub open spec fn trim_trailing_slashes(s: Seq<char>) -> Seq<char>
    decreases s.len(),
{
    if s.len() > 0 && s.last() == '/' {
        trim_trailing_slashes(s.drop_last())
    } else {
        s
    }
}

fn trimmed_end(v: &Vec<char>, to: usize) -> (r: usize)
    requires
        to <= v.len(),
    ensures
        r <= to,
        v@.subrange(0, r as int) == trim_trailing_slashes(v@.subrange(0, to as int)),
    decreases to,
{
    if to > 0 && v[to - 1] == '/' {
        assert(v@.subrange(0, to as int).drop_last() =~= v@.subrange(0, to - 1));
        trimmed_end(v, to - 1)
    } else {
        to
    }
}

/// An API URL's host part (without trailing `/`) and the path prefix that
/// starts at the first `/trade-api/`; without such a segment the prefix is
/// `/trade-api/v2`.
pub open spec fn base_url_parts(raw: Seq<char>) -> (Seq<char>, Seq<char>) {
    match first_index(raw, "/trade-api/"@) {
        Some(i) => (trim_trailing_slashes(raw.subrange(0, i)), raw.subrange(i, raw.len() as int)),
        None => (trim_trailing_slashes(raw), "/trade-api/v2"@),
    }
}

/// Splits an API URL (see `base_url_parts`).
pub fn split_base_url(raw: &str) -> (r: (String, String))
    ensures
        r.0@ == base_url_parts(raw@).0,
        r.1@ == base_url_parts(raw@).1,
{
    let v = chars_of(raw);
    let marker = chars_of("/trade-api/");
    match find_first(&v, &marker) {
        Some(i) => {
            let end = trimmed_end(&v, i);
            let base = string_of_range(&v, 0, end);
            let prefix = string_of_range(&v, i, v.len());
            (base, prefix)
        },
        None => {
            let end = trimmed_end(&v, v.len());
            assert(v@.subrange(0, v@.len() as int) =~= v@);
            let base = string_of_range(&v, 0, end);
            let prefix = string_of(&chars_of("/trade-api/v2"));
            (base, prefix)
        },
    }
}

/// The raw text of each setting, `None` where it is not set.
#[derive(Clone, Debug, Default)]
pub struct Settings {
    pub base_url: Option<String>,
    pub api_key: Option<String>,
    pub private_key_path: Option<String>,
    pub private_key_pem: Option<String>,
    pub api_secret: Option<String>,
    pub dry_run: Option<String>,
    pub btc_only: Option<String>,
    pub crypto_only: Option<String>,
    pub crypto_assets: Option<String>,
    pub event_ticker_prefixes: Option<String>,
    pub event_series_tickers: Option<String>,
    pub min_close_ts: Option<String>,
    pub interval_regex: Option<String>,
    pub combined_max_price: Option<String>,
    pub order_count: Option<String>,
    pub check_exchange: Option<String>,
    pub time_in_force: Option<String>,
    pub discover_btc_events: Option<String>,
    pub discover_series: Option<String>,
    pub series_category: Option<String>,
    pub series_frequency: Option<String>,
    pub events_limit: Option<String>,
    pub log_decisions: Option<String>,
    pub enable_cex_lag_scan: Option<String>,
    pub cex_lag_threshold: Option<String>,
    pub cex_lag_require_signal: Option<String>,
    pub cex_lag_min_sources: Option<String>,
}

pub open spec fn text_or(o: Option<String>, default: Seq<char>) -> Seq<char> {
    match o {
        Some(s) => s@,
        None => default,
    }
}

pub open spec fn opt_view_of(o: Option<String>) -> Option<Seq<char>> {
    match o {
        Some(s) => Some(s@),
        None => None,
    }
}

/// A flag that is on only when set to "true" or "1".
pub open spec fn flag_on(o: Option<String>, default: bool) -> bool {
    match o {
        Some(s) => s@ == "true"@ || s@ == "1"@,
        None => default,
    }
}

/// A flag that is on unless set to "false".
pub open spec fn flag_unless_false(o: Option<String>, default: bool) -> bool {
    match o {
        Some(s) => s@ != "false"@,
        None => default,
    }
}

pub open spec fn number_or(o: Option<String>, default: int) -> int {
    match o {
        Some(s) => match i64_of(s@) {
            Some(v) => v,
            None => default,
        },
        None => default,
    }
}

pub open spec fn amount_or(o: Option<String>, default: int) -> int {
    match o {
        Some(s) => match signed_amount_of(s@) {
            Some(v) => v,
            None => default,
        },
        None => default,
    }
}

/// An unsigned count as `usize::from_str` reads it.
pub open spec fn count_of(s: Seq<char>) -> Option<int> {
    if s.len() > 0 && s[0] == '-' {
        None
    } else {
        int_in(s, 0, usize::MAX as int)
    }
}

pub open spec fn count_or(o: Option<String>, default: int) -> int {
    match o {
        Some(s) => match count_of(s@) {
            Some(v) => v,
            None => default,
        },
        None => default,
    }
}

/// The non-empty entries of a comma-separated list, trimmed and case-mapped.
pub open spec fn list_entries(pieces: Seq<Seq<char>>, upper: bool) -> Seq<Seq<char>>
    decreases pieces.len(),
{
    if pieces.len() == 0 {
        Seq::empty()
    } else {
        let prev = list_entries(pieces.drop_last(), upper);
        let t = if upper {
            upper_of(trim_ws(pieces.last()))
        } else {
            lower_of(trim_ws(pieces.last()))
        };
        if t.len() == 0 {
            prev
        } else {
            prev.push(t)
        }
    }
}

pub open spec fn setting_list(o: Option<String>, default: Seq<char>, upper: bool) -> Seq<Seq<char>> {
    list_entries(split_pieces(text_or(o, default), ','), upper)
}

pub open spec fn texts_of(v: Seq<String>) -> Seq<Seq<char>> {
    v.map_values(|s: String| s@)
}

fn copy_text(s: &String) -> (r: String)
    ensures
        r@ == s@,
{
    string_of(&chars_of(s.as_str()))
}

fn text_or_default(o: &Option<String>, default: &str) -> (r: String)
    ensures
        r@ == text_or(*o, default@),
{
    match o {
        Some(s) => copy_text(s),
        None => string_of(&chars_of(default)),
    }
}

fn copy_opt(o: &Option<String>) -> (r: Option<String>)
    ensures
        opt_view_of(r) == opt_view_of(*o),
{
    match o {
        Some(s) => Some(copy_text(s)),
        None => None,
    }
}

fn read_flag_on(o: &Option<String>, default: bool) -> (r: bool)
    ensures
        r == flag_on(*o, default),
{
    match o {
        Some(s) => {
            let v = chars_of(s.as_str());
            crate::text::same_chars(&v, &chars_of("true")) || crate::text::same_chars(
                &v,
                &chars_of("1"),
            )
        },
        None => default,
    }
}

fn read_flag_unless_false(o: &Option<String>, default: bool) -> (r: bool)
    ensures
        r == flag_unless_false(*o, default),
{
    match o {
        Some(s) => !crate::text::same_chars(&chars_of(s.as_str()), &chars_of("false")),
        None => default,
    }
}

fn read_number(o: &Option<String>, default: i64) -> (r: i64)
    ensures
        r == number_or(*o, default as int),
{
    match o {
        Some(s) => match parse_i64(&chars_of(s.as_str())) {
            Some(v) => v,
            None => default,
        },
        None => default,
    }
}

fn read_optional_number(o: &Option<String>) -> (r: Option<i64>)
    ensures
        match r {
            Some(v) => o matches Some(s) && i64_of(s@) == Some(v as int),
            None => o matches Some(s) ==> i64_of(s@) is None,
        },
{
    match o {
        Some(s) => parse_i64(&chars_of(s.as_str())),
        None => None,
    }
}

fn read_amount(o: &Option<String>, default: i64) -> (r: i64)
    ensures
        r == amount_or(*o, default as int),
{
    match o {
        Some(s) => match parse_signed_amount(&chars_of(s.as_str())) {
            Some(v) => v,
            None => default,
        },
        None => default,
    }
}

fn read_count(o: &Option<String>, default: usize) -> (r: usize)
    ensures
        r == count_or(*o, default as int),
{
    match o {
        Some(s) => {
            let v = chars_of(s.as_str());
            if v.len() > 0 && v[0] == '-' {
                return default;
            }
            match parse_int_in(&v, 0, usize::MAX as i128) {
                Some(n) => n as usize,
                None => default,
            }
        },
        None => default,
    }
}

fn read_list(o: &Option<String>, default: &str, upper: bool) -> (r: Vec<String>)
    ensures
        texts_of(r@) == setting_list(*o, default@, upper),
{
    let raw = text_or_default(o, default);
    let pieces = split_on(&chars_of(raw.as_str()), ',');
    let ghost ps = split_pieces(raw@, ',');
    let mut r: Vec<String> = Vec::new();
    let mut i: usize = 0;
    assert(texts_of(r@) =~= list_entries(ps.subrange(0, 0), upper));
    while i < pieces.len()
        invariant
            i <= pieces@.len(),
            pieces@.len() == ps.len(),
            forall|k: int| 0 <= k < pieces@.len() ==> (#[trigger] pieces@[k])@ == ps[k],
            texts_of(r@) == list_entries(ps.subrange(0, i as int), upper),
        decreases pieces.len() - i,
    {
        proof {
            assert(ps.subrange(0, i + 1).drop_last() =~= ps.subrange(0, i as int));
            assert(ps.subrange(0, i + 1).last() == ps[i as int]);
        }
        let trimmed = string_of(&trim(&pieces[i]));
        let t = if upper {
            uppercase(trimmed.as_str())
        } else {
            lowercase(trimmed.as_str())
        };
        if t.as_str().unicode_len() > 0 {
            let ghost before = r@;
            r.push(t);
            assert(texts_of(r@) =~= texts_of(before).push(r@.last()@));
        }
        i = i + 1;
    }
    assert(ps.subrange(0, ps.len() as int) =~= ps);
    r
}

/// Builds the configuration from the raw settings, with a default for each
/// setting that is absent or unreadable.
pub fn config_from_settings(raw: &Settings) -> (r: Config)
    ensures
        r.base_url@ == base_url_parts(
            text_or(raw.base_url, "https://api.elections.kalshi.com/trade-api/v2"@),
        ).0,
        r.api_prefix@ == base_url_parts(
            text_or(raw.base_url, "https://api.elections.kalshi.com/trade-api/v2"@),
        ).1,
        r.api_key@ == text_or(raw.api_key, ""@),
        opt_view_of(r.private_key_path) == opt_view_of(raw.private_key_path),
        opt_view_of(r.private_key_pem) == (match raw.private_key_pem {
            Some(p) => Some(p@),
            None => opt_view_of(raw.api_secret),
        }),
        r.dry_run == flag_on(raw.dry_run, true),
        r.btc_only == flag_on(raw.btc_only, false),
        r.crypto_only == flag_unless_false(raw.crypto_only, true),
        texts_of(r.crypto_assets@) == setting_list(raw.crypto_assets, "BTC,ETH,SOL"@, false),
        texts_of(r.event_ticker_prefixes@) == setting_list(
            raw.event_ticker_prefixes,
            "KXBTC15M,KXETH15M,KXSOL15M"@,
            true,
        ),
        texts_of(r.event_series_tickers@) == setting_list(
            raw.event_series_tickers,
            "KXBTC15M,KXETH15M,KXSOL15M"@,
            true,
        ),
        match r.min_close_ts {
            Some(v) => raw.min_close_ts matches Some(s) && i64_of(s@) == Some(v as int),
            None => raw.min_close_ts matches Some(s) ==> i64_of(s@) is None,
        },
        r.interval_regex@ == text_or(raw.interval_regex, "(?i)\\b15\\s?m(in(ute)?s?)?\\b"@),
        r.combined_max_price == amount_or(raw.combined_max_price, 100_000_000),
        r.order_count == number_or(raw.order_count, 1),
        r.check_exchange == flag_unless_false(raw.check_exchange, true),
        r.time_in_force@ == text_or(raw.time_in_force, "fill_or_kill"@),
        r.discover_btc_events == flag_unless_false(raw.discover_btc_events, true),
        r.discover_series == flag_unless_false(raw.discover_series, false),
        r.series_category@ == text_or(raw.series_category, "crypto"@),
        r.series_frequency@ == text_or(raw.series_frequency, "fifteen_min"@),
        r.events_limit == number_or(raw.events_limit, 200),
        r.log_decisions == flag_on(raw.log_decisions, false),
        r.enable_cex_lag_scan == flag_unless_false(raw.enable_cex_lag_scan, true),
        r.cex_lag_threshold == amount_or(raw.cex_lag_threshold, 8_000_000),
        r.cex_lag_require_signal == flag_on(raw.cex_lag_require_signal, false),
        r.cex_lag_min_sources == count_or(raw.cex_lag_min_sources, 2),
{
    let url = text_or_default(&raw.base_url, "https://api.elections.kalshi.com/trade-api/v2");
    let (base_url, api_prefix) = split_base_url(url.as_str());
    let private_key_pem = match &raw.private_key_pem {
        Some(p) => Some(copy_text(p)),
        None => copy_opt(&raw.api_secret),
    };
    Config {
        base_url,
        api_prefix,
        api_key: text_or_default(&raw.api_key, ""),
        private_key_path: copy_opt(&raw.private_key_path),
        private_key_pem,
        dry_run: read_flag_on(&raw.dry_run, true),
        btc_only: read_flag_on(&raw.btc_only, false),
        crypto_only: read_flag_unless_false(&raw.crypto_only, true),
        crypto_assets: read_list(&raw.crypto_assets, "BTC,ETH,SOL", false),
        event_ticker_prefixes: read_list(&raw.event_ticker_prefixes, "KXBTC15M,KXETH15M,KXSOL15M", true),
        event_series_tickers: read_list(&raw.event_series_tickers, "KXBTC15M,KXETH15M,KXSOL15M", true),
        min_close_ts: read_optional_number(&raw.min_close_ts),
        interval_regex: text_or_default(&raw.interval_regex, "(?i)\\b15\\s?m(in(ute)?s?)?\\b"),
        combined_max_price: read_amount(&raw.combined_max_price, 100_000_000),
        order_count: read_number(&raw.order_count, 1),
        check_exchange: read_flag_unless_false(&raw.check_exchange, true),
        time_in_force: text_or_default(&raw.time_in_force, "fill_or_kill"),
        discover_btc_events: read_flag_unless_false(&raw.discover_btc_events, true),
        discover_series: read_flag_unless_false(&raw.discover_series, false),
        series_category: text_or_default(&raw.series_category, "crypto"),
        series_frequency: text_or_default(&raw.series_frequency, "fifteen_min"),
        events_limit: read_number(&raw.events_limit, 200),
        log_decisions: read_flag_on(&raw.log_decisions, false),
        enable_cex_lag_scan: read_flag_unless_false(&raw.enable_cex_lag_scan, true),
        cex_lag_threshold: read_amount(&raw.cex_lag_threshold, 8_000_000),
        cex_lag_require_signal: read_flag_on(&raw.cex_lag_require_signal, false),
        cex_lag_min_sources: read_count(&raw.cex_lag_min_sources, 2),
    }
}

} // verus!
