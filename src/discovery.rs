//! Filters and query pieces used while discovering markets.

use vstd::prelude::*;

use crate::models::{mentions_any_asset, names_any_asset};
use crate::text::{
    chars_of, find_first, first_index, has_prefix, lower_of, lowercase, push_text, replace_all,
    replaced, starts_with, string_of, string_of_range, trim, trim_ws, upper_of, uppercase,
};

verus! {

/// Whether a text, lower-cased, names one of the asset keys.
pub fn is_crypto_text(value: &str, assets: &[String]) -> (r: bool)
    ensures
        r == names_any_asset(lower_of(value@), assets@),
{
    let v = chars_of(lowercase(value).as_str());
    mentions_any_asset(&v, assets)
}

/// Whether the upper-cased event ticker starts with a non-empty prefix.
pub open spec fn has_target_prefix(ticker: Seq<char>, prefixes: Seq<String>) -> bool {
    exists|i: int|
        0 <= i < prefixes.len() && (#[trigger] prefixes[i])@.len() > 0 && has_prefix(
            ticker,
            prefixes[i]@,
        )
}

pub fn is_target_event(event_ticker: &str, prefixes: &[String]) -> (r: bool)
    ensures
        r == has_target_prefix(upper_of(event_ticker@), prefixes@),
        prefixes@.len() == 0 ==> !r,
{
    if prefixes.len() == 0 {
        return false;
    }
    let ticker = chars_of(uppercase(event_ticker).as_str());
    let mut i: usize = 0;
    while i < prefixes.len()
        invariant
            i <= prefixes@.len(),
            ticker@ == upper_of(event_ticker@),
            forall|j: int|
                0 <= j < i ==> !((#[trigger] prefixes@[j])@.len() > 0 && has_prefix(
                    ticker@,
                    prefixes@[j]@,
                )),
        decreases prefixes.len() - i,
    {
        let p = chars_of(prefixes[i].as_str());
        if p.len() > 0 && starts_with(&ticker, &p) {
            return true;
        }
        i = i + 1;
    }
    false
}

/// Names under which the fifteen-minute frequency is known.
pub open spec fn fifteen_minute_alias(v: Seq<char>) -> bool {
    ||| v == "15m"@
    ||| v == "15min"@
    ||| v == "15mins"@
    ||| v == "15_min"@
    ||| v == "15_mins"@
    ||| v == "15minutes"@
    ||| v == "15_minutes"@
    ||| v == "fifteenmin"@
    ||| v == "fifteen_mins"@
}

/// A frequency name trimmed, lower-cased, with `-` and spaces made `_`,
/// and the fifteen-minute aliases made `fifteen_min`.
pub open spec fn canonical_frequency_of(value: Seq<char>) -> Seq<char> {
    let v = lower_of(trim_ws(value));
    let u = replaced(replaced(v, "-"@, "_"@), " "@, "_"@);
    if v.len() == 0 {
        Seq::empty()
    } else if fifteen_minute_alias(u) {
        "fifteen_min"@
    } else {
        u
    }
}

fn is_fifteen_minute_alias(u: &Vec<char>) -> (r: bool)
    ensures
        r == fifteen_minute_alias(u@),
{
    crate::text::same_chars(u, &chars_of("15m")) || crate::text::same_chars(u, &chars_of("15min"))
        || crate::text::same_chars(u, &chars_of("15mins")) || crate::text::same_chars(
        u,
        &chars_of("15_min"),
    ) || crate::text::same_chars(u, &chars_of("15_mins")) || crate::text::same_chars(
        u,
        &chars_of("15minutes"),
    ) || crate::text::same_chars(u, &chars_of("15_minutes")) || crate::text::same_chars(
        u,
        &chars_of("fifteenmin"),
    ) || crate::text::same_chars(u, &chars_of("fifteen_mins"))
}

pub fn canonical_frequency(value: &str) -> (r: String)
    ensures
        r@ == canonical_frequency_of(value@),
{
    let trimmed = string_of(&trim(&chars_of(value)));
    let v = chars_of(lowercase(trimmed.as_str()).as_str());
    if v.len() == 0 {
        return String::new();
    }
    let dash = chars_of("-");
    let space = chars_of(" ");
    let underscore = chars_of("_");
    proof {
        reveal_strlit("-");
        reveal_strlit(" ");
    }
    let u = replace_all(&replace_all(&v, &dash, &underscore), &space, &underscore);
    if is_fifteen_minute_alias(&u) {
        string_of(&chars_of("fifteen_min"))
    } else {
        string_of(&u)
    }
}

/// A query value with each space written as `%20`.
pub fn simple_query_escape(value: &str) -> (r: String)
    ensures
        r@ == replaced(value@, " "@, "%20"@),
{
    let space = chars_of(" ");
    proof {
        reveal_strlit(" ");
    }
    string_of(&replace_all(&chars_of(value), &space, &chars_of("%20")))
}

/// The cursor of the next page: the response's `cursor`, else its
/// `next_cursor`; an empty cursor means there is no next page.
pub open spec fn next_cursor_of(cursor: Option<Seq<char>>, next: Option<Seq<char>>) -> Option<
    Seq<char>,
> {
    let c = match cursor {
        Some(c) => Some(c),
        None => next,
    };
    match c {
        Some(x) => if x.len() == 0 {
            None
        } else {
            Some(x)
        },
        None => None,
    }
}

pub open spec fn opt_text(o: Option<String>) -> Option<Seq<char>> {
    match o {
        Some(s) => Some(s@),
        None => None,
    }
}

pub fn next_page_cursor(cursor: Option<String>, next_cursor: Option<String>) -> (r: Option<String>)
    ensures
        opt_text(r) == next_cursor_of(opt_text(cursor), opt_text(next_cursor)),
{
    let c = match cursor {
        Some(c) => Some(c),
        None => next_cursor,
    };
    match c {
        Some(x) => {
            if x.as_str().unicode_len() == 0 {
                None
            } else {
                Some(x)
            }
        },
        None => None,
    }
}

/// An event is wanted when its ticker has a target prefix or any of its
/// ticker, title, subtitle or category names a configured asset.
pub open spec fn wanted_event(
    ticker: Seq<char>,
    title: Seq<char>,
    subtitle: Option<Seq<char>>,
    category: Option<Seq<char>>,
    prefixes: Seq<String>,
    assets: Seq<String>,
) -> bool {
    ||| has_target_prefix(upper_of(ticker), prefixes)
    ||| names_any_asset(lower_of(title), assets)
    ||| (subtitle matches Some(s) && names_any_asset(lower_of(s), assets))
    ||| (category matches Some(c) && names_any_asset(lower_of(c), assets))
    ||| names_any_asset(lower_of(ticker), assets)
}

pub fn is_wanted_event(
    event_ticker: &str,
    title: &str,
    subtitle: Option<&str>,
    category: Option<&str>,
    prefixes: &[String],
    assets: &[String],
) -> (r: bool)
    ensures
        r == wanted_event(
            event_ticker@,
            title@,
            crate::lag::opt_view(subtitle),
            crate::lag::opt_view(category),
            prefixes@,
            assets@,
        ),
{
    if is_target_event(event_ticker, prefixes) || is_crypto_text(title, assets) {
        return true;
    }
    if let Some(s) = subtitle {
        if is_crypto_text(s, assets) {
            return true;
        }
    }
    if let Some(c) = category {
        if is_crypto_text(c, assets) {
            return true;
        }
    }
    is_crypto_text(event_ticker, assets)
}

/// A series is kept when it states a frequency and, unless no frequency is
/// asked for, that frequency is the one asked for once made canonical.
pub fn series_matches(frequency: Option<&str>, wanted: &str) -> (r: bool)
    ensures
        r == match frequency {
            Some(f) => wanted@.len() == 0 || canonical_frequency_of(f@) == wanted@,
            None => false,
        },
{
    match frequency {
        Some(f) => {
            let w = chars_of(wanted);
            let c = chars_of(canonical_frequency(f).as_str());
            w.len() == 0 || crate::text::same_chars(&c, &w)
        },
        None => false,
    }
}

/// The text that a request signature covers: timestamp, method, and the
/// path up to its query.
pub open spec fn signing_text(timestamp: Seq<char>, method: Seq<char>, full_path: Seq<char>) -> Seq<
    char,
> {
    let path = match first_index(full_path, "?"@) {
        Some(i) => full_path.subrange(0, i),
        None => full_path,
    };
    timestamp + method + path
}

pub fn signing_message(timestamp: &str, method: &str, full_path: &str) -> (r: String)
    ensures
        r@ == signing_text(timestamp@, method@, full_path@),
{
    let p = chars_of(full_path);
    let end = match find_first(&p, &chars_of("?")) {
        Some(i) => i,
        None => p.len(),
    };
    assert(p@.subrange(0, p@.len() as int) =~= p@);
    let mut r = String::new();
    push_text(&mut r, timestamp);
    push_text(&mut r, method);
    push_text(&mut r, string_of_range(&p, 0, end).as_str());
    assert(r@ =~= signing_text(timestamp@, method@, full_path@));
    r
}

} // verus!
