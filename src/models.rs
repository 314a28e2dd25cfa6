//! Market snapshots, orders, and the text classifiers over a market.

use vstd::prelude::*;

use crate::text::{
    chars_of, contains_text, has_substring, lower_of, lowercase, push_char, push_text,
    same_chars,
};

verus! {

/// Seconds bound on a time: far beyond any calendar date a market uses.
pub const MAX_TIME_SECS: i64 = 1_000_000_000_000_000;

/// A UTC instant: whole seconds since the Unix epoch plus nanoseconds.
#[derive(Clone, Copy, Debug)]
pub struct UtcTime {
    pub secs: i64,
    pub nanos: u32,
}

impl UtcTime {
    pub open spec fn wf(&self) -> bool {
        &&& self.nanos < 1_000_000_000
        &&& -MAX_TIME_SECS <= self.secs <= MAX_TIME_SECS
    }

    pub open spec fn total_nanos(&self) -> int {
        self.secs * 1_000_000_000 + self.nanos
    }
}

/// Whole seconds from `now` until `close`, truncated toward zero.
pub open spec fn seconds_between(now: UtcTime, close: UtcTime) -> int {
    let d = close.total_nanos() - now.total_nanos();
    if d >= 0 {
        d / 1_000_000_000
    } else {
        -((-d) / 1_000_000_000)
    }
}

/// Whole seconds from `now` until `close`, truncated toward zero.
pub fn seconds_until(now: &UtcTime, close: &UtcTime) -> (r: i64)
    requires
        now.wf(),
        close.wf(),
    ensures
        r == seconds_between(*now, *close),
{
    let a = now.secs as i128 * 1_000_000_000 + now.nanos as i128;
    let b = close.secs as i128 * 1_000_000_000 + close.nanos as i128;
    let d = b - a;
    if d >= 0 {
        (d / 1_000_000_000) as i64
    } else {
        (-((-d) / 1_000_000_000)) as i64
    }
}

/// A market snapshot as the exchange lists it; asks are decimal texts.
#[derive(Clone, Debug)]
pub struct Market {
    pub ticker: String,
    pub title: String,
    pub subtitle: Option<String>,
    pub event_ticker: Option<String>,
    pub status: Option<String>,
    pub close_time: UtcTime,
    pub yes_ask_dollars: Option<String>,
    pub no_ask_dollars: Option<String>,
}

#[derive(Clone, Copy, Debug, PartialEq, Eq, Structural)]
pub enum Side {
    Yes,
    No,
}

/// An order to submit; the price is in amount units.
#[derive(Clone, Debug)]
pub struct OrderRequest {
    pub ticker: String,
    pub side: Side,
    pub price_dollars: i64,
    pub quantity: i64,
}

#[derive(Clone, Debug)]
pub struct OrderResponse {
    pub order_id: String,
}

/// `" " + s` when the text is present, nothing otherwise.
pub open spec fn spaced(s: Option<String>) -> Seq<char> {
    match s {
        Some(t) => seq![' '] + t@,
        None => Seq::empty(),
    }
}

pub open spec fn mentions_btc(h: Seq<char>) -> bool {
    has_substring(h, "btc"@) || has_substring(h, "bitcoin"@)
}

pub open spec fn mentions_eth(h: Seq<char>) -> bool {
    has_substring(h, "eth"@) || has_substring(h, "ethereum"@)
}

/// "BTC" when `h` mentions bitcoin, else "ETH" when it mentions ether.
pub open spec fn primary_asset_of(h: Seq<char>) -> Option<Seq<char>> {
    if mentions_btc(h) {
        Some("BTC"@)
    } else if mentions_eth(h) {
        Some("ETH"@)
    } else {
        None
    }
}

/// Whether the lower-cased text `h` names the asset key `a`, verbatim or
/// through its long name.
pub open spec fn asset_hit(h: Seq<char>, a: Seq<char>) -> bool {
    &&& a.len() > 0
    &&& {
        ||| has_substring(h, a)
        ||| (a == "btc"@ && has_substring(h, "bitcoin"@))
        ||| (a == "eth"@ && has_substring(h, "ethereum"@))
        ||| (a == "sol"@ && has_substring(h, "solana"@))
    }
}

/// Whether `h` names any of the asset keys.
pub open spec fn names_any_asset(h: Seq<char>, assets: Seq<String>) -> bool {
    exists|i: int| 0 <= i < assets.len() && asset_hit(h, #[trigger] assets[i]@)
}

/// Whether the lower-cased text `h` names any of `assets`.
pub fn mentions_any_asset(h: &Vec<char>, assets: &[String]) -> (r: bool)
    ensures
        r == names_any_asset(h@, assets@),
{
    let mut i: usize = 0;
    while i < assets.len()
        invariant
            i <= assets@.len(),
            forall|j: int| 0 <= j < i ==> !asset_hit(h@, #[trigger] assets@[j]@),
        decreases assets.len() - i,
    {
        let a = chars_of(assets[i].as_str());
        if a.len() > 0 {
            if crate::text::contains(h, &a) {
                return true;
            }
            if same_chars(&a, &chars_of("btc")) && contains_text(h, "bitcoin") {
                return true;
            }
            if same_chars(&a, &chars_of("eth")) && contains_text(h, "ethereum") {
                return true;
            }
            if same_chars(&a, &chars_of("sol")) && contains_text(h, "solana") {
                return true;
            }
        }
        i = i + 1;
    }
    false
}

fn push_spaced(s: &mut String, t: &Option<String>)
    ensures
        final(s)@ == old(s)@ + spaced(*t),
{
    match t {
        Some(x) => {
            push_char(s, ' ');
            push_text(s, x.as_str());
        },
        None => {
            assert(old(s)@ + spaced(*t) =~= old(s)@);
        },
    }
}

impl Market {
    /// Title, subtitle and event ticker, joined by single spaces.
    pub open spec fn joined_text(&self) -> Seq<char> {
        self.title@ + spaced(self.subtitle) + spaced(self.event_ticker)
    }

    /// The lower-cased joined text that the classifiers search.
    pub open spec fn haystack_text(&self) -> Seq<char> {
        lower_of(self.joined_text())
    }

    pub fn haystack(&self) -> (r: String)
        ensures
            r@ == self.haystack_text(),
    {
        let mut joined = String::new();
        push_text(&mut joined, self.title.as_str());
        push_spaced(&mut joined, &self.subtitle);
        push_spaced(&mut joined, &self.event_ticker);
        assert(joined@ =~= self.joined_text());
        lowercase(joined.as_str())
    }

    /// "BTC" when the market mentions bitcoin, else "ETH" when it mentions
    /// ether, else nothing.
    pub fn primary_asset(&self) -> (r: Option<&'static str>)
        ensures
            match r {
                Some(a) => primary_asset_of(self.haystack_text()) == Some(a@),
                None => primary_asset_of(self.haystack_text()) is None,
            },
    {
        let h = chars_of(self.haystack().as_str());
        if contains_text(&h, "btc") || contains_text(&h, "bitcoin") {
            return Some("BTC");
        }
        if contains_text(&h, "eth") || contains_text(&h, "ethereum") {
            return Some("ETH");
        }
        None
    }

    pub fn is_btc_related(&self) -> (r: bool)
        ensures
            r == mentions_btc(self.haystack_text()),
    {
        let h = chars_of(self.haystack().as_str());
        contains_text(&h, "btc") || contains_text(&h, "bitcoin")
    }

    /// Whether the market names one of the asset keys (see `asset_hit`).
    pub fn is_crypto_related(&self, assets: &[String]) -> (r: bool)
        ensures
            r == names_any_asset(self.haystack_text(), assets@),
            assets@.len() == 0 ==> !r,
    {
        let h = chars_of(self.haystack().as_str());
        mentions_any_asset(&h, assets)
    }
}

} // verus!
