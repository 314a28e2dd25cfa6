//! Reference-price aggregation: venue quotes in, one robust price per asset out.

use vstd::prelude::*;
use vstd::relations::{sorted_by, total_ordering};
use vstd::seq_lib::lemma_sorted_unique;

use crate::amount::{parse_signed_amount, signed_amount_of, AMOUNT_LIMIT};
use crate::text::{chars_of, string_of};

verus! {

broadcast use vstd::seq_lib::group_to_multiset_ensures;

/// One venue's quote: the mid of its bid and ask, in amount units.
#[derive(Clone, Debug)]
pub struct VenueQuote {
    pub venue: String,
    pub mid: i64,
}

/// Why a venue gave no usable quote.
#[derive(Clone, Debug)]
pub enum FetchError {
    /// The request or its decoding failed; the text says how.
    Transport(String),
    /// The bid was absent or is not an amount.
    InvalidBid,
    /// The ask was absent or is not an amount.
    InvalidAsk,
    /// The bid or the ask is not positive.
    NonPositive,
}

/// The reference price of one asset and the quotes it was taken from.
#[derive(Clone, Debug)]
pub struct AssetReference {
    pub asset: String,
    pub reference_price: i64,
    pub quotes: Vec<VenueQuote>,
}

/// The references of the two assets that the lag model prices.
#[derive(Clone, Debug)]
pub struct CexReferences {
    pub btc: Option<AssetReference>,
    pub eth: Option<AssetReference>,
}

/// A quote takes part in aggregation when its mid is a positive amount.
pub open spec fn quote_is_valid(q: VenueQuote) -> bool {
    0 < q.mid < AMOUNT_LIMIT
}

/// The valid quotes among the fetch results, in their order.
pub open spec fn valid_quotes(rs: Seq<Result<VenueQuote, FetchError>>) -> Seq<VenueQuote>
    decreases rs.len(),
{
    if rs.len() == 0 {
        Seq::empty()
    } else {
        let rest = valid_quotes(rs.drop_first());
        match rs[0] {
            Ok(q) => if quote_is_valid(q) {
                seq![q] + rest
            } else {
                rest
            },
            Err(_) => rest,
        }
    }
}

pub open spec fn mids_of(qs: Seq<VenueQuote>) -> Seq<i64> {
    qs.map_values(|q: VenueQuote| q.mid)
}

/// Ascending order on amounts.
pub open spec fn ascending() -> spec_fn(i64, i64) -> bool {
    |a: i64, b: i64| a <= b
}

/// The median of an ascending sequence: its central value, or the mean
/// (rounded down) of its two central values.
pub open spec fn median_of_sorted(s: Seq<i64>) -> int {
    let h = (s.len() / 2) as int;
    if s.len() % 2 == 0 {
        (s[h - 1] + s[h]) / 2
    } else {
        s[h] as int
    }
}

/// The standard median of a collection of amounts.
pub open spec fn median(s: Seq<i64>) -> int {
    median_of_sorted(s.sort_by(ascending()))
}

/// A reference needs at least `min_sources` valid quotes, and at least one.
pub open spec fn quorum_met(count: int, min_sources: int) -> bool {
    count >= min_sources && count >= 1
}

impl AssetReference {
    /// Holds only valid quotes, at least one, and their median as price.
    pub open spec fn wf(&self) -> bool {
        &&& self.quotes@.len() >= 1
        &&& forall|i: int| 0 <= i < self.quotes@.len() ==> quote_is_valid(#[trigger] self.quotes@[i])
        &&& self.reference_price == median(mids_of(self.quotes@))
    }
}

impl CexReferences {
    /// The reference of `asset` ("BTC" or "ETH"), if there is one.
    pub fn get(&self, asset: &str) -> (r: Option<&AssetReference>)
        ensures
            r == self.lookup(asset@),
    {
        let a = chars_of(asset);
        let btc = chars_of("BTC");
        let eth = chars_of("ETH");
        if crate::text::same_chars(&a, &btc) {
            match &self.btc {
                Some(x) => Some(x),
                None => None,
            }
        } else if crate::text::same_chars(&a, &eth) {
            match &self.eth {
                Some(x) => Some(x),
                None => None,
            }
        } else {
            None
        }
    }

    pub open spec fn lookup(&self, asset: Seq<char>) -> Option<&AssetReference> {
        if asset == "BTC"@ {
            match &self.btc {
                Some(x) => Some(x),
                None => None,
            }
        } else if asset == "ETH"@ {
            match &self.eth {
                Some(x) => Some(x),
                None => None,
            }
        } else {
            None
        }
    }
}

proof fn lemma_ascending_total()
    ensures
        total_ordering(ascending()),
{
}

/// The amounts of `v` in ascending order.
pub fn sort_ascending(v: &Vec<i64>) -> (r: Vec<i64>)
    ensures
        sorted_by(r@, ascending()),
        r@.to_multiset() == v@.to_multiset(),
        r@ == v@.sort_by(ascending()),
{
    let mut r: Vec<i64> = Vec::new();
    let mut i: usize = 0;
    while i < v.len()
        invariant
            i <= v.len(),
            sorted_by(r@, ascending()),
            r@.to_multiset() == v@.subrange(0, i as int).to_multiset(),
        decreases v.len() - i,
    {
        let x = v[i];
        let mut pos: usize = 0;
        while pos < r.len() && r[pos] <= x
            invariant
                pos <= r.len(),
                forall|j: int| 0 <= j < pos ==> r@[j] <= x,
            decreases r.len() - pos,
        {
            pos = pos + 1;
        }
        proof {
            assert forall|j: int| pos <= j < r@.len() implies x < r@[j] by {
                if j > pos {
                    assert(ascending()(r@[pos as int], r@[j]));
                }
            }
        }
        let ghost old_r = r@;
        r.insert(pos, x);
        proof {
            assert(r@ == old_r.insert(pos as int, x));
            assert forall|a: int, b: int| 0 <= a < b < r@.len() implies #[trigger] ascending()(
                r@[a],
                r@[b],
            ) by {
                if b < pos {
                    assert(ascending()(old_r[a], old_r[b]));
                } else if a > pos {
                    assert(ascending()(old_r[a - 1], old_r[b - 1]));
                } else if a < pos && b > pos {
                    assert(old_r[a] <= x);
                    assert(x < old_r[b - 1]);
                } else if a == pos {
                    assert(x < old_r[b - 1]);
                } else {
                    assert(old_r[a] <= x);
                }
            }
            assert(v@.subrange(0, i + 1) =~= v@.subrange(0, i as int).push(x));
        }
        i = i + 1;
    }
    proof {
        assert(v@.subrange(0, v@.len() as int) =~= v@);
        lemma_ascending_total();
        v@.lemma_sort_by_ensures(ascending());
        lemma_sorted_unique(r@, v@.sort_by(ascending()), ascending());
    }
    r
}

/// The median of a non-empty collection of amounts below `AMOUNT_LIMIT`.
pub fn median_price(mids: &Vec<i64>) -> (r: i64)
    requires
        mids@.len() >= 1,
        forall|i: int| 0 <= i < mids@.len() ==> 0 < #[trigger] mids@[i] < AMOUNT_LIMIT,
    ensures
        r == median(mids@),
        0 < r < AMOUNT_LIMIT,
{
    let sorted = sort_ascending(mids);
    proof {
        assert forall|k: int| 0 <= k < sorted@.len() implies 0 < #[trigger] sorted@[k]
            < AMOUNT_LIMIT by {
            assert(sorted@.to_multiset().contains(sorted@[k]));
            assert(mids@.to_multiset().contains(sorted@[k]));
        }
    }
    let n = sorted.len();
    proof {
        assert(sorted@.len() == sorted@.to_multiset().len());
        assert(mids@.len() == mids@.to_multiset().len());
    }
    if n % 2 == 0 {
        let right = n / 2;
        (sorted[right - 1] + sorted[right]) / 2
    } else {
        sorted[n / 2]
    }
}

/// Builds a quote from a venue's bid and ask texts: both must be positive
/// amounts, and the mid is their mean rounded down.
pub fn quote_from_bid_ask(venue: &str, bid: &str, ask: &str) -> (r: Result<VenueQuote, FetchError>)
    ensures
        match (signed_amount_of(bid@), signed_amount_of(ask@)) {
            (Some(b), Some(a)) => if b > 0 && a > 0 {
                r matches Ok(q) && q.venue@ == venue@ && q.mid == (b + a) / 2 && quote_is_valid(q)
            } else {
                r matches Err(FetchError::NonPositive)
            },
            (None, _) => r matches Err(FetchError::InvalidBid),
            (Some(_), None) => r matches Err(FetchError::InvalidAsk),
        },
{
    let b = parse_signed_amount(&chars_of(bid));
    let a = parse_signed_amount(&chars_of(ask));
    match (b, a) {
        (None, _) => Err(FetchError::InvalidBid),
        (Some(_), None) => Err(FetchError::InvalidAsk),
        (Some(b), Some(a)) => {
            if b <= 0 || a <= 0 {
                Err(FetchError::NonPositive)
            } else {
                let venue_name = string_of(&chars_of(venue));
                Ok(VenueQuote { venue: venue_name, mid: (b + a) / 2 })
            }
        },
    }
}

/// Aggregates one asset's fetch results: drops failures and invalid quotes,
/// and takes the median of the remaining mids, provided quorum is met.
pub fn build_reference(
    asset: &str,
    results: Vec<Result<VenueQuote, FetchError>>,
    min_sources: usize,
) -> (r: Option<AssetReference>)
    ensures
        r is Some <==> quorum_met(valid_quotes(results@).len() as int, min_sources as int),
        r matches Some(a) ==> {
            &&& a.asset@ == asset@
            &&& a.quotes@ == valid_quotes(results@)
            &&& a.reference_price == median(mids_of(valid_quotes(results@)))
            &&& a.wf()
        },
{
    let ghost all = results@;
    let mut rest = results;
    let mut quotes: Vec<VenueQuote> = Vec::new();
    let mut mids: Vec<i64> = Vec::new();
    proof {
        assert(quotes@ + valid_quotes(rest@) =~= valid_quotes(all));
    }
    while rest.len() > 0
        invariant
            valid_quotes(all) == quotes@ + valid_quotes(rest@),
            mids@ == mids_of(quotes@),
            forall|i: int| 0 <= i < quotes@.len() ==> quote_is_valid(#[trigger] quotes@[i]),
        decreases rest.len(),
    {
        let ghost before = rest@;
        let item = rest.remove(0);
        proof {
            assert(rest@ =~= before.drop_first());
        }
        match item {
            Ok(q) => {
                if 0 < q.mid && q.mid < AMOUNT_LIMIT {
                    let m = q.mid;
                    proof {
                        assert(quotes@.push(q) + valid_quotes(rest@) =~= quotes@ + (seq![q]
                            + valid_quotes(rest@)));
                    }
                    quotes.push(q);
                    mids.push(m);
                    proof {
                        assert(mids@ =~= mids_of(quotes@));
                    }
                }
            },
            Err(_) => {},
        }
    }
    proof {
        assert(quotes@ =~= valid_quotes(all));
    }
    if quotes.len() < min_sources || quotes.len() == 0 {
        return None;
    }
    proof {
        assert forall|i: int| 0 <= i < mids@.len() implies 0 < #[trigger] mids@[i]
            < AMOUNT_LIMIT by {
            assert(quote_is_valid(quotes@[i]));
        }
    }
    let price = median_price(&mids);
    Some(AssetReference { asset: string_of(&chars_of(asset)), reference_price: price, quotes })
}

/// Builds the BTC and ETH references from each asset's fetch results.
pub fn scan_btc_eth_references(
    min_sources: usize,
    btc_results: Vec<Result<VenueQuote, FetchError>>,
    eth_results: Vec<Result<VenueQuote, FetchError>>,
) -> (r: CexReferences)
    ensures
        r.btc is Some <==> quorum_met(valid_quotes(btc_results@).len() as int, min_sources as int),
        r.eth is Some <==> quorum_met(valid_quotes(eth_results@).len() as int, min_sources as int),
        r.btc matches Some(a) ==> a.wf() && a.asset@ == "BTC"@ && a.quotes@ == valid_quotes(
            btc_results@,
        ),
        r.eth matches Some(a) ==> a.wf() && a.asset@ == "ETH"@ && a.quotes@ == valid_quotes(
            eth_results@,
        ),
{
    let btc = build_reference("BTC", btc_results, min_sources);
    let eth = build_reference("ETH", eth_results, min_sources);
    CexReferences { btc, eth }
}

} // verus!
