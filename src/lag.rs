//! The lag signal model: direction and strike read from a market's text,
//! and the logistic model that prices "above the strike".

use vstd::prelude::*;

use crate::amount::{
    all_digits, amount_of, digit_run_end, is_digit, parse_amount, AMOUNT_LIMIT, AMOUNT_SCALE,
};
use crate::text::{chars_of, contains_text, has_substring, lower_of, lowercase, push_char, push_text};

verus! {

/// Smallest figure in a title that can be a strike: 100 (in units).
pub const MIN_STRIKE: i64 = 10_000_000_000;

#[derive(Clone, Copy, Debug, PartialEq, Eq, Structural)]
pub enum Direction {
    Above,
    Below,
}

impl Direction {
    /// "above" or "below".
    pub fn as_text(&self) -> (r: &'static str)
        ensures
            r@ == direction_word(*self),
    {
        match self {
            Direction::Above => "above",
            Direction::Below => "below",
        }
    }
}

pub open spec fn direction_word(d: Direction) -> Seq<char> {
    match d {
        Direction::Above => "above"@,
        Direction::Below => "below"@,
    }
}

// ---------------------------------------------------------------- direction

/// The text searched for direction phrases: the lower-cased title, then a
/// space and the lower-cased subtitle when there is one.
pub open spec fn direction_text(title: Seq<char>, subtitle: Option<Seq<char>>) -> Seq<char> {
    match subtitle {
        Some(s) => lower_of(title) + seq![' '] + lower_of(s),
        None => lower_of(title),
    }
}

pub open spec fn says_above(t: Seq<char>) -> bool {
    ||| has_substring(t, " at or above "@)
    ||| has_substring(t, " above "@)
    ||| has_substring(t, " over "@)
    ||| has_substring(t, " greater than "@)
    ||| has_substring(t, " higher than "@)
}

pub open spec fn says_below(t: Seq<char>) -> bool {
    ||| has_substring(t, " at or below "@)
    ||| has_substring(t, " below "@)
    ||| has_substring(t, " under "@)
    ||| has_substring(t, " less than "@)
    ||| has_substring(t, " lower than "@)
}

/// Above phrases take precedence over below phrases.
pub open spec fn direction_of(t: Seq<char>) -> Option<Direction> {
    if says_above(t) {
        Some(Direction::Above)
    } else if says_below(t) {
        Some(Direction::Below)
    } else {
        None
    }
}

pub open spec fn opt_view(s: Option<&str>) -> Option<Seq<char>> {
    match s {
        Some(x) => Some(x@),
        None => None,
    }
}

pub fn parse_direction(title: &str, subtitle: Option<&str>) -> (r: Option<Direction>)
    ensures
        r == direction_of(direction_text(title@, opt_view(subtitle))),
{
    let mut text = lowercase(title);
    match subtitle {
        Some(sub) => {
            push_char(&mut text, ' ');
            let lower_sub = lowercase(sub);
            push_text(&mut text, lower_sub.as_str());
            assert(text@ =~= direction_text(title@, opt_view(subtitle)));
        },
        None => {},
    }
    let t = chars_of(text.as_str());
    if contains_text(&t, " at or above ") || contains_text(&t, " above ") || contains_text(
        &t,
        " over ",
    ) || contains_text(&t, " greater than ") || contains_text(&t, " higher than ") {
        return Some(Direction::Above);
    }
    if contains_text(&t, " at or below ") || contains_text(&t, " below ") || contains_text(
        &t,
        " under ",
    ) || contains_text(&t, " less than ") || contains_text(&t, " lower than ") {
        return Some(Direction::Below);
    }
    None
}

pub open spec fn opt_string(s: Option<String>) -> Option<Seq<char>> {
    match s {
        Some(x) => Some(x@),
        None => None,
    }
}

// ------------------------------------------------------------ number tokens

/// Length of the run of digits of `s` that starts at `p`.
pub open spec fn digit_run(s: Seq<char>, p: int) -> nat
    decreases s.len() - p,
{
    if 0 <= p < s.len() && is_digit(s[p]) {
        1 + digit_run(s, p + 1)
    } else {
        0
    }
}

/// End of the comma groups (`,` and three digits, repeated) from `q`.
pub open spec fn groups_end(s: Seq<char>, q: int) -> int
    decreases s.len() - q,
{
    if 0 <= q && q + 4 <= s.len() && s[q] == ',' && is_digit(s[q + 1]) && is_digit(s[q + 2])
        && is_digit(s[q + 3]) {
        groups_end(s, q + 4)
    } else {
        q
    }
}

/// End of the optional fraction (`.` and digits) at `q`.
pub open spec fn fraction_end(s: Seq<char>, q: int) -> int {
    if 0 <= q && q + 1 < s.len() && s[q] == '.' && is_digit(s[q + 1]) {
        q + 1 + digit_run(s, q + 1)
    } else {
        q
    }
}

/// End of the number token that starts at `i` (an optional `$`, one to
/// three digits, comma groups, an optional fraction; each part as long as
/// it can be), or `i` itself when no token starts there.
pub open spec fn token_end(s: Seq<char>, i: int) -> int {
    let p = if 0 <= i < s.len() && s[i] == '$' {
        i + 1
    } else {
        i
    };
    let d = if digit_run(s, p) > 3 {
        3
    } else {
        digit_run(s, p) as int
    };
    if d == 0 {
        i
    } else {
        fraction_end(s, groups_end(s, p + d))
    }
}

/// The number tokens of `s` from `i` on, leftmost first, never overlapping.
pub open spec fn tokens_from(s: Seq<char>, i: int) -> Seq<Seq<char>>
    decreases s.len() - i,
{
    if i < 0 || i >= s.len() {
        Seq::empty()
    } else {
        let e = token_end(s, i);
        if i < e <= s.len() {
            seq![s.subrange(i, e)] + tokens_from(s, e)
        } else {
            tokens_from(s, i + 1)
        }
    }
}

pub open spec fn number_tokens(s: Seq<char>) -> Seq<Seq<char>> {
    tokens_from(s, 0)
}

/// A token without its `$` and `,` characters.
pub open spec fn strip_marks(t: Seq<char>) -> Seq<char>
    decreases t.len(),
{
    if t.len() == 0 {
        t
    } else if t.last() == '$' || t.last() == ',' {
        strip_marks(t.drop_last())
    } else {
        strip_marks(t.drop_last()).push(t.last())
    }
}

/// The best strike so far after considering token `t`: the larger of the
/// two when `t` is an amount of at least 100.
pub open spec fn strike_step(best: Option<int>, t: Seq<char>) -> Option<int> {
    match amount_of(strip_marks(t)) {
        Some(v) => if v >= MIN_STRIKE {
            match best {
                Some(b) => if b >= v {
                    Some(b)
                } else {
                    Some(v)
                },
                None => Some(v),
            }
        } else {
            best
        },
        None => best,
    }
}

pub open spec fn strike_fold(best: Option<int>, toks: Seq<Seq<char>>) -> Option<int>
    decreases toks.len(),
{
    if toks.len() == 0 {
        best
    } else {
        strike_step(strike_fold(best, toks.drop_last()), toks.last())
    }
}

/// The strike a title and subtitle state: the largest token amount of at
/// least 100 over both texts.
pub open spec fn strike_of(title: Seq<char>, subtitle: Option<Seq<char>>) -> Option<int> {
    match subtitle {
        Some(s) => strike_fold(None, number_tokens(title) + number_tokens(s)),
        None => strike_fold(None, number_tokens(title)),
    }
}

proof fn lemma_digit_run_at_end(s: Seq<char>, p: int, end: int)
    requires
        0 <= p <= end <= s.len(),
        all_digits(s.subrange(p, end)),
        end == s.len() || !is_digit(s[end]),
    ensures
        digit_run(s, p) == end - p,
    decreases end - p,
{
    if p < end {
        assert(is_digit(s.subrange(p, end)[0]));
        assert forall|j: int| 0 <= j < end - (p + 1) implies is_digit(
            #[trigger] s.subrange(p + 1, end)[j],
        ) by {
            assert(s.subrange(p + 1, end)[j] == s.subrange(p, end)[j + 1]);
        }
        lemma_digit_run_at_end(s, p + 1, end);
    }
}

fn run_end(s: &Vec<char>, p: usize) -> (e: usize)
    requires
        p <= s.len(),
    ensures
        p <= e <= s.len(),
        e - p == digit_run(s@, p as int),
        all_digits(s@.subrange(p as int, e as int)),
{
    let e = digit_run_end(s, p);
    proof {
        lemma_digit_run_at_end(s@, p as int, e as int);
    }
    e
}

fn is_ascii_digit(c: char) -> (r: bool)
    ensures
        r == is_digit(c),
{
    '0' <= c && c <= '9'
}

fn groups_end_at(s: &Vec<char>, q: usize) -> (r: usize)
    requires
        q <= s.len(),
    ensures
        r == groups_end(s@, q as int),
        q <= r <= s.len(),
    decreases s.len() - q,
{
    if s.len() >= 4 && q <= s.len() - 4 && s[q] == ',' && is_ascii_digit(s[q + 1]) && is_ascii_digit(s[q + 2])
        && is_ascii_digit(s[q + 3]) {
        groups_end_at(s, q + 4)
    } else {
        q
    }
}

/// The end of the number token starting at `i` (see `token_end`).
pub fn token_end_at(s: &Vec<char>, i: usize) -> (r: usize)
    requires
        i < s.len(),
    ensures
        r == token_end(s@, i as int),
        i <= r <= s.len(),
{
    let p = if s[i] == '$' {
        i + 1
    } else {
        i
    };
    let run = run_end(s, p) - p;
    let d = if run > 3 {
        3
    } else {
        run
    };
    if d == 0 {
        return i;
    }
    let g = groups_end_at(s, p + d);
    if s.len() > 0 && g < s.len() - 1 && s[g] == '.' && is_ascii_digit(s[g + 1]) {
        run_end(s, g + 1)
    } else {
        g
    }
}

/// The characters of `s[from..to]` other than `$` and `,`.
fn stripped(s: &Vec<char>, from: usize, to: usize) -> (r: Vec<char>)
    requires
        from <= to <= s.len(),
    ensures
        r@ == strip_marks(s@.subrange(from as int, to as int)),
{
    let mut r: Vec<char> = Vec::new();
    let mut i: usize = from;
    assert(s@.subrange(from as int, from as int) =~= Seq::<char>::empty());
    while i < to
        invariant
            from <= i <= to <= s.len(),
            r@ == strip_marks(s@.subrange(from as int, i as int)),
        decreases to - i,
    {
        assert(s@.subrange(from as int, i + 1).drop_last() =~= s@.subrange(from as int, i as int));
        let c = s[i];
        if c != '$' && c != ',' {
            r.push(c);
        }
        i = i + 1;
    }
    r
}

/// The amount a number token spells once its `$` and `,` are removed.
pub fn parse_number_fragment(fragment: &str) -> (r: Option<i64>)
    ensures
        option_int_of(r) == amount_of(strip_marks(fragment@)),
{
    let v = chars_of(fragment);
    let digits = stripped(&v, 0, v.len());
    assert(v@.subrange(0, v@.len() as int) =~= v@);
    parse_amount(&digits)
}

proof fn lemma_strike_fold_concat(best: Option<int>, a: Seq<Seq<char>>, b: Seq<Seq<char>>)
    ensures
        strike_fold(best, a + b) == strike_fold(strike_fold(best, a), b),
    decreases b.len(),
{
    if b.len() == 0 {
        assert(a + b =~= a);
    } else {
        assert((a + b).drop_last() =~= a + b.drop_last());
        lemma_strike_fold_concat(best, a, b.drop_last());
    }
}

/// Folds the number tokens of `s` into the best strike so far.
fn scan_strike(s: &Vec<char>, best: Option<i64>) -> (r: Option<i64>)
    requires
        best matches Some(b) ==> 0 <= b < AMOUNT_LIMIT,
    ensures
        option_int_of(r) == strike_fold(option_int_of(best), number_tokens(s@)),
        r matches Some(b) ==> 0 <= b < AMOUNT_LIMIT,
{
    let ghost toks = number_tokens(s@);
    let ghost mut done: Seq<Seq<char>> = Seq::empty();
    let mut cur = best;
    let mut i: usize = 0;
    assert(toks == done + tokens_from(s@, 0));
    while i < s.len()
        invariant
            i <= s.len(),
            toks == done + tokens_from(s@, i as int),
            option_int_of(cur) == strike_fold(option_int_of(best), done),
            cur matches Some(b) ==> 0 <= b < AMOUNT_LIMIT,
        decreases s.len() - i,
    {
        let e = token_end_at(s, i);
        if e > i {
            let ghost tok = s@.subrange(i as int, e as int);
            let digits = stripped(s, i, e);
            let v = parse_amount(&digits);
            proof {
                assert(tokens_from(s@, i as int) == seq![tok] + tokens_from(s@, e as int));
                assert(done + tokens_from(s@, i as int) =~= done.push(tok) + tokens_from(
                    s@,
                    e as int,
                ));
                assert(done.push(tok).drop_last() =~= done);
                done = done.push(tok);
            }
            match v {
                Some(x) => {
                    if x >= MIN_STRIKE {
                        match cur {
                            Some(b) => {
                                if b < x {
                                    cur = Some(x);
                                }
                            },
                            None => {
                                cur = Some(x);
                            },
                        }
                    }
                },
                None => {},
            }
            i = e;
        } else {
            proof {
                assert(tokens_from(s@, i as int) == tokens_from(s@, i + 1));
            }
            i = i + 1;
        }
    }
    proof {
        assert(done + tokens_from(s@, i as int) =~= done);
    }
    cur
}

pub open spec fn option_int_of(o: Option<i64>) -> Option<int> {
    match o {
        Some(v) => Some(v as int),
        None => None,
    }
}

/// The strike stated by a title and optional subtitle (see `strike_of`).
pub fn parse_strike(title: &str, subtitle: Option<&str>) -> (r: Option<i64>)
    ensures
        option_int_of(r) == strike_of(title@, opt_view(subtitle)),
        r matches Some(v) ==> MIN_STRIKE <= v < AMOUNT_LIMIT,
{
    let t = chars_of(title);
    let first = scan_strike(&t, None);
    let r = match subtitle {
        Some(sub) => {
            let sv = chars_of(sub);
            proof {
                lemma_strike_fold_concat(None, number_tokens(t@), number_tokens(sv@));
            }
            scan_strike(&sv, first)
        },
        None => first,
    };
    proof {
        lemma_strike_fold_min(None, number_tokens(t@));
        if let Some(sub) = subtitle {
            lemma_strike_fold_min(None, number_tokens(t@) + number_tokens(sub@));
        }
    }
    r
}

proof fn lemma_strike_fold_min(best: Option<int>, toks: Seq<Seq<char>>)
    requires
        best matches Some(b) ==> b >= MIN_STRIKE,
    ensures
        strike_fold(best, toks) matches Some(b) ==> b >= MIN_STRIKE,
    decreases toks.len(),
{
    if toks.len() > 0 {
        lemma_strike_fold_min(best, toks.drop_last());
    }
}

// -------------------------------------------------------- probability model

/// The logistic model's argument `numerator / denominator`: the distance
/// from strike to reference price in basis points of the strike, divided by
/// the asset's scale in basis points.
#[derive(Clone, Debug)]
pub struct LogisticArgument {
    pub numerator: i128,
    pub denominator: i128,
}

/// Basis points of distance that move the logistic by one unit.
pub open spec fn scale_bps(asset: Seq<char>) -> int {
    if asset == "BTC"@ {
        45
    } else if asset == "ETH"@ {
        65
    } else {
        55
    }
}

pub open spec fn logit_numerator(reference_price: int, strike: int) -> int {
    (reference_price - strike) * 10000
}

pub open spec fn logit_denominator(asset: Seq<char>, strike: int) -> int {
    strike * scale_bps(asset)
}

fn asset_scale_bps(asset: &str) -> (r: i128)
    ensures
        r == scale_bps(asset@),
{
    let a = chars_of(asset);
    if crate::text::same_chars(&a, &chars_of("BTC")) {
        45
    } else if crate::text::same_chars(&a, &chars_of("ETH")) {
        65
    } else {
        55
    }
}

pub fn logistic_argument(asset: &str, reference_price: i64, strike: i64) -> (r: LogisticArgument)
    requires
        strike > 0,
    ensures
        r.numerator == logit_numerator(reference_price as int, strike as int),
        r.denominator == logit_denominator(asset@, strike as int),
        r.denominator > 0,
{
    let scale = asset_scale_bps(asset);
    LogisticArgument {
        numerator: (reference_price as i128 - strike as i128) * 10000,
        denominator: strike as i128 * scale,
    }
}

/// The model's probability of YES, given its probability of "above".
pub open spec fn model_yes(direction: Direction, above_prob: int) -> int {
    match direction {
        Direction::Above => above_prob,
        Direction::Below => AMOUNT_SCALE - above_prob,
    }
}

pub fn model_yes_probability(direction: Direction, above_prob: i64) -> (r: i64)
    requires
        0 <= above_prob <= AMOUNT_SCALE,
    ensures
        r == model_yes(direction, above_prob as int),
        0 <= r <= AMOUNT_SCALE,
{
    match direction {
        Direction::Above => above_prob,
        Direction::Below => AMOUNT_SCALE - above_prob,
    }
}

/// A reference price above the strike gives the logistic a positive
/// argument, and for an Above market the model's YES probability is that
/// logistic value itself.
pub proof fn lemma_reference_above_strike(
    asset: Seq<char>,
    reference_price: int,
    strike: int,
    above_prob: int,
)
    requires
        0 < strike < reference_price,
    ensures
        logit_numerator(reference_price, strike) > 0,
        logit_denominator(asset, strike) > 0,
        model_yes(Direction::Above, above_prob) == above_prob,
{
    assert(strike * scale_bps(asset) > 0) by (nonlinear_arith)
        requires
            strike > 0,
            scale_bps(asset) >= 45,
    ;
}

} // verus!
