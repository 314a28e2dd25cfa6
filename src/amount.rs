//! Fixed-point decimal amounts.
//!
//! Every price, probability and threshold in this library is an integer
//! count of hundred-millionths (`1 / AMOUNT_SCALE` of a unit). Texts are read
//! exactly: at most ten integer digits and at most eight fraction digits, so
//! every amount read from text lies below `AMOUNT_LIMIT`.

use vstd::prelude::*;

verus! {

/// Units per whole amount (one dollar, or probability one).
pub const AMOUNT_SCALE: i64 = 100_000_000;

/// Every amount read from text is strictly below this bound.
pub const AMOUNT_LIMIT: i64 = 1_000_000_000_000_000_000;

/// Most integer digits an amount text may have.
pub const MAX_INT_DIGITS: usize = 10;

/// Most fraction digits an amount text may have.
pub const MAX_FRAC_DIGITS: usize = 8;

pub open spec fn is_digit(c: char) -> bool {
    '0' <= c && c <= '9'
}

pub open spec fn digit_value(c: char) -> int {
    c as int - '0' as int
}

pub open spec fn all_digits(s: Seq<char>) -> bool {
    forall|i: int| 0 <= i < s.len() ==> is_digit(#[trigger] s[i])
}

/// The number that a run of decimal digits spells.
pub open spec fn digits_value(s: Seq<char>) -> int
    decreases s.len(),
{
    if s.len() == 0 {
        0
    } else {
        digits_value(s.drop_last()) * 10 + digit_value(s.last())
    }
}

pub open spec fn pow10(n: nat) -> int
    decreases n,
{
    if n == 0 {
        1
    } else {
        10 * pow10((n - 1) as nat)
    }
}

/// `s` is an amount text whose integer digits end at `n`: digits, then
/// optionally a point followed by digits, with at least one digit in all.
pub open spec fn amount_shape(s: Seq<char>, n: int) -> bool {
    &&& 0 <= n <= s.len()
    &&& all_digits(s.subrange(0, n))
    &&& n <= MAX_INT_DIGITS
    &&& if n == s.len() {
        n >= 1
    } else {
        &&& s[n] == '.'
        &&& all_digits(s.subrange(n + 1, s.len() as int))
        &&& s.len() - n - 1 <= MAX_FRAC_DIGITS
        &&& (n >= 1 || s.len() - n - 1 >= 1)
    }
}

/// The amount, in units, that `s` spells when split at `n`.
pub open spec fn amount_value(s: Seq<char>, n: int) -> int {
    let frac = if n < s.len() {
        s.subrange(n + 1, s.len() as int)
    } else {
        Seq::<char>::empty()
    };
    digits_value(s.subrange(0, n)) * AMOUNT_SCALE + digits_value(frac) * pow10(
        (MAX_FRAC_DIGITS - frac.len()) as nat,
    )
}

/// The non-negative amount that the text `s` spells, if it is one.
pub open spec fn amount_of(s: Seq<char>) -> Option<int> {
    if exists|n: int| amount_shape(s, n) {
        Some(amount_value(s, choose|n: int| amount_shape(s, n)))
    } else {
        None
    }
}

/// The amount that `s` spells, with an optional leading `-` or `+` sign.
pub open spec fn signed_amount_of(s: Seq<char>) -> Option<int> {
    if s.len() > 0 && s[0] == '-' {
        match amount_of(s.drop_first()) {
            Some(v) => Some(-v),
            None => None,
        }
    } else if s.len() > 0 && s[0] == '+' {
        amount_of(s.drop_first())
    } else {
        amount_of(s)
    }
}

pub proof fn lemma_pow10_values()
    ensures
        pow10(8) == 100_000_000,
        pow10(10) == 10_000_000_000,
        pow10(18) == 1_000_000_000_000_000_000,
{
    assert(pow10(0) == 1);
    assert(pow10(1) == 10);
    assert(pow10(2) == 100);
    assert(pow10(3) == 1000);
    assert(pow10(4) == 10000);
    assert(pow10(5) == 100000);
    assert(pow10(6) == 1000000);
    assert(pow10(7) == 10000000);
    assert(pow10(8) == 100000000);
    assert(pow10(9) == 1000000000);
    assert(pow10(10) == 10000000000);
    assert(pow10(11) == 100000000000);
    assert(pow10(12) == 1000000000000);
    assert(pow10(13) == 10000000000000);
    assert(pow10(14) == 100000000000000);
    assert(pow10(15) == 1000000000000000);
    assert(pow10(16) == 10000000000000000);
    assert(pow10(17) == 100000000000000000);
    assert(pow10(18) == 1000000000000000000);
}

pub proof fn lemma_pow10_positive(n: nat)
    ensures
        pow10(n) >= 1,
    decreases n,
{
    if n > 0 {
        lemma_pow10_positive((n - 1) as nat);
    }
}

pub proof fn lemma_pow10_monotone(a: nat, b: nat)
    requires
        a <= b,
    ensures
        pow10(a) <= pow10(b),
    decreases b,
{
    if a < b {
        lemma_pow10_monotone(a, (b - 1) as nat);
        lemma_pow10_positive((b - 1) as nat);
    }
}

pub proof fn lemma_digits_value_bound(s: Seq<char>)
    requires
        all_digits(s),
    ensures
        0 <= digits_value(s) < pow10(s.len()),
    decreases s.len(),
{
    if s.len() > 0 {
        let p = s.drop_last();
        assert(all_digits(p)) by {
            assert forall|i: int| 0 <= i < p.len() implies is_digit(#[trigger] p[i]) by {
                assert(p[i] == s[i]);
            }
        }
        assert(is_digit(s[s.len() - 1]));
        lemma_digits_value_bound(p);
    }
}

proof fn lemma_digit_extend(s: Seq<char>, from: int, k: int)
    requires
        0 <= from <= k < s.len(),
    ensures
        digits_value(s.subrange(from, k + 1)) == digits_value(s.subrange(from, k)) * 10
            + digit_value(s[k]),
{
    assert(s.subrange(from, k + 1).drop_last() =~= s.subrange(from, k));
}

/// The end of the run of digits in `s` that starts at `from`.
pub fn digit_run_end(s: &Vec<char>, from: usize) -> (end: usize)
    requires
        from <= s.len(),
    ensures
        from <= end <= s.len(),
        all_digits(s@.subrange(from as int, end as int)),
        end == s.len() || !is_digit(s@[end as int]),
{
    let mut i: usize = from;
    while i < s.len() && '0' <= s[i] && s[i] <= '9'
        invariant
            from <= i <= s.len(),
            all_digits(s@.subrange(from as int, i as int)),
        decreases s.len() - i,
    {
        i = i + 1;
        assert(all_digits(s@.subrange(from as int, i as int))) by {
            assert forall|j: int| 0 <= j < i - from implies is_digit(
                #[trigger] s@.subrange(from as int, i as int)[j],
            ) by {
                if j < i - 1 - from {
                    assert(s@.subrange(from as int, i as int)[j] == s@.subrange(
                        from as int,
                        i - 1,
                    )[j]);
                }
            }
        }
    }
    i
}

/// The number spelled by the digits of `s` in `from..to`.
pub fn digits_to_int(s: &Vec<char>, from: usize, to: usize) -> (r: i64)
    requires
        from <= to <= s.len(),
        to - from <= 18,
        all_digits(s@.subrange(from as int, to as int)),
    ensures
        r == digits_value(s@.subrange(from as int, to as int)),
        0 <= r < pow10((to - from) as nat),
{
    let mut r: i64 = 0;
    let mut i: usize = from;
    proof {
        assert(s@.subrange(from as int, from as int) =~= Seq::<char>::empty());
    }
    while i < to
        invariant
            from <= i <= to <= s.len(),
            to - from <= 18,
            all_digits(s@.subrange(from as int, to as int)),
            r == digits_value(s@.subrange(from as int, i as int)),
            0 <= r < pow10((i - from) as nat),
        decreases to - i,
    {
        assert(is_digit(s@.subrange(from as int, to as int)[i - from]));
        let d = (s[i] as u32 - '0' as u32) as i64;
        proof {
            lemma_digit_extend(s@, from as int, i as int);
            lemma_pow10_monotone((i + 1 - from) as nat, 18);
            lemma_pow10_values();
        }
        r = r * 10 + d;
        i = i + 1;
    }
    r
}

/// `10^k` as an integer.
pub fn pow10_int(k: usize) -> (r: i64)
    requires
        k <= 18,
    ensures
        r == pow10(k as nat),
{
    let mut r: i64 = 1;
    let mut i: usize = 0;
    while i < k
        invariant
            i <= k <= 18,
            r == pow10(i as nat),
        decreases k - i,
    {
        proof {
            lemma_pow10_monotone((i + 1) as nat, 18);
            lemma_pow10_values();
        }
        assert(pow10((i + 1) as nat) == 10 * pow10(i as nat));
        proof {
            lemma_pow10_positive(i as nat);
        }
        r = r * 10;
        i = i + 1;
    }
    r
}

proof fn lemma_shape_unique(s: Seq<char>, n: int, m: int)
    requires
        amount_shape(s, n),
        amount_shape(s, m),
    ensures
        n == m,
{
    if n < m {
        assert(is_digit(s.subrange(0, m)[n]));
    } else if m < n {
        assert(is_digit(s.subrange(0, n)[m]));
    }
}

/// Every shape split of `s` ends its integer digits at `n`.
proof fn lemma_shape_at_run_end(s: Seq<char>, n: int)
    requires
        0 <= n <= s.len(),
        all_digits(s.subrange(0, n)),
        n == s.len() || !is_digit(s[n]),
    ensures
        forall|m: int| amount_shape(s, m) ==> m == n,
{
    assert forall|m: int| amount_shape(s, m) implies m == n by {
        if m < n {
            assert(is_digit(s.subrange(0, n)[m]));
        } else if n < m {
            assert(is_digit(s.subrange(0, m)[n]));
        }
    }
}

proof fn lemma_amount_value_bound(s: Seq<char>, n: int)
    requires
        amount_shape(s, n),
    ensures
        0 <= amount_value(s, n) < AMOUNT_LIMIT,
{
    let frac = if n < s.len() {
        s.subrange(n + 1, s.len() as int)
    } else {
        Seq::<char>::empty()
    };
    let iv = digits_value(s.subrange(0, n));
    let fv = digits_value(frac);
    let p = pow10((MAX_FRAC_DIGITS - frac.len()) as nat);
    lemma_digits_value_bound(s.subrange(0, n));
    lemma_digits_value_bound(frac);
    lemma_pow10_monotone(n as nat, 10);
    lemma_pow10_positive((MAX_FRAC_DIGITS - frac.len()) as nat);
    lemma_pow10_values();
    
    assert(pow10(frac.len()) * p == pow10(8)) by {
        lemma_pow10_add(frac.len(), (MAX_FRAC_DIGITS - frac.len()) as nat);
    }
    assert(fv * p < pow10(frac.len()) * p) by (nonlinear_arith)
        requires
            fv < pow10(frac.len()),
            p >= 1,
    ;
    assert(0 <= fv * p) by (nonlinear_arith)
        requires
            fv >= 0,
            p >= 1,
    ;
    assert(0 <= iv * AMOUNT_SCALE <= 9_999_999_999 * AMOUNT_SCALE) by (nonlinear_arith)
        requires
            0 <= iv <= 9_999_999_999,
    ;
}

pub proof fn lemma_pow10_add(a: nat, b: nat)
    ensures
        pow10(a) * pow10(b) == pow10(a + b),
    decreases a,
{
    if a > 0 {
        lemma_pow10_add((a - 1) as nat, b);
        assert(pow10(a) * pow10(b) == 10 * (pow10((a - 1) as nat) * pow10(b))) by (nonlinear_arith)
            requires
                pow10(a) == 10 * pow10((a - 1) as nat),
        ;
    }
}

/// Reads a non-negative amount text (see `amount_of`) held in `s`.
pub fn parse_amount(s: &Vec<char>) -> (r: Option<i64>)
    ensures
        match r {
            Some(v) => amount_of(s@) == Some(v as int),
            None => amount_of(s@) is None,
        },
        r matches Some(v) ==> 0 <= v < AMOUNT_LIMIT,
{
    let n = digit_run_end(s, 0);
    proof {
        lemma_shape_at_run_end(s@, n as int);
    }
    if n > MAX_INT_DIGITS {
        assert(!exists|m: int| amount_shape(s@, m));
        return None;
    }
    let int_part = digits_to_int(s, 0, n);
    let mut frac_len: usize = 0;
    let mut frac_part: i64 = 0;
    if n < s.len() {
        if s[n] != '.' {
            assert(!exists|m: int| amount_shape(s@, m));
            return None;
        }
        let end = digit_run_end(s, n + 1);
        if end != s.len() || end - (n + 1) > MAX_FRAC_DIGITS {
            assert(!exists|m: int| amount_shape(s@, m)) by {
                if end != s.len() {
                    assert(!is_digit(s@[end as int]));
                    assert(!all_digits(s@.subrange(n + 1, s.len() as int))) by {
                        assert(s@.subrange(n + 1, s.len() as int)[end - n - 1] == s@[end as int]);
                    }
                }
            }
            return None;
        }
        frac_len = end - (n + 1);
        frac_part = digits_to_int(s, n + 1, end);
    }
    if n == 0 && frac_len == 0 {
        assert(!exists|m: int| amount_shape(s@, m));
        return None;
    }
    proof {
        assert(amount_shape(s@, n as int));
        lemma_amount_value_bound(s@, n as int);
        let c = choose|m: int| amount_shape(s@, m);
        lemma_shape_unique(s@, n as int, c);
        if n == s.len() {
            assert(digits_value(Seq::<char>::empty()) == 0);
        }
    }
    let pad = pow10_int(MAX_FRAC_DIGITS - frac_len);
    proof {
        lemma_pow10_positive((MAX_FRAC_DIGITS - frac_len) as nat);
        lemma_digits_value_bound(s@.subrange(0, n as int));
        lemma_pow10_monotone(n as nat, 10);
        lemma_pow10_values();
        
        if n < s.len() {
            lemma_pow10_add(frac_len as nat, (MAX_FRAC_DIGITS - frac_len) as nat);
        }
        assert(frac_part * pad < 100_000_000) by (nonlinear_arith)
            requires
                0 <= frac_part < pow10(frac_len as nat),
                pad >= 1,
                pow10(frac_len as nat) * pad == 100_000_000,
        ;
        assert(0 <= frac_part * pad) by (nonlinear_arith)
            requires
                0 <= frac_part,
                pad >= 1,
        ;
        assert(0 <= int_part * AMOUNT_SCALE <= 9_999_999_999 * AMOUNT_SCALE) by (nonlinear_arith)
            requires
                0 <= int_part <= 9_999_999_999,
        ;
    }
    Some(int_part * AMOUNT_SCALE + frac_part * pad)
}

/// Reads an amount text with an optional leading sign (see `signed_amount_of`).
pub fn parse_signed_amount(s: &Vec<char>) -> (r: Option<i64>)
    ensures
        match r {
            Some(v) => signed_amount_of(s@) == Some(v as int),
            None => signed_amount_of(s@) is None,
        },
        r matches Some(v) ==> -AMOUNT_LIMIT < v < AMOUNT_LIMIT,
{
    if s.len() > 0 && (s[0] == '-' || s[0] == '+') {
        let mut body: Vec<char> = Vec::new();
        let mut i: usize = 1;
        while i < s.len()
            invariant
                1 <= i <= s.len(),
                body@ == s@.subrange(1, i as int),
            decreases s.len() - i,
        {
            body.push(s[i]);
            i = i + 1;
        }
        assert(body@ =~= s@.drop_first());
        let v = parse_amount(&body);
        match v {
            Some(x) => {
                if s[0] == '-' {
                    Some(-x)
                } else {
                    Some(x)
                }
            },
            None => None,
        }
    } else {
        parse_amount(s)
    }
}

/// The integer a text spells as `i64::from_str` reads it: an optional sign
/// and at least one digit.
pub open spec fn decimal_int(s: Seq<char>) -> Option<int> {
    let neg = s.len() > 0 && s[0] == '-';
    let body = if s.len() > 0 && (s[0] == '-' || s[0] == '+') {
        s.drop_first()
    } else {
        s
    };
    if body.len() == 0 || !all_digits(body) {
        None
    } else if neg {
        Some(-digits_value(body))
    } else {
        Some(digits_value(body))
    }
}

/// `decimal_int(s)` when it lies in `lo..=hi`.
pub open spec fn int_in(s: Seq<char>, lo: int, hi: int) -> Option<int> {
    match decimal_int(s) {
        Some(v) => if lo <= v <= hi {
            Some(v)
        } else {
            None
        },
        None => None,
    }
}

/// `decimal_int(s)` when it fits in an `i64`.
pub open spec fn i64_of(s: Seq<char>) -> Option<int> {
    int_in(s, i64::MIN as int, i64::MAX as int)
}

proof fn lemma_digits_value_grows(s: Seq<char>, k: int)
    requires
        0 <= k <= s.len(),
        all_digits(s),
    ensures
        digits_value(s.subrange(0, k)) <= digits_value(s),
        0 <= digits_value(s.subrange(0, k)),
    decreases s.len() - k,
{
    crate::amount::lemma_digits_value_bound(s.subrange(0, k));
    if k < s.len() {
        assert(s.subrange(0, k + 1).drop_last() =~= s.subrange(0, k));
        assert(is_digit(s[k]));
        crate::amount::lemma_digits_value_bound(s.subrange(0, k + 1));
        lemma_digits_value_grows(s, k + 1);
    } else {
        assert(s.subrange(0, k) =~= s);
    }
}

/// Reads a decimal integer in `lo..=hi` (see `int_in`).
pub fn parse_int_in(s: &Vec<char>, lo: i128, hi: i128) -> (r: Option<i128>)
    requires
        -100_000_000_000_000_000_000 <= lo,
        hi <= 100_000_000_000_000_000_000,
    ensures
        match r {
            Some(v) => int_in(s@, lo as int, hi as int) == Some(v as int),
            None => int_in(s@, lo as int, hi as int) is None,
        },
{
    let signed = s.len() > 0 && (s[0] == '-' || s[0] == '+');
    let neg = s.len() > 0 && s[0] == '-';
    let from: usize = if signed {
        1
    } else {
        0
    };
    let ghost body = s@.subrange(from as int, s@.len() as int);
    proof {
        if signed {
            assert(body =~= s@.drop_first());
        } else {
            assert(body =~= s@);
        }
    }
    if from == s.len() {
        return None;
    }
    let mut acc: i128 = 0;
    let mut i: usize = from;
    while i < s.len()
        invariant
            from <= i <= s.len(),
            from < s.len(),
            body == s@.subrange(from as int, s@.len() as int),
            signed == (s@.len() > 0 && (s@[0] == '-' || s@[0] == '+')),
            neg == (s@.len() > 0 && s@[0] == '-'),
            signed ==> body == s@.drop_first(),
            !signed ==> body == s@,
            all_digits(body.subrange(0, i - from)),
            acc == digits_value(body.subrange(0, i - from)),
            0 <= acc <= 100_000_000_000_000_000_000,
            -100_000_000_000_000_000_000 <= lo,
            hi <= 100_000_000_000_000_000_000,
        decreases s.len() - i,
    {
        let c = s[i];
        if c < '0' || c > '9' {
            proof {
                assert(body[i - from] == c);
                assert(!is_digit(body[i - from]));
            }
            return None;
        }
        proof {
            assert(body.subrange(0, i + 1 - from).drop_last() =~= body.subrange(0, i - from));
        }
        acc = acc * 10 + (c as u32 - '0' as u32) as i128;
        i = i + 1;
        proof {
            assert(all_digits(body.subrange(0, i - from))) by {
                assert forall|j: int| 0 <= j < i - from implies is_digit(
                    #[trigger] body.subrange(0, i - from)[j],
                ) by {
                    if j < i - 1 - from {
                        assert(body.subrange(0, i - from)[j] == body.subrange(0, i - 1 - from)[j]);
                    }
                }
            }
        }
        if acc > 100_000_000_000_000_000_000 {
            proof {
                assert(body.subrange(0, body.len() as int) =~= body);
                if all_digits(body) {
                    lemma_digits_value_grows(body, i - from);
                }
            }
            return None;
        }
    }
    proof {
        assert(body.subrange(0, i - from) =~= body);
    }
    let v = if neg {
        -acc
    } else {
        acc
    };
    if v < lo || v > hi {
        return None;
    }
    Some(v)
}

/// Reads an `i64` written in decimal (see `i64_of`).
pub fn parse_i64(s: &Vec<char>) -> (r: Option<i64>)
    ensures
        match r {
            Some(v) => i64_of(s@) == Some(v as int),
            None => i64_of(s@) is None,
        },
{
    match parse_int_in(s, i64::MIN as i128, i64::MAX as i128) {
        Some(v) => Some(v as i64),
        None => None,
    }
}

} // verus!
