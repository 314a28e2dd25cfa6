//! Reading a run log back for the run summary.

use vstd::prelude::*;

use crate::amount::{i64_of, parse_i64};
use crate::format::{nat_text, padded_text, push_nat, push_padded};
use crate::text::{
    chars_of, contains_text, has_substring, find_first, first_index, has_prefix, is_whitespace, is_whitespace_char, lines_of,
    push_text, slice_of, starts_with, string_of, text_lines, trim, trim_start_ws, trim_ws,
};

verus! {

/// "TTL <minutes>m<seconds, two digits>s", negative times shown as zero.
pub open spec fn ttl_text(seconds: int) -> Seq<char> {
    let v = if seconds < 0 {
        0
    } else {
        seconds
    };
    "TTL "@ + nat_text((v / 60) as nat) + "m"@ + padded_text((v % 60) as nat, 2) + "s"@
}

pub fn format_ttl(seconds: i64) -> (r: String)
    ensures
        r@ == ttl_text(seconds as int),
{
    let value: i64 = if seconds < 0 {
        0
    } else {
        seconds
    };
    let mut r = String::new();
    push_text(&mut r, "TTL ");
    push_nat(&mut r, (value / 60) as u64);
    push_text(&mut r, "m");
    push_padded(&mut r, (value % 60) as u64, 2);
    push_text(&mut r, "s");
    assert(r@ =~= ttl_text(seconds as int));
    r
}

/// The text between the first `start` marker and the next `end` marker.
pub open spec fn between_of(value: Seq<char>, start: Seq<char>, end: Seq<char>) -> Option<
    Seq<char>,
> {
    match first_index(value, start) {
        Some(i) => {
            let rest = value.subrange(i + start.len(), value.len() as int);
            match first_index(rest, end) {
                Some(j) => Some(rest.subrange(0, j)),
                None => None,
            }
        },
        None => None,
    }
}

pub fn extract_between(value: &str, start: &str, end: &str) -> (r: Option<String>)
    ensures
        match r {
            Some(x) => between_of(value@, start@, end@) == Some(x@),
            None => between_of(value@, start@, end@) is None,
        },
{
    let v = chars_of(value);
    let s = chars_of(start);
    let e = chars_of(end);
    let i = match find_first(&v, &s) {
        Some(i) => i,
        None => return None,
    };
    let n = v.len();
    assert(i + s@.len() <= n);
    let rest = slice_of(&v, i + s.len(), n);
    match find_first(&rest, &e) {
        Some(j) => Some(string_of(&slice_of(&rest, 0, j))),
        None => None,
    }
}

/// Length of the leading run of non-white-space characters of `t`.
pub open spec fn word_len(t: Seq<char>) -> nat
    decreases t.len(),
{
    if t.len() == 0 || is_whitespace(t[0]) {
        0
    } else {
        1 + word_len(t.drop_first())
    }
}

/// The first white-space separated word after the first `label`.
pub open spec fn value_of(value: Seq<char>, label: Seq<char>) -> Option<Seq<char>> {
    match first_index(value, label) {
        Some(i) => {
            let t = trim_start_ws(value.subrange(i + label.len(), value.len() as int));
            if t.len() == 0 {
                None
            } else {
                Some(t.subrange(0, word_len(t) as int))
            }
        },
        None => None,
    }
}

proof fn lemma_word_len(t: Seq<char>, from: int, to: int)
    requires
        0 <= from <= to <= t.len(),
        forall|k: int| from <= k < to ==> !is_whitespace(#[trigger] t[k]),
        to == t.len() || is_whitespace(t[to]),
    ensures
        word_len(t.subrange(from, t.len() as int)) == to - from,
    decreases to - from,
{
    if from < to {
        assert(t.subrange(from, t.len() as int).drop_first() =~= t.subrange(
            from + 1,
            t.len() as int,
        ));
        lemma_word_len(t, from + 1, to);
    }
}

pub fn extract_value(value: &str, label: &str) -> (r: Option<String>)
    ensures
        match r {
            Some(x) => value_of(value@, label@) == Some(x@),
            None => value_of(value@, label@) is None,
        },
{
    let v = chars_of(value);
    let l = chars_of(label);
    let i = match find_first(&v, &l) {
        Some(i) => i,
        None => return None,
    };
    let n = v.len();
    assert(i + l@.len() <= n);
    let rest = slice_of(&v, i + l.len(), n);
    let t = trim_leading(&rest);
    if t.len() == 0 {
        return None;
    }
    let mut k: usize = 0;
    while k < t.len() && !is_whitespace_char(t[k])
        invariant
            k <= t.len(),
            forall|j: int| 0 <= j < k ==> !is_whitespace(#[trigger] t@[j]),
        decreases t.len() - k,
    {
        k = k + 1;
    }
    proof {
        lemma_word_len(t@, 0, k as int);
        assert(t@.subrange(0, t@.len() as int) =~= t@);
    }
    Some(string_of(&slice_of(&t, 0, k)))
}

fn trim_leading(v: &Vec<char>) -> (r: Vec<char>)
    ensures
        r@ == trim_start_ws(v@),
{
    let mut i: usize = 0;
    assert(v@.subrange(0, v@.len() as int) =~= v@);
    while i < v.len() && is_whitespace_char(v[i])
        invariant
            i <= v.len(),
            trim_start_ws(v@.subrange(i as int, v@.len() as int)) == trim_start_ws(v@),
        decreases v.len() - i,
    {
        assert(v@.subrange(i as int, v@.len() as int).drop_first() =~= v@.subrange(
            i + 1,
            v@.len() as int,
        ));
        i = i + 1;
    }
    proof {
        assert(v@.subrange(0, v@.len() as int) =~= v@);
    }
    slice_of(v, i, v.len())
}

/// The trimmed rest of the first line that reports the opportunity count.
pub open spec fn opportunities_in(lines: Seq<Seq<char>>) -> Option<Seq<char>>
    decreases lines.len(),
{
    if lines.len() == 0 {
        None
    } else if has_prefix(lines[0], "Opportunities found: "@) {
        Some(
            trim_ws(
                lines[0].subrange("Opportunities found: "@.len() as int, lines[0].len() as int),
            ),
        )
    } else {
        opportunities_in(lines.drop_first())
    }
}

pub fn extract_opportunities(log: &str) -> (r: Option<String>)
    ensures
        match r {
            Some(x) => opportunities_in(text_lines(log@)) == Some(x@),
            None => opportunities_in(text_lines(log@)) is None,
        },
{
    let lines = lines_of(&chars_of(log));
    let ghost ls = text_lines(log@);
    let prefix = chars_of("Opportunities found: ");
    let mut i: usize = 0;
    assert(ls.subrange(0, ls.len() as int) =~= ls);
    while i < lines.len()
        invariant
            i <= lines@.len(),
            lines@.len() == ls.len(),
            forall|k: int| 0 <= k < lines@.len() ==> (#[trigger] lines@[k])@ == ls[k],
            opportunities_in(ls.subrange(i as int, ls.len() as int)) == opportunities_in(ls),
            prefix@ == "Opportunities found: "@,
            ls == text_lines(log@),
        decreases lines.len() - i,
    {
        let ghost tail = ls.subrange(i as int, ls.len() as int);
        assert(tail[0] == ls[i as int]);
        assert(tail.drop_first() =~= ls.subrange(i + 1, ls.len() as int));
        if starts_with(&lines[i], &prefix) {
            let l = &lines[i];
            let rest = slice_of(l, prefix.len(), l.len());
            let r = string_of(&trim(&rest));
            assert(opportunities_in(tail) == Some(r@));
            return Some(r);
        }
        assert(opportunities_in(tail) == opportunities_in(tail.drop_first()));
        i = i + 1;
    }
    assert(ls.subrange(0, ls.len() as int) =~= ls);
    None
}

/// Position of the last line that starts with "Error:".
pub open spec fn last_error_line(lines: Seq<Seq<char>>) -> Option<int>
    decreases lines.len(),
{
    if lines.len() == 0 {
        None
    } else if has_prefix(lines.last(), "Error:"@) {
        Some(lines.len() - 1)
    } else {
        last_error_line(lines.drop_last())
    }
}

/// How many lines from `from` on are indented continuation lines.
pub open spec fn continuation_len(lines: Seq<Seq<char>>, from: int) -> nat
    decreases lines.len() - from,
{
    if 0 <= from < lines.len() && has_prefix(lines[from], "  "@) {
        1 + continuation_len(lines, from + 1)
    } else {
        0
    }
}

/// The last error line and its indented continuation lines, cut to
/// `max_lines` with a "..." line when longer.
pub open spec fn error_block(lines: Seq<Seq<char>>, max_lines: int) -> Seq<Seq<char>> {
    match last_error_line(lines) {
        None => Seq::empty(),
        Some(s) => {
            let block = lines.subrange(s, s + 1 + continuation_len(lines, s + 1));
            if block.len() > max_lines {
                block.subrange(0, max_lines).push("..."@)
            } else {
                block
            }
        },
    }
}

proof fn lemma_last_error_bounds(lines: Seq<Seq<char>>)
    ensures
        last_error_line(lines) matches Some(s) ==> 0 <= s < lines.len(),
    decreases lines.len(),
{
    if lines.len() > 0 {
        lemma_last_error_bounds(lines.drop_last());
    }
}

pub fn extract_error_lines(log: &str, max_lines: usize) -> (r: Vec<String>)
    ensures
        r@.len() == error_block(text_lines(log@), max_lines as int).len(),
        forall|k: int|
            0 <= k < r@.len() ==> (#[trigger] r@[k])@ == error_block(
                text_lines(log@),
                max_lines as int,
            )[k],
{
    let lines = lines_of(&chars_of(log));
    let ghost ls = text_lines(log@);
    let error = chars_of("Error:");
    let indent = chars_of("  ");
    let mut start: Option<usize> = None;
    let mut i: usize = 0;
    while i < lines.len()
        invariant
            i <= lines@.len(),
            lines@.len() == ls.len(),
            forall|k: int| 0 <= k < lines@.len() ==> (#[trigger] lines@[k])@ == ls[k],
            error@ == "Error:"@,
            match start {
                Some(s) => last_error_line(ls.subrange(0, i as int)) == Some(s as int),
                None => last_error_line(ls.subrange(0, i as int)) is None,
            },
        decreases lines.len() - i,
    {
        assert(ls.subrange(0, i + 1).drop_last() =~= ls.subrange(0, i as int));
        assert(ls.subrange(0, i + 1).last() == ls[i as int]);
        if starts_with(&lines[i], &error) {
            start = Some(i);
        }
        i = i + 1;
    }
    assert(ls.subrange(0, ls.len() as int) =~= ls);
    proof {
        lemma_last_error_bounds(ls);
    }
    let s = match start {
        Some(s) => s,
        None => {
            return Vec::new();
        },
    };
    let mut end: usize = s + 1;
    while end < lines.len() && starts_with(&lines[end], &indent)
        invariant
            s < end <= lines@.len(),
            lines@.len() == ls.len(),
            forall|k: int| 0 <= k < lines@.len() ==> (#[trigger] lines@[k])@ == ls[k],
            continuation_len(ls, s + 1) == (end - s - 1) + continuation_len(ls, end as int),
            indent@ == "  "@,
        decreases lines.len() - end,
    {
        assert(continuation_len(ls, end as int) == 1 + continuation_len(ls, end + 1));
        end = end + 1;
    }
    let ghost block = ls.subrange(s as int, end as int);
    assert(continuation_len(ls, end as int) == 0);
    let keep = if end - s > max_lines {
        max_lines
    } else {
        end - s
    };
    let mut r: Vec<String> = Vec::new();
    let mut k: usize = 0;
    while k < keep
        invariant
            k <= keep <= end - s,
            s < end <= lines@.len(),
            lines@.len() == ls.len(),
            forall|j: int| 0 <= j < lines@.len() ==> (#[trigger] lines@[j])@ == ls[j],
            block == ls.subrange(s as int, end as int),
            r@.len() == k,
            forall|j: int| 0 <= j < k ==> (#[trigger] r@[j])@ == block[j],
        decreases keep - k,
    {
        r.push(string_of(&lines[s + k]));
        k = k + 1;
    }
    if end - s > max_lines {
        r.push(string_of(&chars_of("...")));
    }
    proof {
        assert(block == ls.subrange(s as int, s + 1 + continuation_len(ls, s + 1)));
    }
    r
}

/// `s` without its trailing `c` characters.
pub open spec fn trim_end_char(s: Seq<char>, c: char) -> Seq<char>
    decreases s.len(),
{
    if s.len() > 0 && s.last() == c {
        trim_end_char(s.drop_last(), c)
    } else {
        s
    }
}

fn trimmed_end_char(v: &Vec<char>, c: char, to: usize) -> (r: usize)
    requires
        to <= v.len(),
    ensures
        r <= to,
        v@.subrange(0, r as int) == trim_end_char(v@.subrange(0, to as int), c),
    decreases to,
{
    if to > 0 && v[to - 1] == c {
        assert(v@.subrange(0, to as int).drop_last() =~= v@.subrange(0, to - 1));
        trimmed_end_char(v, c, to - 1)
    } else {
        to
    }
}

/// What the summary remembers of the market being evaluated.
pub struct Pending {
    pub title: Option<Seq<char>>,
    pub ticker: Option<Seq<char>>,
    pub yes: Option<Seq<char>>,
    pub no: Option<Seq<char>>,
    pub ttl: Option<int>,
}

/// The summary built so far, and whether it is full.
pub struct Highlights {
    pub pending: Pending,
    pub text: Seq<char>,
    pub count: int,
    pub full: bool,
}

pub open spec fn first_piece(s: Seq<char>, sep: Seq<char>) -> Seq<char> {
    match first_index(s, sep) {
        Some(i) => s.subrange(0, i),
        None => s,
    }
}

/// The piece after the first separator, up to the next one.
pub open spec fn second_piece(s: Seq<char>, sep: Seq<char>) -> Option<Seq<char>> {
    match first_index(s, sep) {
        Some(i) => Some(first_piece(s.subrange(i + sep.len(), s.len() as int), sep)),
        None => None,
    }
}

/// Reads an "Evaluating market <ticker> | <details>" line.
pub open spec fn evaluating(p: Pending, rest: Seq<char>) -> Pending {
    let ticker = Some(trim_ws(first_piece(rest, " | "@)));
    match second_piece(rest, " | "@) {
        None => Pending { ticker, ..p },
        Some(d) => Pending {
            ticker,
            title: match between_of(d, "title='"@, "'"@) {
                Some(t) => Some(t),
                None => p.title,
            },
            ttl: match value_of(d, "ttl="@) {
                Some(t) => match i64_of(trim_end_char(t, 's')) {
                    Some(v) => Some(v),
                    None => p.ttl,
                },
                None => p.ttl,
            },
            yes: match value_of(d, "yes="@) {
                Some(y) => Some(y),
                None => p.yes,
            },
            no: match value_of(d, "no="@) {
                Some(n) => Some(n),
                None => p.no,
            },
        },
    }
}

/// The "prices — ttl" part of an entry, empty when neither is known.
pub open spec fn entry_info(p: Pending) -> Seq<char> {
    let price = match (p.yes, p.no) {
        (Some(y), Some(n)) => Some("YES "@ + y + " / NO "@ + n),
        _ => None,
    };
    match (price, p.ttl) {
        (Some(a), Some(t)) => a + " \u{2014} "@ + ttl_text(t),
        (Some(a), None) => a,
        (None, Some(t)) => ttl_text(t),
        (None, None) => Seq::empty(),
    }
}

/// Closes the pending market with `reason`, if its title and ticker are known.
pub open spec fn entry(h: Highlights, reason: Seq<char>, max_items: int) -> Highlights {
    match (h.pending.title, h.pending.ticker) {
        (Some(t), Some(k)) => {
            let info = entry_info(h.pending);
            let line = if info.len() == 0 {
                "\n- *"@ + t + "* ("@ + k + ") \u{2014} *"@ + reason + "*"@
            } else {
                "\n- *"@ + t + "* ("@ + k + ") \u{2014} "@ + info + " \u{2014} *"@ + reason + "*"@
            };
            Highlights {
                pending: Pending { title: None, ticker: None, yes: None, no: None, ttl: None },
                text: h.text + line,
                count: h.count + 1,
                full: h.count + 1 >= max_items,
            }
        },
        _ => Highlights {
            pending: Pending { title: None, ticker: None, ..h.pending },
            ..h
        },
    }
}

pub open spec fn skip_reason_text(skip: Seq<char>) -> Seq<char> {
    match between_of(skip, "combined "@, " >="@) {
        Some(c) => "combined "@ + trim_ws(c),
        None => trim_ws(skip),
    }
}

pub open spec fn highlight_step(h: Highlights, line: Seq<char>, max_items: int) -> Highlights {
    if has_prefix(line, "Evaluating market "@) {
        Highlights {
            pending: evaluating(
                h.pending,
                line.subrange("Evaluating market "@.len() as int, line.len() as int),
            ),
            ..h
        }
    } else if has_prefix(line, "  -> skip: "@) {
        entry(
            h,
            skip_reason_text(line.subrange("  -> skip: "@.len() as int, line.len() as int)),
            max_items,
        )
    } else if has_prefix(line, "  -> QUALIFY: "@) {
        entry(
            h,
            trim_ws(line.subrange("  -> QUALIFY: "@.len() as int, line.len() as int)),
            max_items,
        )
    } else {
        h
    }
}

pub open spec fn highlights_of(lines: Seq<Seq<char>>, max_items: int) -> Highlights
    decreases lines.len(),
{
    if lines.len() == 0 {
        Highlights {
            pending: Pending { title: None, ticker: None, yes: None, no: None, ttl: None },
            text: Seq::empty(),
            count: 0,
            full: false,
        }
    } else {
        let h = highlights_of(lines.drop_last(), max_items);
        if h.full {
            h
        } else {
            highlight_step(h, lines.last(), max_items)
        }
    }
}

pub open spec fn opt_chars(o: Option<Vec<char>>) -> Option<Seq<char>> {
    match o {
        Some(v) => Some(v@),
        None => None,
    }
}

pub open spec fn opt_i64(o: Option<i64>) -> Option<int> {
    match o {
        Some(v) => Some(v as int),
        None => None,
    }
}

fn first_piece_of(s: &Vec<char>, sep: &Vec<char>) -> (r: Vec<char>)
    ensures
        r@ == first_piece(s@, sep@),
{
    match find_first(s, sep) {
        Some(i) => slice_of(s, 0, i),
        None => slice_of(s, 0, s.len()),
    }
}

fn value_in(d: &Vec<char>, label: &str) -> (r: Option<Vec<char>>)
    ensures
        opt_chars(r) == value_of(d@, label@),
{
    match extract_value(string_of(d).as_str(), label) {
        Some(x) => Some(chars_of(x.as_str())),
        None => None,
    }
}

fn push_chars(r: &mut String, v: &Vec<char>)
    ensures
        final(r)@ == old(r)@ + v@,
{
    push_text(r, string_of(v).as_str());
}

/// The market being evaluated, as far as the log has shown it.
struct PendingMarket {
    title: Option<Vec<char>>,
    ticker: Option<Vec<char>>,
    yes: Option<Vec<char>>,
    no: Option<Vec<char>>,
    ttl: Option<i64>,
}

impl PendingMarket {
    spec fn view(&self) -> Pending {
        Pending {
            title: opt_chars(self.title),
            ticker: opt_chars(self.ticker),
            yes: opt_chars(self.yes),
            no: opt_chars(self.no),
            ttl: opt_i64(self.ttl),
        }
    }
}

fn read_ttl(d: &Vec<char>, old_ttl: Option<i64>) -> (r: Option<i64>)
    ensures
        opt_i64(r) == match value_of(d@, "ttl="@) {
            Some(t) => match i64_of(trim_end_char(t, 's')) {
                Some(v) => Some(v),
                None => opt_i64(old_ttl),
            },
            None => opt_i64(old_ttl),
        },
{
    match value_in(d, "ttl=") {
        Some(t) => {
            let e = trimmed_end_char(&t, 's', t.len());
            proof {
                assert(t@.subrange(0, t@.len() as int) =~= t@);
            }
            match parse_i64(&slice_of(&t, 0, e)) {
                Some(v) => Some(v),
                None => old_ttl,
            }
        },
        None => old_ttl,
    }
}

fn or_keep(new: Option<Vec<char>>, old: Option<Vec<char>>) -> (r: Option<Vec<char>>)
    ensures
        opt_chars(r) == match opt_chars(new) {
            Some(x) => Some(x),
            None => opt_chars(old),
        },
{
    match new {
        Some(x) => Some(x),
        None => old,
    }
}

fn read_evaluating(p: PendingMarket, rest: &Vec<char>) -> (r: PendingMarket)
    ensures
        r.view() == evaluating(p.view(), rest@),
{
    let sep = chars_of(" | ");
    let ticker = Some(trim(&first_piece_of(rest, &sep)));
    match find_first(rest, &sep) {
        Some(j) => {
            let n = rest.len();
            assert(j + sep@.len() <= n);
            let d = first_piece_of(&slice_of(rest, j + sep.len(), n), &sep);
            let title = match extract_between(string_of(&d).as_str(), "title='", "'") {
                Some(t) => Some(chars_of(t.as_str())),
                None => p.title,
            };
            let ttl = read_ttl(&d, p.ttl);
            let yes = or_keep(value_in(&d, "yes="), p.yes);
            let no = or_keep(value_in(&d, "no="), p.no);
            PendingMarket { title, ticker, yes, no, ttl }
        },
        None => PendingMarket { ticker, ..p },
    }
}

fn skip_reason_of(body: &Vec<char>) -> (r: Vec<char>)
    ensures
        r@ == skip_reason_text(body@),
{
    match extract_between(string_of(body).as_str(), "combined ", " >=") {
        Some(c) => {
            let mut r = chars_of("combined ");
            let tc = trim(&chars_of(c.as_str()));
            let ghost r0 = r@;
            let mut k: usize = 0;
            while k < tc.len()
                invariant
                    k <= tc.len(),
                    r@ == r0 + tc@.subrange(0, k as int),
                decreases tc.len() - k,
            {
                r.push(tc[k]);
                k = k + 1;
            }
            assert(tc@.subrange(0, tc@.len() as int) =~= tc@);
            r
        },
        None => trim(body),
    }
}

/// The summary line of a closed market entry.
pub open spec fn entry_line(t: Seq<char>, k: Seq<char>, p: Pending, reason: Seq<char>) -> Seq<
    char,
> {
    let info = entry_info(p);
    if info.len() == 0 {
        "\n- *"@ + t + "* ("@ + k + ") \u{2014} *"@ + reason + "*"@
    } else {
        "\n- *"@ + t + "* ("@ + k + ") \u{2014} "@ + info + " \u{2014} *"@ + reason + "*"@
    }
}

fn push_info(out: &mut String, p: &PendingMarket)
    ensures
        final(out)@ == old(out)@ + entry_info(p.view()),
{
    match (&p.yes, &p.no) {
        (Some(y), Some(n)) => {
            push_text(out, "YES ");
            push_chars(out, y);
            push_text(out, " / NO ");
            push_chars(out, n);
            if let Some(v) = p.ttl {
                push_text(out, " \u{2014} ");
                push_text(out, format_ttl(v).as_str());
            }
        },
        _ => {
            if let Some(v) = p.ttl {
                push_text(out, format_ttl(v).as_str());
            }
        },
    }
    assert(final(out)@ =~= old(out)@ + entry_info(p.view()));
}

fn push_entry(out: &mut String, t: &Vec<char>, k: &Vec<char>, p: &PendingMarket, reason: &Vec<char>)
    ensures
        final(out)@ == old(out)@ + entry_line(t@, k@, p.view(), reason@),
{
    let ghost start = out@;
    let has_info = (p.yes.is_some() && p.no.is_some()) || p.ttl.is_some();
    push_text(out, "\n- *");
    push_chars(out, t);
    push_text(out, "* (");
    push_chars(out, k);
    if !has_info {
        assert(entry_info(p.view()).len() == 0);
        push_text(out, ") \u{2014} *");
    } else {
        push_text(out, ") \u{2014} ");
        push_info(out, p);
        assert(entry_info(p.view()).len() > 0) by {
            reveal_strlit("YES ");
            reveal_strlit("TTL ");
        }
        push_text(out, " \u{2014} *");
    }
    push_chars(out, reason);
    push_text(out, "*");
    assert(out@ =~= start + entry_line(t@, k@, p.view(), reason@));
}

/// Lists, one line each, the markets that the log shows being skipped or
/// qualified, with their prices, time to close and reason; it stops after
/// the entry that reaches `max_items`.
pub fn format_highlights(log: &str, max_items: usize) -> (r: String)
    ensures
        r@ == highlights_of(text_lines(log@), max_items as int).text,
{
    let lines = lines_of(&chars_of(log));
    let ghost ls = text_lines(log@);
    let evaluating_prefix = chars_of("Evaluating market ");
    let skip_prefix = chars_of("  -> skip: ");
    let qualify_prefix = chars_of("  -> QUALIFY: ");
    let mut out = String::new();
    let mut p = PendingMarket { title: None, ticker: None, yes: None, no: None, ttl: None };
    let mut count: usize = 0;
    let mut i: usize = 0;
    while i < lines.len()
        invariant
            i <= lines@.len(),
            lines@.len() == ls.len(),
            forall|k: int| 0 <= k < lines@.len() ==> (#[trigger] lines@[k])@ == ls[k],
            evaluating_prefix@ == "Evaluating market "@,
            skip_prefix@ == "  -> skip: "@,
            qualify_prefix@ == "  -> QUALIFY: "@,
            ls == text_lines(log@),
            count <= i,
            !highlights_of(ls.subrange(0, i as int), max_items as int).full,
            highlights_of(ls.subrange(0, i as int), max_items as int).text == out@,
            highlights_of(ls.subrange(0, i as int), max_items as int).count == count,
            highlights_of(ls.subrange(0, i as int), max_items as int).pending == p.view(),
        decreases lines.len() - i,
    {
        let line = &lines[i];
        let ghost h = highlights_of(ls.subrange(0, i as int), max_items as int);
        proof {
            assert(ls.subrange(0, i + 1).drop_last() =~= ls.subrange(0, i as int));
            assert(ls.subrange(0, i + 1).last() == ls[i as int]);
        }
        if starts_with(line, &evaluating_prefix) {
            let rest = slice_of(line, evaluating_prefix.len(), line.len());
            p = read_evaluating(p, &rest);
        } else {
            let is_skip = starts_with(line, &skip_prefix);
            let is_qualify = !is_skip && starts_with(line, &qualify_prefix);
            if is_skip || is_qualify {
                let reason = if is_skip {
                    skip_reason_of(&slice_of(line, skip_prefix.len(), line.len()))
                } else {
                    trim(&slice_of(line, qualify_prefix.len(), line.len()))
                };
                let PendingMarket { title, ticker, yes, no, ttl } = p;
                match (title, ticker) {
                    (Some(t), Some(k)) => {
                        let q = PendingMarket { title: None, ticker: None, yes, no, ttl };
                        proof {
                            assert(entry_info(q.view()) == entry_info(h.pending));
                        }
                        push_entry(&mut out, &t, &k, &q, &reason);
                        p = PendingMarket { title: None, ticker: None, yes: None, no: None, ttl: None };
                        count = count + 1;
                        proof {
                            assert(highlights_of(ls.subrange(0, i + 1), max_items as int)
                                == highlight_step(h, ls[i as int], max_items as int));
                            assert(highlights_of(ls.subrange(0, i + 1), max_items as int).text
                                == out@);
                        }
                        if count >= max_items {
                            proof {
                                assert(ls.subrange(0, ls.len() as int) =~= ls);
                                lemma_full_stays(ls, i + 1, max_items as int);
                            }
                            return out;
                        }
                    },
                    _ => {
                        p = PendingMarket { title: None, ticker: None, yes, no, ttl };
                    },
                }
            }
        }
        i = i + 1;
    }
    assert(ls.subrange(0, ls.len() as int) =~= ls);
    out
}

/// Once the summary is full, later lines leave it as it is.
proof fn lemma_full_stays(ls: Seq<Seq<char>>, n: int, max_items: int)
    requires
        0 <= n <= ls.len(),
        highlights_of(ls.subrange(0, n), max_items).full,
    ensures
        highlights_of(ls, max_items) == highlights_of(ls.subrange(0, n), max_items),
    decreases ls.len() - n,
{
    if n < ls.len() {
        assert(ls.subrange(0, n + 1).drop_last() =~= ls.subrange(0, n));
        lemma_full_stays(ls, n + 1, max_items);
    } else {
        assert(ls.subrange(0, n) =~= ls);
    }
}

/// Each line on a line of its own after "- ".
pub open spec fn bullets(lines: Seq<Seq<char>>) -> Seq<char>
    decreases lines.len(),
{
    if lines.len() == 0 {
        Seq::empty()
    } else {
        bullets(lines.drop_last()) + "\n- "@ + lines.last()
    }
}

pub open spec fn opportunities_part(log: Seq<char>) -> Seq<char> {
    match opportunities_in(text_lines(log)) {
        Some(o) => "\nOpportunities: "@ + o,
        None => Seq::empty(),
    }
}

pub open spec fn result_part(log: Seq<char>) -> Seq<char> {
    let errors = error_block(text_lines(log), 6);
    if has_substring(log, "Error:"@) {
        "\nResult: ERROR"@ + if errors.len() > 0 {
            "\n\n*Error Details*"@ + bullets(errors)
        } else {
            Seq::empty()
        }
    } else {
        "\nResult: OK"@
    }
}

pub open spec fn highlights_part(log: Seq<char>) -> Seq<char> {
    let highlights = highlights_of(text_lines(log), 6).text;
    if highlights.len() > 0 {
        "\n\n*Highlights*"@ + highlights
    } else {
        Seq::empty()
    }
}

/// The heading of a run summary: mode and time, the opportunity count,
/// the result with the last error's lines, and the highlights.
pub open spec fn header_text(dry_run: bool, timestamp: Seq<char>, log: Seq<char>) -> Seq<char> {
    let mode = if dry_run {
        "DRY_RUN"@
    } else {
        "LIVE"@
    };
    "*Kalshi 15m bot run* `"@ + mode + "` `"@ + timestamp + "`"@ + opportunities_part(log)
        + result_part(log) + highlights_part(log)
}

fn push_opportunities(r: &mut String, log: &str)
    ensures
        final(r)@ == old(r)@ + opportunities_part(log@),
{
    if let Some(o) = extract_opportunities(log) {
        push_text(r, "\nOpportunities: ");
        push_text(r, o.as_str());
    }
    assert(final(r)@ =~= old(r)@ + opportunities_part(log@));
}

fn push_bullets(r: &mut String, error_lines: &Vec<String>)
    ensures
        final(r)@ == old(r)@ + bullets(error_lines@.map_values(|l: String| l@)),
{
    let ghost errors = error_lines@.map_values(|l: String| l@);
    let ghost start = r@;
    let mut k: usize = 0;
    assert(errors.subrange(0, 0) =~= Seq::<Seq<char>>::empty());
    while k < error_lines.len()
        invariant
            k <= error_lines@.len(),
            errors == error_lines@.map_values(|l: String| l@),
            r@ == start + bullets(errors.subrange(0, k as int)),
        decreases error_lines.len() - k,
    {
        assert(errors.subrange(0, k + 1).drop_last() =~= errors.subrange(0, k as int));
        push_text(r, "\n- ");
        push_text(r, error_lines[k].as_str());
        k = k + 1;
        assert(r@ =~= start + bullets(errors.subrange(0, k as int)));
    }
    assert(errors.subrange(0, errors.len() as int) =~= errors);
}

fn push_result(r: &mut String, log: &str)
    ensures
        final(r)@ == old(r)@ + result_part(log@),
{
    let log_chars = chars_of(log);
    if contains_text(&log_chars, "Error:") {
        push_text(r, "\nResult: ERROR");
        let error_lines = extract_error_lines(log, 6);
        let ghost errors = error_block(text_lines(log@), 6);
        assert(error_lines@.map_values(|l: String| l@) =~= errors);
        if error_lines.len() > 0 {
            push_text(r, "\n\n*Error Details*");
            push_bullets(r, &error_lines);
        }
    } else {
        push_text(r, "\nResult: OK");
    }
    assert(final(r)@ =~= old(r)@ + result_part(log@));
}

fn push_highlights(r: &mut String, log: &str)
    ensures
        final(r)@ == old(r)@ + highlights_part(log@),
{
    let highlights = format_highlights(log, 6);
    if highlights.as_str().unicode_len() > 0 {
        push_text(r, "\n\n*Highlights*");
        push_text(r, highlights.as_str());
    }
    assert(final(r)@ =~= old(r)@ + highlights_part(log@));
}

pub fn run_header(dry_run: bool, timestamp: &str, log: &str) -> (r: String)
    ensures
        r@ == header_text(dry_run, timestamp@, log@),
{
    let mut r = String::new();
    push_text(&mut r, "*Kalshi 15m bot run* `");
    if dry_run {
        push_text(&mut r, "DRY_RUN");
    } else {
        push_text(&mut r, "LIVE");
    }
    push_text(&mut r, "` `");
    push_text(&mut r, timestamp);
    push_text(&mut r, "`");
    push_opportunities(&mut r, log);
    push_result(&mut r, log);
    push_highlights(&mut r, log);
    assert(r@ =~= header_text(dry_run, timestamp@, log@));
    r
}

/// The webhook message: the heading, then the log in a code block when given.
pub open spec fn webhook_text(header: Seq<char>, log: Option<Seq<char>>) -> Seq<char> {
    match log {
        Some(body) => header + "\n\n```\n"@ + body + "\n```"@,
        None => header,
    }
}

pub fn webhook_message(header: &str, log: Option<&str>) -> (r: String)
    ensures
        r@ == webhook_text(header@, crate::lag::opt_view(log)),
{
    let mut r = String::new();
    push_text(&mut r, header);
    if let Some(body) = log {
        push_text(&mut r, "\n\n```\n");
        push_text(&mut r, body);
        push_text(&mut r, "\n```");
    }
    assert(r@ =~= webhook_text(header@, crate::lag::opt_view(log)));
    r
}

} // verus!
