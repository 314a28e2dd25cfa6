//! Normalisation of private-key PEM text pasted in configuration.

use vstd::prelude::*;

use crate::text::{
    chars_of, contains, find_first, first_index, has_substring, lines_of, replace_all, replaced,
    slice_of, string_of, text_lines, trim, trim_ws,
};

verus! {

pub open spec fn is_base64(c: char) -> bool {
    ('A' <= c && c <= 'Z') || ('a' <= c && c <= 'z') || ('0' <= c && c <= '9') || c == '+' || c
        == '/' || c == '='
}

/// Whether `ch` belongs to the base64 alphabet (padding included).
pub fn is_base64_char(ch: char) -> (r: bool)
    ensures
        r == is_base64(ch),
{
    ('A' <= ch && ch <= 'Z') || ('a' <= ch && ch <= 'z') || ('0' <= ch && ch <= '9') || ch == '+'
        || ch == '/' || ch == '='
}

pub open spec fn pem_begin(label: Seq<char>) -> Seq<char> {
    "-----BEGIN "@ + label + "-----"@
}

pub open spec fn pem_end(label: Seq<char>) -> Seq<char> {
    "-----END "@ + label + "-----"@
}

/// The block between the first begin line and the first end line of
/// `label`, without carriage returns; a block on one line gets line
/// breaks after its begin marker and before its end marker.
pub open spec fn pem_block(raw: Seq<char>, label: Seq<char>) -> Option<Seq<char>> {
    match (first_index(raw, pem_begin(label)), first_index(raw, pem_end(label))) {
        (Some(start), Some(stop)) => if stop < start {
            None
        } else {
            let b = replaced(
                raw.subrange(start, stop + pem_end(label).len()),
                "\r"@,
                Seq::empty(),
            );
            if has_substring(b, "\n"@) {
                Some(b)
            } else {
                Some(
                    replaced(
                        replaced(b, pem_begin(label), pem_begin(label) + "\n"@),
                        pem_end(label),
                        "\n"@ + pem_end(label),
                    ),
                )
            }
        },
        _ => None,
    }
}

fn marker(head: &str, label: &Vec<char>) -> (r: Vec<char>)
    ensures
        r@ == head@ + label@ + "-----"@,
{
    let mut r = chars_of(head);
    let mut i: usize = 0;
    let ghost h = r@;
    while i < label.len()
        invariant
            i <= label.len(),
            r@ == h + label@.subrange(0, i as int),
        decreases label.len() - i,
    {
        r.push(label[i]);
        i = i + 1;
    }
    assert(label@.subrange(0, label@.len() as int) =~= label@);
    let tail = chars_of("-----");
    let ghost mid = r@;
    let mut k: usize = 0;
    while k < tail.len()
        invariant
            k <= tail.len(),
            r@ == mid + tail@.subrange(0, k as int),
        decreases tail.len() - k,
    {
        r.push(tail[k]);
        k = k + 1;
    }
    assert(tail@.subrange(0, tail@.len() as int) =~= tail@);
    r
}

fn concat(a: &Vec<char>, b: &Vec<char>) -> (r: Vec<char>)
    ensures
        r@ == a@ + b@,
{
    let mut r = slice_of(a, 0, a.len());
    let mut i: usize = 0;
    assert(a@.subrange(0, a@.len() as int) =~= a@);
    while i < b.len()
        invariant
            i <= b.len(),
            r@ == a@ + b@.subrange(0, i as int),
        decreases b.len() - i,
    {
        r.push(b[i]);
        i = i + 1;
    }
    assert(b@.subrange(0, b@.len() as int) =~= b@);
    r
}

fn extract_block(raw: &Vec<char>, label: &Vec<char>) -> (r: Option<Vec<char>>)
    ensures
        match r {
            Some(b) => pem_block(raw@, label@) == Some(b@),
            None => pem_block(raw@, label@) is None,
        },
{
    let begin = marker("-----BEGIN ", label);
    let end = marker("-----END ", label);
    let start = match find_first(raw, &begin) {
        Some(i) => i,
        None => return None,
    };
    let stop = match find_first(raw, &end) {
        Some(i) => i,
        None => return None,
    };
    if stop < start {
        return None;
    }
    let total = raw.len();
    assert(stop + end@.len() <= total);
    let cr = chars_of("\r");
    let nl = chars_of("\n");
    proof {
        reveal_strlit("\r");
    }
    let nothing: Vec<char> = Vec::new();
    let block = replace_all(&slice_of(raw, start, stop + end.len()), &cr, &nothing);
    if contains(&block, &nl) {
        return Some(block);
    }
    proof {
        reveal_strlit("-----BEGIN ");
        reveal_strlit("-----END ");
    }
    let with_begin = replace_all(&block, &begin, &concat(&begin, &nl));
    Some(replace_all(&with_begin, &end, &concat(&nl, &end)))
}

/// The PEM block of `label` in `raw` (see `pem_block`).
pub fn extract_pem_block(raw: &str, label: &str) -> (r: Option<String>)
    ensures
        match r {
            Some(b) => pem_block(raw@, label@) == Some(b@),
            None => pem_block(raw@, label@) is None,
        },
{
    match extract_block(&chars_of(raw), &chars_of(label)) {
        Some(b) => Some(string_of(&b)),
        None => None,
    }
}

/// The base64 characters of `l`.
pub open spec fn base64_only(l: Seq<char>) -> Seq<char>
    decreases l.len(),
{
    if l.len() == 0 {
        l
    } else if is_base64(l.last()) {
        base64_only(l.drop_last()).push(l.last())
    } else {
        base64_only(l.drop_last())
    }
}

/// Whether the lines so far leave us inside the body, and the base64 data
/// of the body lines so far.
pub open spec fn body_scan(lines: Seq<Seq<char>>, begin: Seq<char>, end: Seq<char>) -> (
    bool,
    Seq<char>,
)
    decreases lines.len(),
{
    if lines.len() == 0 {
        (false, Seq::empty())
    } else {
        let prev = body_scan(lines.drop_last(), begin, end);
        let l = lines.last();
        if has_substring(l, begin) {
            (true, prev.1)
        } else if has_substring(l, end) {
            (false, prev.1)
        } else if prev.0 {
            (true, prev.1 + base64_only(l))
        } else {
            prev
        }
    }
}

/// `d` cut into lines of 64 characters, each ended by a newline.
pub open spec fn chunked(d: Seq<char>) -> Seq<char>
    decreases d.len(),
{
    if d.len() == 0 {
        d
    } else if d.len() <= 64 {
        d + "\n"@
    } else {
        d.subrange(0, 64) + "\n"@ + chunked(d.subrange(64, d.len() as int))
    }
}

/// The block rebuilt from the base64 data of its body lines.
pub open spec fn sanitized(block: Seq<char>, label: Seq<char>) -> Seq<char> {
    let data = body_scan(text_lines(block), pem_begin(label), pem_end(label)).1;
    pem_begin(label) + "\n"@ + chunked(data) + pem_end(label)
}

fn base64_of_line(l: &Vec<char>, out: &mut Vec<char>)
    ensures
        final(out)@ == old(out)@ + base64_only(l@),
{
    let ghost start = out@;
    let mut i: usize = 0;
    assert(l@.subrange(0, 0) =~= Seq::<char>::empty());
    while i < l.len()
        invariant
            i <= l.len(),
            out@ == start + base64_only(l@.subrange(0, i as int)),
        decreases l.len() - i,
    {
        assert(l@.subrange(0, i + 1).drop_last() =~= l@.subrange(0, i as int));
        if is_base64_char(l[i]) {
            out.push(l[i]);
        }
        i = i + 1;
        assert(out@ =~= start + base64_only(l@.subrange(0, i as int)));
    }
    assert(l@.subrange(0, l@.len() as int) =~= l@);
}

fn chunk_lines(d: &Vec<char>, out: &mut Vec<char>)
    ensures
        final(out)@ == old(out)@ + chunked(d@),
{
    let ghost start = out@;
    let mut i: usize = 0;
    assert(d@.subrange(0, d@.len() as int) =~= d@);
    while i < d.len()
        invariant
            i <= d.len(),
            out@ + chunked(d@.subrange(i as int, d@.len() as int)) == start + chunked(d@),
        decreases d.len() - i,
    {
        let ghost before = out@;
        let ghost rest = d@.subrange(i as int, d@.len() as int);
        let stop = if d.len() - i > 64 {
            i + 64
        } else {
            d.len()
        };
        let mut k: usize = i;
        while k < stop
            invariant
                i <= k <= stop <= d.len(),
                out@ == before + d@.subrange(i as int, k as int),
            decreases stop - k,
        {
            out.push(d[k]);
            k = k + 1;
        }
        out.push('\n');
        proof {
            reveal_strlit("\n");
            if d.len() - i > 64 {
                assert(rest.subrange(0, 64) =~= d@.subrange(i as int, stop as int));
                assert(rest.subrange(64, rest.len() as int) =~= d@.subrange(
                    stop as int,
                    d@.len() as int,
                ));
                assert(out@ + chunked(d@.subrange(stop as int, d@.len() as int)) =~= before
                    + chunked(rest));
            } else {
                assert(rest =~= d@.subrange(i as int, stop as int));
                assert(d@.subrange(stop as int, d@.len() as int) =~= Seq::<char>::empty());
                assert(out@ + chunked(d@.subrange(stop as int, d@.len() as int)) =~= before
                    + chunked(rest));
            }
        }
        i = stop;
    }
    assert(d@.subrange(i as int, d@.len() as int) =~= Seq::<char>::empty());
}

fn sanitize_block(block: &Vec<char>, label: &Vec<char>) -> (r: Vec<char>)
    ensures
        r@ == sanitized(block@, label@),
{
    let begin = marker("-----BEGIN ", label);
    let end = marker("-----END ", label);
    let lines = lines_of(block);
    let ghost ls = text_lines(block@);
    let mut data: Vec<char> = Vec::new();
    let mut in_body = false;
    let mut i: usize = 0;
    while i < lines.len()
        invariant
            i <= lines@.len(),
            lines@.len() == ls.len(),
            forall|k: int| 0 <= k < lines@.len() ==> (#[trigger] lines@[k])@ == ls[k],
            begin@ == pem_begin(label@),
            end@ == pem_end(label@),
            (in_body, data@) == body_scan(ls.subrange(0, i as int), begin@, end@),
        decreases lines.len() - i,
    {
        let line = &lines[i];
        proof {
            assert(ls.subrange(0, i + 1).drop_last() =~= ls.subrange(0, i as int));
        }
        if contains(line, &begin) {
            in_body = true;
        } else if contains(line, &end) {
            in_body = false;
        } else if in_body {
            base64_of_line(line, &mut data);
        }
        i = i + 1;
    }
    assert(ls.subrange(0, ls.len() as int) =~= ls);
    let mut out = slice_of(&begin, 0, begin.len());
    assert(begin@.subrange(0, begin@.len() as int) =~= begin@);
    out.push('\n');
    chunk_lines(&data, &mut out);
    let r = concat(&out, &end);
    proof {
        reveal_strlit("\n");
    }
    assert(r@ =~= sanitized(block@, label@));
    r
}

/// Rebuilds a PEM block from the base64 data of its body lines, 64
/// characters per line (see `sanitized`).
pub fn sanitize_pem_block(pem_block: &str, label: &str) -> (r: String)
    ensures
        r@ == sanitized(pem_block@, label@),
{
    string_of(&sanitize_block(&chars_of(pem_block), &chars_of(label)))
}

/// Pasted key text: trimmed, with written `\n` made line breaks and
/// carriage returns removed.
pub open spec fn pem_text(raw: Seq<char>) -> Seq<char> {
    replaced(replaced(trim_ws(raw), "\\n"@, "\n"@), "\r"@, Seq::empty())
}

/// The normalised key text: the rebuilt RSA key block if there is one,
/// else the rebuilt generic key block, else the cleaned text itself.
pub open spec fn normalized_pem(raw: Seq<char>) -> Seq<char> {
    let pem = pem_text(raw);
    match pem_block(pem, "RSA PRIVATE KEY"@) {
        Some(b) => sanitized(b, "RSA PRIVATE KEY"@),
        None => match pem_block(pem, "PRIVATE KEY"@) {
            Some(b) => sanitized(b, "PRIVATE KEY"@),
            None => pem,
        },
    }
}

pub fn normalize_pem(raw: &str) -> (r: String)
    ensures
        r@ == normalized_pem(raw@),
{
    let escaped_newline = chars_of("\\n");
    let cr = chars_of("\r");
    proof {
        reveal_strlit("\\n");
        reveal_strlit("\r");
    }
    let step = replace_all(&trim(&chars_of(raw)), &escaped_newline, &chars_of("\n"));
    let nothing: Vec<char> = Vec::new();
    let pem = replace_all(&step, &cr, &nothing);
    let rsa = chars_of("RSA PRIVATE KEY");
    if let Some(b) = extract_block(&pem, &rsa) {
        return string_of(&sanitize_block(&b, &rsa));
    }
    let generic = chars_of("PRIVATE KEY");
    if let Some(b) = extract_block(&pem, &generic) {
        return string_of(&sanitize_block(&b, &generic));
    }
    string_of(&pem)
}

} // verus!
