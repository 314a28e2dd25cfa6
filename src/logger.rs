//! The run log: lines collected during a run, for its summary.

use vstd::prelude::*;

use crate::text::{chars_of, push_char, push_text, string_of};

verus! {

/// The lines logged so far, oldest first.
#[derive(Clone, Debug)]
pub struct RunLog {
    pub lines: Vec<String>,
}

impl RunLog {
    pub open spec fn texts(&self) -> Seq<Seq<char>> {
        self.lines@.map_values(|s: String| s@)
    }
}

/// The lines joined by newlines.
pub open spec fn joined_lines(lines: Seq<Seq<char>>) -> Seq<char>
    decreases lines.len(),
{
    if lines.len() == 0 {
        Seq::empty()
    } else if lines.len() == 1 {
        lines[0]
    } else {
        joined_lines(lines.drop_last()) + seq!['\n'] + lines.last()
    }
}

/// A new, empty log.
pub fn init_logger() -> (r: RunLog)
    ensures
        r.texts() == Seq::<Seq<char>>::empty(),
{
    let r = RunLog { lines: Vec::new() };
    assert(r.texts() =~= Seq::<Seq<char>>::empty());
    r
}

/// Appends one line to the log.
pub fn push_line(log: &mut RunLog, line: &str)
    ensures
        final(log).texts() == old(log).texts().push(line@),
{
    log.lines.push(string_of(&chars_of(line)));
    assert(final(log).texts() =~= old(log).texts().push(line@));
}

/// The whole log as one text, one line per logged line.
pub fn collected_log(log: &RunLog) -> (r: String)
    ensures
        r@ == joined_lines(log.texts()),
{
    let mut r = String::new();
    let mut i: usize = 0;
    while i < log.lines.len()
        invariant
            i <= log.lines@.len(),
            r@ == joined_lines(log.texts().subrange(0, i as int)),
        decreases log.lines.len() - i,
    {
        let ghost before = r@;
        if i > 0 {
            push_char(&mut r, '\n');
        }
        push_text(&mut r, log.lines[i].as_str());
        proof {
            let t = log.texts();
            assert(t.subrange(0, i + 1).drop_last() =~= t.subrange(0, i as int));
            if i == 0 {
                assert(r@ =~= t.subrange(0, 1)[0]);
            } else {
                assert(r@ =~= before + seq!['\n'] + t[i as int]);
            }
        }
        i = i + 1;
    }
    assert(log.texts().subrange(0, log.lines@.len() as int) =~= log.texts());
    r
}

} // verus!
