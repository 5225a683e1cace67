//! The result sink: a buffer of output lines and the running match count.
//!
//! `CustomWriter` models buffered output as a vector of lines. Matching
//! lines are highlighted and appended; lines without a match are omitted
//! from the output. `results` counts the lines that matched: a line with
//! several occurrences still counts once. Writing the buffer to a real
//! output stream happens outside the library.

use vstd::prelude::*;

use crate::highlight::highlight_spec;
use crate::highlight::lemma_match_positions_wf;
use crate::matcher::line_matches;
use crate::matcher::match_positions;

verus! {

/// The character sequences of a sequence of buffered lines.
pub open spec fn views(ls: Seq<Vec<char>>) -> Seq<Seq<char>> {
    ls.map_values(|l: Vec<char>| l@)
}

/// The highlighted copy of `line` for the pattern `pat`: every
/// non-overlapping occurrence bracketed by its markers.
pub open spec fn highlighted_line(line: Seq<char>, pat: Seq<char>) -> Seq<char> {
    highlight_spec(line, pat.len() as int, match_positions(line, pat))
}

/// How many of `lines` contain at least one occurrence of `pat`. Each
/// matching line counts exactly once, however many occurrences it holds.
pub open spec fn count_matching(lines: Seq<Seq<char>>, pat: Seq<char>) -> int
    decreases lines.len(),
{
    if lines.len() == 0 {
        0
    } else {
        count_matching(lines.drop_last(), pat) + if line_matches(lines.last(), pat) {
            1int
        } else {
            0int
        }
    }
}

/// The output that scanning `lines` for `pat` produces: the highlighted
/// copy of every matching line, in input order; other lines are omitted.
pub open spec fn rendered_lines(lines: Seq<Seq<char>>, pat: Seq<char>) -> Seq<Seq<char>>
    decreases lines.len(),
{
    if lines.len() == 0 {
        Seq::empty()
    } else {
        let rest = rendered_lines(lines.drop_last(), pat);
        if line_matches(lines.last(), pat) {
            rest.push(highlighted_line(lines.last(), pat))
        } else {
            rest
        }
    }
}

/// At most one count per line: the number of matching lines never exceeds
/// the number of lines.
pub proof fn lemma_count_matching_le(lines: Seq<Seq<char>>, pat: Seq<char>)
    ensures
        0 <= count_matching(lines, pat) <= lines.len(),
    decreases lines.len(),
{
    if lines.len() > 0 {
        lemma_count_matching_le(lines.drop_last(), pat);
    }
}

/// The decimal character for the digit `d`.
pub open spec fn digit_char(d: nat) -> char {
    if d == 0 {
        '0'
    } else if d == 1 {
        '1'
    } else if d == 2 {
        '2'
    } else if d == 3 {
        '3'
    } else if d == 4 {
        '4'
    } else if d == 5 {
        '5'
    } else if d == 6 {
        '6'
    } else if d == 7 {
        '7'
    } else if d == 8 {
        '8'
    } else {
        '9'
    }
}

/// The decimal digits of `n`, most significant first, with no leading
/// zeroes (`0` itself is the single digit `0`).
pub open spec fn decimal_digits(n: nat) -> Seq<char>
    decreases n,
{
    if n < 10 {
        seq![digit_char(n)]
    } else {
        decimal_digits(n / 10).push(digit_char(n % 10))
    }
}

/// The text that introduces the final count.
pub open spec fn total_prefix() -> Seq<char> {
    seq!['T', 'o', 't', 'a', 'l', ' ', 'R', 'e', 's', 'u', 'l', 't', 's', ':', ' ']
}

/// The trailing summary line for a run that counted `n` matching lines.
pub open spec fn summary_line(n: nat) -> Seq<char> {
    total_prefix() + decimal_digits(n)
}

/// The text that introduces a file's results in a directory walk.
pub open spec fn header_prefix() -> Seq<char> {
    seq!['F', 'i', 'l', 'e', ':', ' ']
}

/// The decimal character for the digit `d`.
fn digit(d: usize) -> (c: char)
    requires
        d < 10,
    ensures
        c == digit_char(d as nat),
{
    if d == 0 {
        '0'
    } else if d == 1 {
        '1'
    } else if d == 2 {
        '2'
    } else if d == 3 {
        '3'
    } else if d == 4 {
        '4'
    } else if d == 5 {
        '5'
    } else if d == 6 {
        '6'
    } else if d == 7 {
        '7'
    } else if d == 8 {
        '8'
    } else {
        '9'
    }
}

/// Appends the decimal digits of `n` to `out`, most significant first.
fn push_decimal(out: &mut Vec<char>, n: usize)
    ensures
        final(out)@ == old(out)@ + decimal_digits(n as nat),
    decreases n,
{
    let ghost out0 = out@;
    if n < 10 {
        out.push(digit(n));
        assert(out@ =~= out0 + decimal_digits(n as nat));
    } else {
        push_decimal(out, n / 10);
        out.push(digit(n % 10));
        assert(out@ =~= out0 + decimal_digits(n as nat));
    }
}

/// The banner line written before a file's results: `File: ` and the name.
pub fn header_line(name: &Vec<char>) -> (r: Vec<char>)
    ensures
        r@ == header_prefix() + name@,
{
    let mut out: Vec<char> = Vec::new();
    out.push('F');
    out.push('i');
    out.push('l');
    out.push('e');
    out.push(':');
    out.push(' ');
    assert(out@ =~= header_prefix());
    crate::highlight::push_range(&mut out, name, 0, name.len());
    assert(out@ =~= header_prefix() + name@);
    out
}

/// A buffered output sink with a running count of matching lines.
pub struct CustomWriter {
    /// The lines queued for output, oldest first.
    pub buffered: Vec<Vec<char>>,
    /// How many processed lines contained at least one match.
    pub results: usize,
}

impl CustomWriter {
    /// An empty sink: nothing buffered, zero matching lines seen.
    pub fn new() -> (r: Self)
        ensures
            r.buffered@.len() == 0,
            r.results == 0,
    {
        CustomWriter { buffered: Vec::new(), results: 0 }
    }

    /// Queues one line for output, verbatim.
    pub fn print(&mut self, msg: Vec<char>)
        ensures
            views(final(self).buffered@) == views(old(self).buffered@).push(msg@),
            final(self).results == old(self).results,
    {
        let ghost before = self.buffered@;
        self.buffered.push(msg);
        assert(views(self.buffered@) =~= views(before).push(self.buffered@.last()@));
    }

    /// Scans one line: if the pattern occurs in it, queues the highlighted
    /// copy and counts the line once; otherwise changes nothing.
    pub fn process_line(&mut self, line: &Vec<char>, pattern: &Vec<char>)
        requires
            old(self).results < usize::MAX,
        ensures
            views(final(self).buffered@) == if line_matches(line@, pattern@) {
                views(old(self).buffered@).push(highlighted_line(line@, pattern@))
            } else {
                views(old(self).buffered@)
            },
            final(self).results as int == old(self).results + if line_matches(line@, pattern@) {
                1int
            } else {
                0int
            },
    {
        let ms = crate::matcher::find_matches(line, pattern);
        if ms.len() > 0 {
            proof {
                lemma_match_positions_wf(line@, pattern@, 0);
            }
            let hl = CustomWriter::color_piece(line, &ms, pattern.len());
            self.print(hl);
            self.results = self.results + 1;
        }
    }

    /// Scans a batch of lines in order: queues the highlighted copy of each
    /// matching line and adds the number of matching lines — not the number
    /// of occurrences — to the running count.
    pub fn write_from_buff(&mut self, lines: &Vec<Vec<char>>, pattern: &Vec<char>)
        requires
            old(self).results + lines@.len() <= usize::MAX,
        ensures
            views(final(self).buffered@) == views(old(self).buffered@) + rendered_lines(
                views(lines@),
                pattern@,
            ),
            final(self).results as int == old(self).results + count_matching(
                views(lines@),
                pattern@,
            ),
    {
        let ghost buf0 = views(self.buffered@);
        let ghost res0 = self.results as int;
        let n: usize = lines.len();
        let mut k: usize = 0;
        proof {
            assert(views(lines@).take(0) =~= Seq::<Seq<char>>::empty());
            assert(views(self.buffered@) =~= buf0 + rendered_lines(
                views(lines@).take(0),
                pattern@,
            ));
        }
        while k < n
            invariant
                n == lines@.len(),
                k <= n,
                res0 + n <= usize::MAX,
                res0 >= 0,
                views(self.buffered@) == buf0 + rendered_lines(
                    views(lines@).take(k as int),
                    pattern@,
                ),
                self.results as int == res0 + count_matching(
                    views(lines@).take(k as int),
                    pattern@,
                ),
            decreases n - k,
        {
            proof {
                lemma_count_matching_le(views(lines@).take(k as int), pattern@);
            }
            self.process_line(&lines[k], pattern);
            proof {
                let vl = views(lines@);
                assert(vl.take(k + 1).drop_last() =~= vl.take(k as int));
                assert(vl.take(k + 1).last() == lines@[k as int]@);
                assert(views(self.buffered@) =~= buf0 + rendered_lines(
                    vl.take(k + 1),
                    pattern@,
                ));
            }
            k = k + 1;
        }
        proof {
            assert(views(lines@).take(n as int) =~= views(lines@));
        }
    }

    /// Queues the closing report: a blank line, then the summary line with
    /// the final count. The count itself is left untouched.
    pub fn finalize(&mut self)
        ensures
            views(final(self).buffered@) == views(old(self).buffered@).push(
                Seq::<char>::empty(),
            ).push(summary_line(old(self).results as nat)),
            final(self).results == old(self).results,
    {
        let blank: Vec<char> = Vec::new();
        self.print(blank);
        let mut total: Vec<char> = Vec::new();
        total.push('T');
        total.push('o');
        total.push('t');
        total.push('a');
        total.push('l');
        total.push(' ');
        total.push('R');
        total.push('e');
        total.push('s');
        total.push('u');
        total.push('l');
        total.push('t');
        total.push('s');
        total.push(':');
        total.push(' ');
        assert(total@ =~= total_prefix());
        let count: usize = self.results;
        push_decimal(&mut total, count);
        assert(total@ =~= summary_line(count as nat));
        self.print(total);
    }
}

} // verus!
