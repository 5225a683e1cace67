//! Finding every non-overlapping occurrence of a literal pattern in a line.
//!
//! A line and a pattern are sequences of characters. The scan runs left to
//! right; on a hit it resumes immediately after the matched region, so the
//! occurrences it reports never overlap. An empty pattern matches nowhere.

use vstd::prelude::*;

verus! {

/// The pattern occurs in `line` starting at position `i`.
pub open spec fn occurs_at(line: Seq<char>, pat: Seq<char>, i: int) -> bool {
    0 <= i && i + pat.len() <= line.len() && line.subrange(i, i + pat.len() as int) == pat
}

/// The positions of every non-overlapping occurrence of `pat` in `line` at or
/// after position `i`, in ascending order: the leftmost occurrence is taken
/// and the scan resumes just past it. An empty pattern yields no positions.
pub open spec fn match_positions_from(line: Seq<char>, pat: Seq<char>, i: int) -> Seq<int>
    decreases line.len() - i,
{
    if pat.len() == 0 || i < 0 || i + pat.len() > line.len() {
        Seq::empty()
    } else if line.subrange(i, i + pat.len() as int) == pat {
        seq![i] + match_positions_from(line, pat, i + pat.len() as int)
    } else {
        match_positions_from(line, pat, i + 1)
    }
}

/// The ordered positions of all non-overlapping occurrences of `pat` in `line`.
pub open spec fn match_positions(line: Seq<char>, pat: Seq<char>) -> Seq<int> {
    match_positions_from(line, pat, 0)
}

/// The line contains at least one occurrence of the pattern.
pub open spec fn line_matches(line: Seq<char>, pat: Seq<char>) -> bool {
    match_positions(line, pat).len() > 0
}

/// The scan never passes an occurrence by: wherever the pattern occurs at
/// or after the scan position, the scan reports a match, and its first
/// report is at or before that occurrence.
pub proof fn lemma_first_match_is_leftmost(line: Seq<char>, pat: Seq<char>, from: int, j: int)
    requires
        pat.len() > 0,
        0 <= from <= j,
        occurs_at(line, pat, j),
    ensures
        match_positions_from(line, pat, from).len() > 0,
        match_positions_from(line, pat, from)[0] <= j,
    decreases j - from,
{
    if line.subrange(from, from + pat.len() as int) == pat {
    } else if from < j {
        lemma_first_match_is_leftmost(line, pat, from + 1, j);
    }
}

/// A line is reported as matching exactly when the pattern occurs in it
/// somewhere: the matcher finds a match if and only if one exists.
pub proof fn lemma_line_matches_iff_occurrence(line: Seq<char>, pat: Seq<char>)
    requires
        pat.len() > 0,
    ensures
        line_matches(line, pat) <==> exists|j: int| occurs_at(line, pat, j),
{
    if exists|j: int| occurs_at(line, pat, j) {
        let j = choose|j: int| occurs_at(line, pat, j);
        lemma_first_match_is_leftmost(line, pat, 0, j);
    }
    if line_matches(line, pat) {
        crate::highlight::lemma_match_positions_wf(line, pat, 0);
        assert(occurs_at(line, pat, match_positions(line, pat)[0]));
    }
}

/// Whether `pat` occurs in `line` starting at position `i`.
fn matches_at(line: &Vec<char>, pat: &Vec<char>, i: usize) -> (r: bool)
    requires
        i + pat@.len() <= line@.len(),
    ensures
        r == (line@.subrange(i as int, i + pat@.len()) == pat@),
{
    let plen: usize = pat.len();
    let llen: usize = line.len();
    let mut j: usize = 0;
    while j < plen
        invariant
            plen == pat@.len(),
            llen == line@.len(),
            j <= plen,
            i + plen <= llen,
            forall|k: int| 0 <= k < j ==> line@[i + k] == pat@[k],
        decreases plen - j,
    {
        if line[i + j] != pat[j] {
            assert(line@.subrange(i as int, i + pat@.len())[j as int] != pat@[j as int]);
            return false;
        }
        j = j + 1;
    }
    assert(line@.subrange(i as int, i + pat@.len()) =~= pat@);
    true
}

/// Finds every non-overlapping occurrence of `pattern` in `line`, scanning
/// left to right and resuming just past each hit, and returns the starting
/// positions in ascending order. An empty pattern matches nowhere.
pub fn find_matches(line: &Vec<char>, pattern: &Vec<char>) -> (r: Vec<usize>)
    ensures
        r@.map_values(|p: usize| p as int) == match_positions(line@, pattern@),
{
    let mut r: Vec<usize> = Vec::new();
    let plen: usize = pattern.len();
    let llen: usize = line.len();
    if plen == 0 || plen > llen {
        assert(r@.map_values(|p: usize| p as int) =~= match_positions(line@, pattern@));
        return r;
    }
    let mut i: usize = 0;
    while i <= llen - plen
        invariant
            plen == pattern@.len(),
            llen == line@.len(),
            0 < plen <= llen,
            i <= llen,
            match_positions(line@, pattern@) =~= r@.map_values(|p: usize| p as int)
                + match_positions_from(line@, pattern@, i as int),
        decreases llen - i,
    {
        let ghost prev = r@;
        if matches_at(line, pattern, i) {
            r.push(i);
            assert(r@.map_values(|p: usize| p as int) =~= prev.map_values(|p: usize| p as int)
                + seq![i as int]);
            i = i + plen;
        } else {
            i = i + 1;
        }
    }
    assert(r@.map_values(|p: usize| p as int) =~= match_positions(line@, pattern@));
    r
}

} // verus!
