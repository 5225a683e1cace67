//! Bracketing each match in a line with terminal colour markers.
//!
//! Every match gets a start marker and the common reset marker. The start
//! marker is chosen per match: green when the occurrence is a whole token
//! (bounded by spaces or the ends of the line), red when it is a fragment
//! of a longer token. The test always looks at the original line, never at
//! text shifted by markers inserted earlier.

use vstd::prelude::*;

use crate::writer::CustomWriter;

verus! {

/// The marker that opens a full-token (whole word) match: green.
pub open spec fn strong_code() -> Seq<char> {
    seq!['\u{1b}', '[', '3', '2', 'm']
}

/// The marker that opens a partial (substring) match: red.
pub open spec fn weak_code() -> Seq<char> {
    seq!['\u{1b}', '[', '3', '1', 'm']
}

/// The marker that closes every match.
pub open spec fn reset_code() -> Seq<char> {
    seq!['\u{1b}', '[', '0', 'm']
}

/// The character just before position `start` is a space, or `start` is at
/// (or before) the beginning of the line.
pub open spec fn boundary_before(line: Seq<char>, start: int) -> bool {
    start <= 0 || line[start - 1] == ' '
}

/// The character at position `end` is a space, newline or NUL, or `end` is
/// at (or past) the end of the line.
pub open spec fn boundary_after(line: Seq<char>, end: int) -> bool {
    end >= line.len() || line[end] == ' ' || line[end] == '\n' || line[end] == '\0'
}

/// The occurrence of length `len` at `start` is a whole token: bounded on
/// both sides by a space-like character or by the ends of the line.
pub open spec fn is_full_token(line: Seq<char>, start: int, len: int) -> bool {
    boundary_before(line, start) && boundary_after(line, start + len)
}

/// The start marker used for the match of length `plen` at `start`.
pub open spec fn style_of(line: Seq<char>, plen: int, start: int) -> Seq<char> {
    if is_full_token(line, start, plen) {
        strong_code()
    } else {
        weak_code()
    }
}

/// The match starts `ms` are in bounds, in ascending order, at or after
/// `from`, and consecutive matches of length `plen` do not overlap.
pub open spec fn wf_from(line: Seq<char>, plen: int, ms: Seq<int>, from: int) -> bool
    decreases ms.len(),
{
    ms.len() == 0 || (from <= ms[0] && ms[0] + plen <= line.len() && wf_from(
        line,
        plen,
        ms.drop_first(),
        ms[0] + plen,
    ))
}

/// The tail of the highlighted line from position `from` on: for each match
/// in `ms`, the text up to the match, its start marker, the matched text and
/// the reset marker; after the last match, the rest of the line.
pub open spec fn highlight_from(line: Seq<char>, plen: int, ms: Seq<int>, from: int) -> Seq<char>
    decreases ms.len(),
{
    if ms.len() == 0 {
        line.subrange(from, line.len() as int)
    } else {
        line.subrange(from, ms[0]) + style_of(line, plen, ms[0]) + line.subrange(
            ms[0],
            ms[0] + plen,
        ) + reset_code() + highlight_from(line, plen, ms.drop_first(), ms[0] + plen)
    }
}

/// The whole highlighted line for the match starts `ms` of length `plen`.
pub open spec fn highlight_spec(line: Seq<char>, plen: int, ms: Seq<int>) -> Seq<char> {
    highlight_from(line, plen, ms, 0)
}

/// A well-formed match set stays well-formed when viewed from any earlier
/// position.
pub proof fn lemma_wf_weaken(line: Seq<char>, plen: int, ms: Seq<int>, from1: int, from2: int)
    requires
        from1 <= from2,
        wf_from(line, plen, ms, from2),
    ensures
        wf_from(line, plen, ms, from1),
{
}

/// The positions that the matcher reports are well formed: each one is a
/// real occurrence of the pattern, they ascend, and they do not overlap.
pub proof fn lemma_match_positions_wf(line: Seq<char>, pat: Seq<char>, i: int)
    requires
        0 <= i,
    ensures
        wf_from(line, pat.len() as int, crate::matcher::match_positions_from(line, pat, i), i),
        forall|k: int|
            0 <= k < crate::matcher::match_positions_from(line, pat, i).len()
                ==> crate::matcher::occurs_at(
                line,
                pat,
                #[trigger] crate::matcher::match_positions_from(line, pat, i)[k],
            ),
    decreases line.len() - i,
{
    let ms = crate::matcher::match_positions_from(line, pat, i);
    if pat.len() == 0 || i + pat.len() > line.len() {
    } else if line.subrange(i, i + pat.len() as int) == pat {
        let next = i + pat.len() as int;
        lemma_match_positions_wf(line, pat, next);
        let rest = crate::matcher::match_positions_from(line, pat, next);
        assert(ms == seq![i] + rest);
        assert(ms[0] == i);
        assert(ms.drop_first() =~= rest);
        assert(crate::matcher::occurs_at(line, pat, i));
        assert forall|k: int| 0 <= k < ms.len() implies crate::matcher::occurs_at(
            line,
            pat,
            ms[k],
        ) by {
            if k > 0 {
                assert(ms[k] == rest[k - 1]);
            }
        }
    } else {
        lemma_match_positions_wf(line, pat, i + 1);
        let rest = crate::matcher::match_positions_from(line, pat, i + 1);
        assert(ms == rest);
        lemma_wf_weaken(line, pat.len() as int, rest, i, i + 1);
    }
}

/// Highlighting a line in which nothing matched returns the line unchanged.
pub proof fn lemma_highlight_no_matches(line: Seq<char>, plen: int)
    ensures
        highlight_spec(line, plen, Seq::empty()) == line,
{
    assert(highlight_spec(line, plen, Seq::empty()) =~= line);
}

/// The marker style of a match is a pure function of the line content and
/// the match bounds alone: classifying the same occurrence again, even as
/// part of a different match set, yields the same style.
pub proof fn lemma_style_is_pointwise(
    line: Seq<char>,
    plen: int,
    ms1: Seq<int>,
    ms2: Seq<int>,
    i: int,
    j: int,
)
    requires
        0 <= i < ms1.len(),
        0 <= j < ms2.len(),
        ms1[i] == ms2[j],
    ensures
        style_of(line, plen, ms1[i]) == style_of(line, plen, ms2[j]),
{
}

/// Tests the full-token rule for the occurrence of length `plen` at `start`:
/// the character just before it (if any) must be a space, and the character
/// just after it (if any) a space, newline or NUL.
pub fn classify_match(line: &Vec<char>, start: usize, plen: usize) -> (r: bool)
    requires
        start + plen <= line@.len(),
    ensures
        r == is_full_token(line@, start as int, plen as int),
{
    let llen: usize = line.len();
    let before_ok: bool = start == 0 || line[start - 1] == ' ';
    let end: usize = start + plen;
    let after_ok: bool = end >= llen || line[end] == ' ' || line[end] == '\n' || line[end]
        == '\0';
    before_ok && after_ok
}

/// Appends `line[from..to]` to `out`.
pub(crate) fn push_range(out: &mut Vec<char>, line: &Vec<char>, from: usize, to: usize)
    requires
        from <= to,
        to <= line@.len(),
    ensures
        final(out)@ == old(out)@ + line@.subrange(from as int, to as int),
{
    let ghost out0 = out@;
    let mut k: usize = from;
    while k < to
        invariant
            from <= k <= to,
            to <= line@.len(),
            out@ == out0 + line@.subrange(from as int, k as int),
        decreases to - k,
    {
        let ghost prev = out@;
        out.push(line[k]);
        k = k + 1;
        assert(out@ =~= out0 + line@.subrange(from as int, k as int));
    }
    assert(out@ =~= out0 + line@.subrange(from as int, to as int));
}

/// Appends the start marker for a full-token (`full == true`) or partial
/// match to `out`.
fn push_style(out: &mut Vec<char>, full: bool)
    ensures
        final(out)@ == old(out)@ + (if full {
            strong_code()
        } else {
            weak_code()
        }),
{
    let ghost out0 = out@;
    out.push('\u{1b}');
    out.push('[');
    out.push('3');
    if full {
        out.push('2');
    } else {
        out.push('1');
    }
    out.push('m');
    assert(full ==> out@ =~= out0 + strong_code());
    assert(!full ==> out@ =~= out0 + weak_code());
}

/// Appends the reset marker to `out`.
fn push_reset(out: &mut Vec<char>)
    ensures
        final(out)@ == old(out)@ + reset_code(),
{
    let ghost out0 = out@;
    out.push('\u{1b}');
    out.push('[');
    out.push('0');
    out.push('m');
    assert(out@ =~= out0 + reset_code());
}

impl CustomWriter {
    /// Builds the highlighted copy of `line`: each match of length
    /// `pattern_len` starting at a position in `match_starts` is bracketed
    /// by its start marker (chosen by the full-token rule on the original
    /// line) and the reset marker; everything else is copied verbatim.
    pub fn color_piece(line: &Vec<char>, match_starts: &Vec<usize>, pattern_len: usize) -> (r: Vec<
        char,
    >)
        requires
            wf_from(line@, pattern_len as int, match_starts@.map_values(|p: usize| p as int), 0),
        ensures
            r@ == highlight_spec(
                line@,
                pattern_len as int,
                match_starts@.map_values(|p: usize| p as int),
            ),
    {
        let ghost ms = match_starts@.map_values(|p: usize| p as int);
        let llen: usize = line.len();
        let mlen: usize = match_starts.len();
        let mut out: Vec<char> = Vec::new();
        let mut pos: usize = 0;
        let mut j: usize = 0;
        proof {
            assert(ms.skip(0) =~= ms);
            assert(out@ + highlight_from(line@, pattern_len as int, ms, 0) =~= highlight_from(
                line@,
                pattern_len as int,
                ms,
                0,
            ));
        }
        while j < mlen
            invariant
                ms == match_starts@.map_values(|p: usize| p as int),
                llen == line@.len(),
                mlen == match_starts@.len(),
                j <= mlen,
                pos <= llen,
                wf_from(line@, pattern_len as int, ms.skip(j as int), pos as int),
                highlight_spec(line@, pattern_len as int, ms) == out@ + highlight_from(
                    line@,
                    pattern_len as int,
                    ms.skip(j as int),
                    pos as int,
                ),
            decreases mlen - j,
        {
            let m = match_starts[j];
            let ghost tail = ms.skip(j as int);
            assert(tail[0] == m as int);
            assert(pos <= m && m + pattern_len <= llen);
            let ghost out_before = out@;
            push_range(&mut out, line, pos, m);
            let full = classify_match(line, m, pattern_len);
            push_style(&mut out, full);
            push_range(&mut out, line, m, m + pattern_len);
            push_reset(&mut out);
            proof {
                assert(tail.drop_first() =~= ms.skip(j as int + 1));
                assert(out@ =~= out_before + (line@.subrange(pos as int, m as int) + style_of(
                    line@,
                    pattern_len as int,
                    m as int,
                ) + line@.subrange(m as int, m + pattern_len) + reset_code()));
                assert(out@ + highlight_from(
                    line@,
                    pattern_len as int,
                    ms.skip(j as int + 1),
                    m + pattern_len,
                ) =~= out_before + highlight_from(line@, pattern_len as int, tail, pos as int));
            }
            pos = m + pattern_len;
            j = j + 1;
        }
        assert(ms.skip(mlen as int) =~= Seq::<int>::empty());
        push_range(&mut out, line, pos, llen);
        assert(out@ =~= highlight_spec(line@, pattern_len as int, ms));
        out
    }
}

} // verus!
