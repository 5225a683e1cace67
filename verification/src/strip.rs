//! Removing the colour markers from a highlighted line.
//!
//! A marker is a terminal escape sequence: the escape character, then some
//! characters, then a closing `m`. Stripping drops every such sequence and
//! keeps everything else. For a line that contains no escape character of
//! its own, stripping a highlighted copy gives the original line back:
//! marker insertion is lossless.

use vstd::prelude::*;

use crate::highlight::highlight_from;
use crate::highlight::lemma_match_positions_wf;
use crate::highlight::reset_code;
use crate::highlight::strong_code;
use crate::highlight::style_of;
use crate::highlight::weak_code;
use crate::highlight::wf_from;
use crate::matcher::match_positions;
use crate::writer::highlighted_line;

verus! {

/// `s` contains no escape character.
pub open spec fn no_esc(s: Seq<char>) -> bool {
    forall|k: int| 0 <= k < s.len() ==> s[k] != '\u{1b}'
}

/// Drops the prefix of `s` up to and including the first `m`; if `s` holds
/// no `m`, drops everything.
pub open spec fn drop_through_m(s: Seq<char>) -> Seq<char>
    decreases s.len(),
{
    if s.len() == 0 {
        Seq::empty()
    } else if s[0] == 'm' {
        s.drop_first()
    } else {
        drop_through_m(s.drop_first())
    }
}

/// Dropping through `m` never lengthens a sequence.
pub proof fn lemma_drop_through_m_len(s: Seq<char>)
    ensures
        drop_through_m(s).len() <= s.len(),
    decreases s.len(),
{
    if s.len() > 0 && s[0] != 'm' {
        lemma_drop_through_m_len(s.drop_first());
    }
}

/// Removes every escape sequence from `s`: on an escape character, drops
/// everything through the next `m`; keeps every other character.
pub open spec fn strip_markers(s: Seq<char>) -> Seq<char>
    decreases s.len(),
    via strip_markers_decreases
{
    if s.len() == 0 {
        Seq::empty()
    } else if s[0] == '\u{1b}' {
        strip_markers(drop_through_m(s.drop_first()))
    } else {
        seq![s[0]] + strip_markers(s.drop_first())
    }
}

#[via_fn]
proof fn strip_markers_decreases(s: Seq<char>) {
    if s.len() > 0 && s[0] == '\u{1b}' {
        lemma_drop_through_m_len(s.drop_first());
    }
}

/// A prefix without escape characters is kept verbatim.
pub proof fn lemma_strip_plain_prefix(a: Seq<char>, b: Seq<char>)
    requires
        no_esc(a),
    ensures
        strip_markers(a + b) == a + strip_markers(b),
    decreases a.len(),
{
    if a.len() == 0 {
        assert(a + b =~= b);
        assert(a + strip_markers(b) =~= strip_markers(b));
    } else {
        assert((a + b)[0] == a[0]);
        assert((a + b).drop_first() =~= a.drop_first() + b);
        assert(no_esc(a.drop_first()));
        lemma_strip_plain_prefix(a.drop_first(), b);
        assert(seq![a[0]] + (a.drop_first() + strip_markers(b)) =~= a + strip_markers(b));
    }
}

/// Dropping through `m` consumes exactly `mid + m` when `mid` itself holds
/// no `m`.
pub proof fn lemma_drop_through_m_exact(mid: Seq<char>, b: Seq<char>)
    requires
        forall|k: int| 0 <= k < mid.len() ==> mid[k] != 'm',
    ensures
        drop_through_m(mid + seq!['m'] + b) == b,
    decreases mid.len(),
{
    if mid.len() == 0 {
        assert(mid + seq!['m'] + b =~= seq!['m'] + b);
        assert((seq!['m'] + b)[0] == 'm');
        assert((seq!['m'] + b).drop_first() =~= b);
    } else {
        assert((mid + seq!['m'] + b)[0] == mid[0]);
        assert((mid + seq!['m'] + b).drop_first() =~= mid.drop_first() + seq!['m'] + b);
        lemma_drop_through_m_exact(mid.drop_first(), b);
    }
}

/// Stripping removes a leading colour marker whole.
pub proof fn lemma_strip_marker(mk: Seq<char>, b: Seq<char>)
    requires
        mk == strong_code() || mk == weak_code() || mk == reset_code(),
    ensures
        strip_markers(mk + b) == strip_markers(b),
{
    assert((mk + b)[0] == '\u{1b}');
    let mid = mk.subrange(1, mk.len() - 1);
    assert(forall|k: int| 0 <= k < mid.len() ==> mid[k] != 'm');
    assert((mk + b).drop_first() =~= mid + seq!['m'] + b);
    lemma_drop_through_m_exact(mid, b);
}

/// No escape character survives in a piece of an escape-free line.
proof fn lemma_no_esc_subrange(line: Seq<char>, i: int, j: int)
    requires
        no_esc(line),
        0 <= i <= j <= line.len(),
    ensures
        no_esc(line.subrange(i, j)),
{
    assert forall|k: int| 0 <= k < j - i implies line.subrange(i, j)[k] != '\u{1b}' by {
        assert(line.subrange(i, j)[k] == line[i + k]);
    }
}

/// Stripping the markers from the highlighted tail of an escape-free line
/// reproduces the corresponding tail of the line.
pub proof fn lemma_strip_highlight_from(line: Seq<char>, plen: int, ms: Seq<int>, from: int)
    requires
        no_esc(line),
        0 <= from <= line.len(),
        plen >= 0,
        wf_from(line, plen, ms, from),
    ensures
        strip_markers(highlight_from(line, plen, ms, from)) == line.subrange(
            from,
            line.len() as int,
        ),
    decreases ms.len(),
{
    if ms.len() == 0 {
        let a = line.subrange(from, line.len() as int);
        lemma_no_esc_subrange(line, from, line.len() as int);
        lemma_strip_plain_prefix(a, Seq::empty());
        assert(a + Seq::<char>::empty() =~= a);
        assert(strip_markers(Seq::<char>::empty()) =~= Seq::<char>::empty());
        assert(a + strip_markers(Seq::<char>::empty()) =~= a);
    } else {
        let m0 = ms[0];
        let a = line.subrange(from, m0);
        let mk = style_of(line, plen, m0);
        let p = line.subrange(m0, m0 + plen);
        let rest = highlight_from(line, plen, ms.drop_first(), m0 + plen);
        lemma_strip_highlight_from(line, plen, ms.drop_first(), m0 + plen);
        let hl = highlight_from(line, plen, ms, from);
        assert(hl =~= a + (mk + (p + (reset_code() + rest))));
        lemma_no_esc_subrange(line, from, m0);
        lemma_no_esc_subrange(line, m0, m0 + plen);
        lemma_strip_plain_prefix(a, mk + (p + (reset_code() + rest)));
        lemma_strip_marker(mk, p + (reset_code() + rest));
        lemma_strip_plain_prefix(p, reset_code() + rest);
        lemma_strip_marker(reset_code(), rest);
        assert(strip_markers(hl) == a + (p + line.subrange(m0 + plen, line.len() as int)));
        assert(a + (p + line.subrange(m0 + plen, line.len() as int)) =~= line.subrange(
            from,
            line.len() as int,
        ));
    }
}

/// Round trip: stripping every inserted marker from the highlighted copy of
/// a line reproduces the line exactly, provided the line itself contains no
/// escape character.
pub proof fn lemma_strip_round_trip(line: Seq<char>, pat: Seq<char>)
    requires
        no_esc(line),
    ensures
        strip_markers(highlighted_line(line, pat)) == line,
{
    lemma_match_positions_wf(line, pat, 0);
    lemma_strip_highlight_from(line, pat.len() as int, match_positions(line, pat), 0);
    assert(line.subrange(0, line.len() as int) =~= line);
}

/// Removes every escape sequence (an escape character through the next `m`)
/// from `s` and returns what is left.
pub fn strip_color_codes(s: &Vec<char>) -> (r: Vec<char>)
    ensures
        r@ == strip_markers(s@),
{
    let n: usize = s.len();
    let mut r: Vec<char> = Vec::new();
    let mut i: usize = 0;
    proof {
        assert(s@.skip(0) =~= s@);
        assert(r@ + strip_markers(s@) =~= strip_markers(s@));
    }
    while i < n
        invariant
            n == s@.len(),
            i <= n,
            strip_markers(s@) == r@ + strip_markers(s@.skip(i as int)),
        decreases n - i,
    {
        let ghost entry_tail = s@.skip(i as int);
        let ghost i_entry = i as int;
        if s[i] == '\u{1b}' {
            proof {
                assert(entry_tail[0] == '\u{1b}');
                assert(entry_tail.drop_first() =~= s@.skip(i + 1));
            }
            i = i + 1;
            let ghost anchor = s@.skip(i as int);
            while i < n && s[i] != 'm'
                invariant
                    n == s@.len(),
                    i_entry < i <= n,
                    drop_through_m(anchor) == drop_through_m(s@.skip(i as int)),
                decreases n - i,
            {
                proof {
                    let u = s@.skip(i as int);
                    assert(u[0] == s@[i as int]);
                    assert(u.drop_first() =~= s@.skip(i + 1));
                }
                i = i + 1;
            }
            if i < n {
                proof {
                    let u = s@.skip(i as int);
                    assert(u[0] == 'm');
                    assert(u.drop_first() =~= s@.skip(i + 1));
                }
                i = i + 1;
                assert(strip_markers(entry_tail) == strip_markers(s@.skip(i as int)));
            } else {
                proof {
                    assert(s@.skip(i as int) =~= Seq::<char>::empty());
                    assert(drop_through_m(Seq::<char>::empty()) =~= Seq::<char>::empty());
                    assert(strip_markers(entry_tail) == strip_markers(s@.skip(i as int)));
                }
            }
        } else {
            let c = s[i];
            let ghost r_before = r@;
            r.push(c);
            proof {
                assert(entry_tail[0] == c);
                assert(entry_tail.drop_first() =~= s@.skip(i + 1));
                assert(r@ =~= r_before + seq![c]);
                assert(r_before + (seq![c] + strip_markers(s@.skip(i + 1))) =~= r@
                    + strip_markers(s@.skip(i + 1)));
            }
            i = i + 1;
        }
    }
    proof {
        assert(s@.skip(n as int) =~= Seq::<char>::empty());
        assert(r@ + strip_markers(Seq::<char>::empty()) =~= r@);
    }
    r
}

} // verus!
