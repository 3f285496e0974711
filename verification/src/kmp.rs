//! Literal matching by Knuth-Morris-Pratt.
//!
//! A pattern is compiled into its failure table: for each prefix, the length
//! of the longest proper prefix of it that is also its suffix. A scan reads
//! the haystack once, left to right, and never moves back in it. After a full
//! match it falls back by the table instead of starting over, so occurrences
//! that overlap are all reported.

use crate::error::CompileError;
use crate::lines::{
    direct_position, lemma_line_is_unbroken, lemma_position_bounds, lemma_same_line,
    line_start_before, newlines_before, Position, NEWLINE,
};
use vstd::prelude::*;

verus! {

/// The first `k` bytes of `p` are also the last `k` of its first `len`.
pub open spec fn is_border(p: Seq<u8>, len: int, k: int) -> bool {
    &&& 0 <= k <= len <= p.len()
    &&& p.subrange(0, k) == p.subrange(len - k, len)
}

/// No border of the first `len` bytes of `p` that is shorter than `len` is
/// longer than `bound`.
pub open spec fn borders_bounded(p: Seq<u8>, len: int, bound: int) -> bool {
    forall|other: int| #[trigger] is_border(p, len, other) && other < len ==> other <= bound
}

/// `k` is the length of the longest border of the first `len` bytes of `p`
/// that is shorter than `len`.
pub open spec fn is_longest_border(p: Seq<u8>, len: int, k: int) -> bool {
    &&& is_border(p, len, k)
    &&& k < len
    &&& borders_bounded(p, len, k)
}

/// `table` is the failure table of `p`.
pub open spec fn is_failure_table(p: Seq<u8>, table: Seq<usize>) -> bool {
    &&& table.len() == p.len()
    &&& forall|i: int| 0 <= i < p.len() ==> is_longest_border(p, i + 1, #[trigger] table[i] as int)
}

/// `needle` stands in `haystack` at offset `s`.
pub open spec fn matches_at(needle: Seq<u8>, haystack: Seq<u8>, s: int) -> bool {
    &&& 0 <= s
    &&& s + needle.len() <= haystack.len()
    &&& haystack.subrange(s, s + needle.len()) == needle
}

/// The offsets below `upto` at which `needle` stands in `haystack`,
/// ascending.
pub open spec fn occurrences(needle: Seq<u8>, haystack: Seq<u8>, upto: int) -> Seq<usize>
    decreases upto,
{
    if upto <= 0 {
        Seq::empty()
    } else if matches_at(needle, haystack, upto - 1) {
        occurrences(needle, haystack, upto - 1).push((upto - 1) as usize)
    } else {
        occurrences(needle, haystack, upto - 1)
    }
}

/// Every offset at which `needle` stands in `haystack`, ascending.
pub open spec fn all_occurrences(needle: Seq<u8>, haystack: Seq<u8>) -> Seq<usize> {
    occurrences(needle, haystack, haystack.len() as int + 1)
}

/// A pattern has one failure table only.
pub proof fn lemma_failure_table_is_unique(p: Seq<u8>, a: Seq<usize>, b: Seq<usize>)
    requires
        is_failure_table(p, a),
        is_failure_table(p, b),
    ensures
        a == b,
{
    assert forall|i: int| 0 <= i < p.len() implies a[i] == b[i] by {
        assert(is_longest_border(p, i + 1, a[i] as int));
        assert(is_longest_border(p, i + 1, b[i] as int));
    }
    assert(a =~= b);
}

/// The occurrences below `upto` are exactly the offsets below `upto` at
/// which the needle stands, each once and in ascending order. Occurrences
/// that overlap are among them like any other.
pub proof fn lemma_occurrences_are_all_matches(needle: Seq<u8>, haystack: Seq<u8>, upto: int)
    requires
        upto <= haystack.len() + 1,
        haystack.len() <= usize::MAX,
    ensures
        forall|k: int|
            0 <= k < occurrences(needle, haystack, upto).len() ==> matches_at(
                needle,
                haystack,
                #[trigger] occurrences(needle, haystack, upto)[k] as int,
            ) && occurrences(needle, haystack, upto)[k] < upto,
        forall|i: int, j: int|
            0 <= i < j < occurrences(needle, haystack, upto).len() ==> occurrences(
                needle,
                haystack,
                upto,
            )[i] < occurrences(needle, haystack, upto)[j],
        forall|s: int|
            0 <= s < upto && #[trigger] matches_at(needle, haystack, s) ==> occurrences(
                needle,
                haystack,
                upto,
            ).contains(s as usize),
    decreases upto,
{
    if upto > 0 {
        lemma_occurrences_are_all_matches(needle, haystack, upto - 1);
        let before = occurrences(needle, haystack, upto - 1);
        let now = occurrences(needle, haystack, upto);
        assert forall|s: int| 0 <= s < upto && #[trigger] matches_at(
            needle,
            haystack,
            s,
        ) implies now.contains(s as usize) by {
            if s < upto - 1 {
                let k = choose|k: int| 0 <= k < before.len() && before[k] == s as usize;
                assert(now[k] == s as usize);
            } else {
                assert(now[now.len() - 1] == s as usize);
            }
        }
    }
}

/// A border of a border is a border.
proof fn lemma_border_of_border(p: Seq<u8>, len: int, k: int, inner: int)
    requires
        is_border(p, len, k),
        is_border(p, k, inner),
    ensures
        is_border(p, len, inner),
{
    assert forall|t: int| 0 <= t < inner implies #[trigger] p.subrange(0, inner)[t] == p.subrange(
        len - inner,
        len,
    )[t] by {
        assert(p.subrange(0, inner)[t] == p.subrange(k - inner, k)[t]);
        assert(p.subrange(0, k)[k - inner + t] == p.subrange(len - k, len)[k - inner + t]);
    }
    assert(p.subrange(0, inner) =~= p.subrange(len - inner, len));
}

/// A border grows by one byte if the bytes behind both of its copies agree.
proof fn lemma_border_extend(p: Seq<u8>, len: int, k: int)
    requires
        is_border(p, len, k),
        len < p.len(),
        p[k] == p[len],
    ensures
        is_border(p, len + 1, k + 1),
{
    assert forall|t: int| 0 <= t < k + 1 implies #[trigger] p.subrange(0, k + 1)[t] == p.subrange(
        len - k,
        len + 1,
    )[t] by {
        if t < k {
            assert(p.subrange(0, k)[t] == p.subrange(len - k, len)[t]);
        }
    }
    assert(p.subrange(0, k + 1) =~= p.subrange(len - k, len + 1));
}

/// A border without its last byte is a border of the prefix that is shorter
/// by one, and the bytes that were dropped agree.
proof fn lemma_border_shrink(p: Seq<u8>, len: int, k: int)
    requires
        is_border(p, len + 1, k + 1),
        0 <= k,
    ensures
        is_border(p, len, k),
        p[k] == p[len],
{
    assert forall|t: int| 0 <= t < k implies #[trigger] p.subrange(0, k)[t] == p.subrange(
        len - k,
        len,
    )[t] by {
        assert(p.subrange(0, k + 1)[t] == p.subrange(len - k, len + 1)[t]);
    }
    assert(p.subrange(0, k) =~= p.subrange(len - k, len));
    assert(p.subrange(0, k + 1)[k] == p.subrange(len - k, len + 1)[k]);
}

/// A border of a prefix is, within a border of a longer prefix, a border of
/// that border.
proof fn lemma_border_within(p: Seq<u8>, len: int, k: int, inner: int)
    requires
        is_border(p, len, k),
        is_border(p, len, inner),
        inner <= k,
    ensures
        is_border(p, k, inner),
{
    assert forall|t: int| 0 <= t < inner implies #[trigger] p.subrange(0, inner)[t] == p.subrange(
        k - inner,
        k,
    )[t] by {
        assert(p.subrange(0, inner)[t] == p.subrange(len - inner, len)[t]);
        assert(p.subrange(0, k)[k - inner + t] == p.subrange(len - k, len)[k - inner + t]);
    }
    assert(p.subrange(0, inner) =~= p.subrange(k - inner, k));
}

/// Builds the failure table of `pat` in one pass over it.
pub fn construct_lps(pat: &[u8]) -> (lps: Vec<usize>)
    ensures
        is_failure_table(pat@, lps@),
{
    let m = pat.len();
    let mut lps: Vec<usize> = Vec::new();
    if m == 0 {
        return lps;
    }
    lps.push(0);
    proof {
        assert(pat@.subrange(0, 0) =~= pat@.subrange(1, 1));
    }
    let mut n: usize = 0;
    let mut i: usize = 1;
    while i < m
        invariant
            m == pat@.len(),
            1 <= i <= m,
            lps.len() == i,
            n < i,
            forall|t: int| 0 <= t < i ==> is_longest_border(pat@, t + 1, #[trigger] lps[t] as int),
            is_border(pat@, i as int, n as int),
            borders_bounded(pat@, i + 1, n + 1),
        decreases m - i, n,
    {
        if pat[i] == pat[n] {
            proof {
                lemma_border_extend(pat@, i as int, n as int);
                assert(borders_bounded(pat@, i + 2, n + 2)) by {
                    assert forall|other: int| #[trigger]
                        is_border(pat@, i + 2, other) && other < i + 2 implies other <= n + 2 by {
                        if other >= 1 && i + 1 < m {
                            lemma_border_shrink(pat@, i + 1, other - 1);
                        }
                    }
                }
            }
            n += 1;
            lps.push(n);
            i += 1;
        } else if n != 0 {
            let shorter = lps[n - 1];
            proof {
                assert(is_longest_border(pat@, n as int, shorter as int));
                lemma_border_of_border(pat@, i as int, n as int, shorter as int);
                assert(borders_bounded(pat@, i + 1, shorter + 1)) by {
                    assert forall|other: int| #[trigger]
                        is_border(pat@, i + 1, other) && other < i + 1 implies other <= shorter
                        + 1 by {
                        if other >= 1 {
                            lemma_border_shrink(pat@, i as int, other - 1);
                            lemma_border_within(pat@, i as int, n as int, other - 1);
                        }
                    }
                }
            }
            n = shorter;
        } else {
            proof {
                assert(pat@.subrange(0, 0) =~= pat@.subrange(i + 1, i + 1));
                assert(borders_bounded(pat@, i + 1, 0)) by {
                    assert forall|other: int| #[trigger]
                        is_border(pat@, i + 1, other) && other < i + 1 implies other <= 0 by {
                        if other >= 1 {
                            lemma_border_shrink(pat@, i as int, other - 1);
                        }
                    }
                }
                assert(borders_bounded(pat@, i + 2, 1)) by {
                    assert forall|other: int| #[trigger]
                        is_border(pat@, i + 2, other) && other < i + 2 implies other <= 1 by {
                        if other >= 1 && i + 1 < m {
                            lemma_border_shrink(pat@, i + 1, other - 1);
                        }
                    }
                }
            }
            lps.push(0);
            i += 1;
        }
    }
    lps
}

/// Skipping offsets at which the needle does not stand adds no occurrence.
proof fn lemma_occurrences_skip(needle: Seq<u8>, haystack: Seq<u8>, a: int, b: int)
    requires
        a <= b,
        forall|s: int| a <= s < b ==> !matches_at(needle, haystack, s),
    ensures
        occurrences(needle, haystack, b) == occurrences(needle, haystack, a),
    decreases b - a,
{
    if a < b {
        lemma_occurrences_skip(needle, haystack, a, b - 1);
    }
}

/// The first `j` bytes of the needle stand in the haystack just in front of
/// offset `i`.
pub open spec fn prefix_stands(needle: Seq<u8>, haystack: Seq<u8>, i: int, j: int) -> bool {
    &&& 0 <= j <= needle.len()
    &&& j <= i <= haystack.len()
    &&& haystack.subrange(i - j, i) == needle.subrange(0, j)
}

/// When `j` bytes of the needle stand in front of `i` and the longest border
/// of those `j` bytes has length `k`, the needle stands nowhere between the
/// offsets `i - j` and `i - k`.
proof fn lemma_fallback_skips(needle: Seq<u8>, haystack: Seq<u8>, i: int, j: int, k: int, s: int)
    requires
        prefix_stands(needle, haystack, i, j),
        is_longest_border(needle, j, k),
        i - j < s < i - k,
    ensures
        !matches_at(needle, haystack, s),
{
    if matches_at(needle, haystack, s) {
        let width = i - s;
        assert forall|t: int| 0 <= t < width implies #[trigger] needle.subrange(0, width)[t]
            == needle.subrange(j - width, j)[t] by {
            assert(haystack.subrange(s, s + needle.len())[t] == needle[t]);
            assert(haystack.subrange(i - j, i)[j - width + t] == needle.subrange(0, j)[j - width
                + t]);
        }
        assert(needle.subrange(0, width) =~= needle.subrange(j - width, j));
        assert(is_border(needle, j, width));
    }
}

/// When fewer than all bytes of the needle stand in front of `i` and the
/// next byte differs, the needle does not stand at `i - j`.
proof fn lemma_mismatch_skips(needle: Seq<u8>, haystack: Seq<u8>, i: int, j: int)
    requires
        prefix_stands(needle, haystack, i, j),
        j < needle.len(),
        i < haystack.len() ==> haystack[i] != needle[j],
    ensures
        !matches_at(needle, haystack, i - j),
{
    if matches_at(needle, haystack, i - j) {
        assert(haystack.subrange(i - j, i - j + needle.len())[j] == needle[j]);
    }
}

/// One more byte of the needle stands in front of `i + 1` if the bytes at
/// `i` and `j` agree.
proof fn lemma_prefix_grows(needle: Seq<u8>, haystack: Seq<u8>, i: int, j: int)
    requires
        prefix_stands(needle, haystack, i, j),
        j < needle.len(),
        i < haystack.len(),
        haystack[i] == needle[j],
    ensures
        prefix_stands(needle, haystack, i + 1, j + 1),
{
    assert forall|t: int| 0 <= t < j + 1 implies #[trigger] haystack.subrange(i - j, i + 1)[t]
        == needle.subrange(0, j + 1)[t] by {
        if t < j {
            assert(haystack.subrange(i - j, i)[t] == needle.subrange(0, j)[t]);
        }
    }
    assert(haystack.subrange(i - j, i + 1) =~= needle.subrange(0, j + 1));
}

/// After a fallback to a border, the border stands in front of `i`.
proof fn lemma_prefix_falls_back(needle: Seq<u8>, haystack: Seq<u8>, i: int, j: int, k: int)
    requires
        prefix_stands(needle, haystack, i, j),
        is_border(needle, j, k),
    ensures
        prefix_stands(needle, haystack, i, k),
{
    assert forall|t: int| 0 <= t < k implies #[trigger] haystack.subrange(i - k, i)[t]
        == needle.subrange(0, k)[t] by {
        assert(haystack.subrange(i - j, i)[j - k + t] == needle.subrange(0, j)[j - k + t]);
        assert(needle.subrange(0, k)[t] == needle.subrange(j - k, j)[t]);
    }
    assert(haystack.subrange(i - k, i) =~= needle.subrange(0, k));
}

/// After a full match that ends in front of `i`: the needle stands at
/// `i - m`, nowhere behind that up to where the longest border of the needle
/// begins, and that border stands in front of `i`.
proof fn lemma_step_after_match(needle: Seq<u8>, haystack: Seq<u8>, i: int, k: int)
    requires
        needle.len() > 0,
        prefix_stands(needle, haystack, i, needle.len() as int),
        is_longest_border(needle, needle.len() as int, k),
    ensures
        matches_at(needle, haystack, i - needle.len()),
        occurrences(needle, haystack, i - k) == occurrences(
            needle,
            haystack,
            i - needle.len(),
        ).push((i - needle.len()) as usize),
        prefix_stands(needle, haystack, i, k),
{
    let m = needle.len() as int;
    let start = i - m;
    assert(needle.subrange(0, m) =~= needle);
    assert forall|s: int| start < s < i - k implies !matches_at(needle, haystack, s) by {
        lemma_fallback_skips(needle, haystack, i, m, k, s);
    }
    lemma_occurrences_skip(needle, haystack, start + 1, i - k);
    lemma_prefix_falls_back(needle, haystack, i, m, k);
}

/// After a mismatch behind `j` matched bytes, `j` not 0: the needle stands
/// nowhere from `i - j` up to where the longest border of those bytes begins,
/// and that border stands in front of `i`.
proof fn lemma_step_after_mismatch(needle: Seq<u8>, haystack: Seq<u8>, i: int, j: int, k: int)
    requires
        prefix_stands(needle, haystack, i, j),
        j < needle.len(),
        i < haystack.len() ==> haystack[i] != needle[j],
        is_longest_border(needle, j, k),
    ensures
        occurrences(needle, haystack, i - k) == occurrences(needle, haystack, i - j),
        prefix_stands(needle, haystack, i, k),
{
    lemma_mismatch_skips(needle, haystack, i, j);
    assert forall|s: int| i - j <= s < i - k implies !matches_at(needle, haystack, s) by {
        if s > i - j {
            lemma_fallback_skips(needle, haystack, i, j, k, s);
        }
    }
    lemma_occurrences_skip(needle, haystack, i - j, i - k);
    lemma_prefix_falls_back(needle, haystack, i, j, k);
}

/// After a mismatch on the first byte of the needle: the needle does not
/// stand at `i`.
proof fn lemma_step_after_miss(needle: Seq<u8>, haystack: Seq<u8>, i: int)
    requires
        needle.len() > 0,
        0 <= i < haystack.len(),
        haystack[i] != needle[0],
    ensures
        occurrences(needle, haystack, i + 1) == occurrences(needle, haystack, i),
        prefix_stands(needle, haystack, i + 1, 0),
{
    assert(haystack.subrange(i, i) =~= needle.subrange(0, 0));
    lemma_mismatch_skips(needle, haystack, i, 0);
    assert(haystack.subrange(i + 1, i + 1) =~= needle.subrange(0, 0));
}

/// A half-open range of bytes `start..end` in a haystack.
#[derive(Clone, Copy, Debug, PartialEq, Eq, Structural)]
pub struct MatchSpan {
    pub start: usize,
    pub end: usize,
}

/// The span of an occurrence of a needle of `width` bytes at `start`.
pub open spec fn span_at(start: usize, width: nat) -> MatchSpan {
    MatchSpan { start, end: (start + width) as usize }
}

/// The spans of all occurrences of `needle` in `haystack`, ascending.
pub open spec fn all_spans(needle: Seq<u8>, haystack: Seq<u8>) -> Seq<MatchSpan> {
    all_occurrences(needle, haystack).map_values(|s: usize| span_at(s, needle.len()))
}

/// The occurrences that lie on one line: all of them, or none if the needle
/// itself holds a line terminator.
pub open spec fn line_occurrences(needle: Seq<u8>, haystack: Seq<u8>) -> Seq<usize> {
    if needle.contains(NEWLINE) {
        Seq::empty()
    } else {
        all_occurrences(needle, haystack)
    }
}

/// The positions of the occurrences that lie on one line, ascending.
pub open spec fn line_positions(needle: Seq<u8>, haystack: Seq<u8>) -> Seq<Position> {
    line_occurrences(needle, haystack).map_values(|s: usize| direct_position(haystack, s as int))
}

/// A literal pattern with its failure table. It is never empty.
pub struct Literal {
    needle: Vec<u8>,
    failure: Vec<usize>,
}

impl View for Literal {
    type V = Seq<u8>;

    closed spec fn view(&self) -> Seq<u8> {
        self.needle@
    }
}

impl Literal {
    #[verifier::type_invariant]
    spec fn well_formed(self) -> bool {
        &&& self.needle@.len() > 0
        &&& is_failure_table(self.needle@, self.failure@)
    }

    /// Compiles `pattern`. Only the empty pattern is refused.
    pub fn compile(pattern: &[u8]) -> (r: Result<Literal, CompileError>)
        ensures
            r is Ok <==> pattern@.len() > 0,
            r matches Ok(literal) ==> literal@ == pattern@,
            r matches Err(e) ==> e is Empty,
    {
        if pattern.len() == 0 {
            return Err(CompileError::Empty);
        }
        let failure = construct_lps(pattern);
        let needle = vstd::slice::slice_to_vec(pattern);
        Ok(Literal { needle, failure })
    }

    /// The pattern's bytes.
    pub fn needle(&self) -> (bytes: &[u8])
        ensures
            bytes@ == self@,
            bytes@.len() > 0,
    {
        proof {
            use_type_invariant(self);
        }
        self.needle.as_slice()
    }

    /// The failure table.
    pub fn failure_table(&self) -> (table: &[usize])
        ensures
            is_failure_table(self@, table@),
    {
        proof {
            use_type_invariant(self);
        }
        self.failure.as_slice()
    }

    /// The spans of all occurrences of the pattern in `haystack`, ascending,
    /// those that overlap too.
    pub fn find_all(&self, haystack: &[u8]) -> (spans: Vec<MatchSpan>)
        ensures
            spans@ == all_spans(self@, haystack@),
            forall|k: int|
                0 <= k < spans.len() ==> (#[trigger] spans[k]).start <= spans[k].end
                    <= haystack@.len(),
            forall|i: int, j: int|
                0 <= i < j < spans.len() ==> (#[trigger] spans[i]).start
                    < (#[trigger] spans[j]).start,
    {
        proof {
            use_type_invariant(self);
        }
        let needle = self.needle.as_slice();
        let lps = self.failure.as_slice();
        let n = haystack.len();
        let m = needle.len();
        let ghost width = needle@.len();
        let ghost to_span = |s: usize| span_at(s, width);
        let mut spans: Vec<MatchSpan> = Vec::new();
        let mut i: usize = 0;
        let mut j: usize = 0;
        proof {
            assert(haystack@.subrange(0, 0) =~= needle@.subrange(0, 0));
            assert(occurrences(needle@, haystack@, 0).map_values(to_span) =~= spans@);
        }
        while i < n
            invariant
                n == haystack@.len(),
                m == needle@.len(),
                width == needle@.len(),
                to_span == |s: usize| span_at(s, width),
                m > 0,
                is_failure_table(needle@, lps@),
                j < m,
                prefix_stands(needle@, haystack@, i as int, j as int),
                spans@ == occurrences(needle@, haystack@, i - j).map_values(to_span),
                forall|k: int|
                    0 <= k < spans.len() ==> (#[trigger] spans[k]).start <= spans[k].end <= n,
            decreases n - i, j,
        {
            if haystack[i] == needle[j] {
                proof {
                    lemma_prefix_grows(needle@, haystack@, i as int, j as int);
                }
                i += 1;
                j += 1;
                if j == m {
                    let start = i - m;
                    let k = lps[j - 1];
                    proof {
                        lemma_step_after_match(needle@, haystack@, i as int, k as int);
                        let before = occurrences(needle@, haystack@, start as int);
                        assert(before.push(start).map_values(to_span) =~= before.map_values(
                            to_span,
                        ).push(span_at(start, width)));
                    }
                    spans.push(MatchSpan { start, end: i });
                    j = k;
                }
            } else if j != 0 {
                let k = lps[j - 1];
                proof {
                    lemma_step_after_mismatch(needle@, haystack@, i as int, j as int, k as int);
                }
                j = k;
            } else {
                proof {
                    lemma_step_after_miss(needle@, haystack@, i as int);
                }
                i += 1;
            }
        }
        proof {
            lemma_occurrences_skip(needle@, haystack@, n - j, n + 1);
            lemma_occurrences_are_all_matches(needle@, haystack@, n + 1);
        }
        spans
    }

    /// The positions of the occurrences of the pattern in `haystack`,
    /// ascending, with rows and columns counted along the way. A terminator
    /// starts a new line and starts the comparison over, so only occurrences
    /// within one line are found.
    pub fn search(&self, haystack: &[u8]) -> (found: Vec<Position>)
        requires
            haystack@.len() < usize::MAX,
        ensures
            found@ == line_positions(self@, haystack@),
    {
        proof {
            use_type_invariant(self);
        }
        let needle = self.needle.as_slice();
        let lps = self.failure.as_slice();
        let n = haystack.len();
        let m = needle.len();
        let ghost broken = needle@.contains(NEWLINE);
        let ghost text = haystack@;
        let ghost to_position = |s: usize| direct_position(text, s as int);
        let mut found: Vec<Position> = Vec::new();
        let mut i: usize = 0;
        let mut j: usize = 0;
        let mut row: usize = 1;
        let mut col: usize = 1;
        proof {
            assert(haystack@.subrange(0, 0) =~= needle@.subrange(0, 0));
            assert(occurrences(needle@, haystack@, 0).map_values(to_position) =~= found@);
        }
        while i < n
            invariant
                n == haystack@.len() < usize::MAX,
                m == needle@.len(),
                text == haystack@,
                to_position == |s: usize| direct_position(text, s as int),
                broken == needle@.contains(NEWLINE),
                m > 0,
                is_failure_table(needle@, lps@),
                j < m,
                prefix_stands(needle@, haystack@, i as int, j as int),
                line_start_before(haystack@, i as int) <= i - j,
                row == newlines_before(haystack@, i as int) + 1,
                col == i - line_start_before(haystack@, i as int) + 1,
                broken ==> found@.len() == 0,
                !broken ==> found@ == occurrences(needle@, haystack@, i - j).map_values(
                    to_position,
                ),
            decreases n - i, j,
        {
            proof {
                lemma_position_bounds(haystack@, i as int);
            }
            if haystack[i] == NEWLINE {
                proof {
                    if !broken {
                        assert forall|s: int| i - j <= s < i + 1 implies !matches_at(
                            needle@,
                            haystack@,
                            s,
                        ) by {
                            if matches_at(needle@, haystack@, s) {
                                assert(haystack@.subrange(s, s + m)[i - s] == needle@[i - s]);
                            }
                        }
                        lemma_occurrences_skip(needle@, haystack@, i - j, i + 1);
                    }
                    assert(haystack@.subrange(i + 1, i + 1) =~= needle@.subrange(0, 0));
                }
                i += 1;
                j = 0;
                col = 1;
                row += 1;
            } else if haystack[i] == needle[j] {
                proof {
                    lemma_prefix_grows(needle@, haystack@, i as int, j as int);
                }
                i += 1;
                j += 1;
                col += 1;
                if j == m {
                    let start = i - m;
                    let k = lps[j - 1];
                    proof {
                        lemma_step_after_match(needle@, haystack@, i as int, k as int);
                        // The match lies on the current line, so the needle
                        // holds no terminator and the match is counted.
                        lemma_line_is_unbroken(haystack@, i as int);
                        lemma_same_line(haystack@, start as int, i as int);
                        if broken {
                            let at = choose|at: int| 0 <= at < m && needle@[at] == NEWLINE;
                            assert(haystack@.subrange(start as int, i as int)[at] == needle@[at]);
                        }
                        let before = occurrences(needle@, haystack@, start as int);
                        assert(before.push(start).map_values(to_position) =~= before.map_values(
                            to_position,
                        ).push(direct_position(text, start as int)));
                    }
                    found.push(Position { row, col: col - m });
                    j = k;
                }
            } else if j != 0 {
                let k = lps[j - 1];
                proof {
                    lemma_step_after_mismatch(needle@, haystack@, i as int, j as int, k as int);
                }
                j = k;
            } else {
                proof {
                    lemma_step_after_miss(needle@, haystack@, i as int);
                }
                i += 1;
                col += 1;
            }
        }
        proof {
            lemma_occurrences_skip(needle@, haystack@, n - j, n + 1);
            if broken {
                assert(found@ =~= line_positions(needle@, haystack@));
            }
        }
        found
    }
}

} // verus!
