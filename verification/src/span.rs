//! Half-open, zero-based line ranges and the line sets they denote.

use vstd::prelude::*;

verus! {

/// A half-open range `[start, end)` of zero-based line indices.
#[derive(Clone, Copy, Debug, PartialEq, Eq, Structural)]
pub struct Span {
    /// The first line of the range.
    pub start: u32,
    /// One past the last line of the range.
    pub end: u32,
}

impl Span {
    /// The set of line indices this span covers.
    pub open spec fn line_set(self) -> Set<int> {
        Set::new(|i: int| self.start <= i < self.end)
    }

    /// The number of lines this span covers.
    pub open spec fn spec_len(self) -> int {
        self.end - self.start
    }

    /// Whether the span covers at least one line.
    pub open spec fn nonempty(self) -> bool {
        self.start < self.end
    }

    /// The number of lines this span covers; zero when inverted.
    pub fn len(&self) -> (r: u32)
        requires
            self.start <= self.end,
        ensures
            r == self.spec_len(),
    {
        self.end - self.start
    }
}

/// The union of the line sets of all spans of `s`.
pub open spec fn spans_line_set(s: Seq<Span>) -> Set<int>
    decreases s.len(),
{
    if s.len() == 0 {
        Set::empty()
    } else {
        spans_line_set(s.drop_last()).union(s.last().line_set())
    }
}

/// Appending a span unions its lines into the set.
pub proof fn lemma_spans_line_set_push(s: Seq<Span>, x: Span)
    ensures
        spans_line_set(s.push(x)) == spans_line_set(s).union(x.line_set()),
{
    assert(s.push(x).drop_last() =~= s);
    assert(s.push(x).last() == x);
}

/// A single span's list covers exactly that span's lines.
pub proof fn lemma_spans_line_set_singleton(x: Span)
    ensures
        spans_line_set(seq![x]) == x.line_set(),
{
    assert(seq![x].drop_last() =~= Seq::<Span>::empty());
    assert(spans_line_set(Seq::<Span>::empty()) == Set::<int>::empty());
    assert(seq![x].last() == x);
    assert(spans_line_set(seq![x]) =~= x.line_set());
}

/// The line set of a concatenation is the union of the line sets.
pub proof fn lemma_spans_line_set_add(a: Seq<Span>, b: Seq<Span>)
    ensures
        spans_line_set(a + b) == spans_line_set(a).union(spans_line_set(b)),
    decreases b.len(),
{
    if b.len() == 0 {
        assert(a + b =~= a);
        assert(spans_line_set(a) =~= spans_line_set(a).union(Set::empty()));
    } else {
        lemma_spans_line_set_add(a, b.drop_last());
        assert((a + b).drop_last() =~= a + b.drop_last());
        assert((a + b).last() == b.last());
        assert(spans_line_set(b).union(spans_line_set(a)) =~= spans_line_set(b.drop_last()).union(
            b.last().line_set(),
        ).union(spans_line_set(a)));
        assert(spans_line_set(a + b) =~= spans_line_set(a).union(spans_line_set(b)));
    }
}

/// In a sorted list of non-empty spans separated by gaps, any earlier span
/// ends strictly before any later span starts.
pub proof fn lemma_spans_gap(s: Seq<Span>, i: int, j: int)
    requires
        forall|k: int| 0 <= k < s.len() ==> (#[trigger] s[k]).nonempty(),
        forall|k: int| 0 <= k && k + 1 < s.len() ==> (#[trigger] s[k]).end < s[k + 1].start,
        0 <= i < j < s.len(),
    ensures
        s[i].end < s[j].start,
    decreases j - i,
{
    if i + 1 < j {
        lemma_spans_gap(s, i, j - 1);
        assert(s[j - 1].start < s[j - 1].end);
        assert(s[j - 1].end < s[j].start);
    }
}

/// Whether `s` covers the line `l`.
pub open spec fn covers(s: Span, l: int) -> bool {
    s.start <= l < s.end
}

/// How many spans of `ss` cover the line `l`.
pub open spec fn cover_count(ss: Seq<Span>, l: int) -> int
    decreases ss.len(),
{
    if ss.len() == 0 {
        0
    } else {
        cover_count(ss.drop_last(), l) + if covers(ss.last(), l) {
            1int
        } else {
            0int
        }
    }
}

/// Cover counts add up over concatenation.
pub proof fn lemma_cover_count_add(a: Seq<Span>, b: Seq<Span>, l: int)
    ensures
        cover_count(a + b, l) == cover_count(a, l) + cover_count(b, l),
    decreases b.len(),
{
    if b.len() == 0 {
        assert(a + b =~= a);
    } else {
        lemma_cover_count_add(a, b.drop_last(), l);
        assert((a + b).drop_last() =~= a + b.drop_last());
        assert((a + b).last() == b.last());
    }
}

/// Appending a span adds its cover contribution.
pub proof fn lemma_cover_count_push(ss: Seq<Span>, x: Span, l: int)
    ensures
        cover_count(ss.push(x), l) == cover_count(ss, l) + if covers(x, l) {
            1int
        } else {
            0int
        },
{
    assert(ss.push(x).drop_last() =~= ss);
    assert(ss.push(x).last() == x);
}

/// Cover counts are never negative.
pub proof fn lemma_cover_count_nonneg(ss: Seq<Span>, l: int)
    ensures
        cover_count(ss, l) >= 0,
    decreases ss.len(),
{
    if ss.len() > 0 {
        lemma_cover_count_nonneg(ss.drop_last(), l);
    }
}

/// A line is covered at least once exactly when some span covers it.
pub proof fn lemma_cover_count_positive(ss: Seq<Span>, l: int)
    ensures
        cover_count(ss, l) >= 1 <==> exists|k: int| 0 <= k < ss.len() && covers(#[trigger] ss[k], l),
    decreases ss.len(),
{
    lemma_cover_count_nonneg(ss, l);
    if ss.len() > 0 {
        lemma_cover_count_positive(ss.drop_last(), l);
        lemma_cover_count_nonneg(ss.drop_last(), l);
        if cover_count(ss, l) >= 1 {
            if covers(ss.last(), l) {
                assert(covers(ss[ss.len() - 1], l));
            } else {
                let k = choose|k: int|
                    0 <= k < ss.drop_last().len() && covers(#[trigger] ss.drop_last()[k], l);
                assert(covers(ss[k], l));
            }
        }
        if exists|k: int| 0 <= k < ss.len() && covers(#[trigger] ss[k], l) {
            let k = choose|k: int| 0 <= k < ss.len() && covers(#[trigger] ss[k], l);
            if k < ss.len() - 1 {
                assert(covers(ss.drop_last()[k], l));
            }
        }
    }
}

/// Two distinct spans covering the same line force a count of at least two.
pub proof fn lemma_cover_count_two(ss: Seq<Span>, i: int, j: int, l: int)
    requires
        0 <= i < j < ss.len(),
        covers(ss[i], l),
        covers(ss[j], l),
    ensures
        cover_count(ss, l) >= 2,
    decreases ss.len(),
{
    lemma_cover_count_nonneg(ss.drop_last(), l);
    if j == ss.len() - 1 {
        lemma_cover_count_positive(ss.drop_last(), l);
        assert(covers(ss.drop_last()[i], l));
    } else {
        lemma_cover_count_two(ss.drop_last(), i, j, l);
    }
}

/// A line belongs to the union exactly when one of the spans covers it.
pub proof fn lemma_spans_line_set_contains(s: Seq<Span>, i: int)
    ensures
        spans_line_set(s).contains(i) <==> exists|k: int|
            0 <= k < s.len() && #[trigger] s[k].line_set().contains(i),
    decreases s.len(),
{
    if s.len() > 0 {
        lemma_spans_line_set_contains(s.drop_last(), i);
        if spans_line_set(s).contains(i) {
            if s.last().line_set().contains(i) {
                assert(s[s.len() - 1].line_set().contains(i));
            } else {
                let k = choose|k: int|
                    0 <= k < s.drop_last().len() && #[trigger] s.drop_last()[k].line_set().contains(
                        i,
                    );
                assert(s[k].line_set().contains(i));
            }
        }
        if exists|k: int| 0 <= k < s.len() && #[trigger] s[k].line_set().contains(i) {
            let k = choose|k: int| 0 <= k < s.len() && #[trigger] s[k].line_set().contains(i);
            if k < s.len() - 1 {
                assert(s.drop_last()[k].line_set().contains(i));
            }
        }
    }
}

} // verus!
